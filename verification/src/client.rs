//! What a client of the coordinator decides: which job an answer speaks
//! of, and when the updates that it hears say that it may stop.

use crate::store::texts;
use crate::text::{
    chars_of, leading_space, leading_word, same_text, skip_space, skip_word, text_between,
};
use vstd::prelude::*;

verus! {

/// What is left of a text after its first word and the white space around
/// that word.
pub open spec fn after_first_word(s: Seq<char>) -> Seq<char> {
    let a = s.skip(leading_space(s) as int);
    let b = a.skip(leading_word(a) as int);
    b.skip(leading_space(b) as int)
}

/// The second word of a text, where it has two words. Words are what
/// white space keeps apart.
pub open spec fn second_word(s: Seq<char>) -> Option<Seq<char>> {
    let rest = after_first_word(s);
    if leading_word(rest) > 0 {
        Some(rest.take(leading_word(rest) as int))
    } else {
        None
    }
}

/// The id of the job that an answer of the coordinator speaks of: the
/// second word of `Job <id> queued`.
pub fn job_id_in(reply: &str) -> (out: Option<String>)
    ensures
        match out {
            Some(id) => second_word(reply@) == Some(id@),
            None => second_word(reply@) is None,
        },
{
    let chars = chars_of(reply);
    let a = skip_space(&chars, 0);
    let b = skip_word(&chars, a);
    let c = skip_space(&chars, b);
    let d = skip_word(&chars, c);
    proof {
        let s = reply@;
        assert(s.skip(0) =~= s);
        assert(s.skip(a as int).skip(b - a) =~= s.skip(b as int));
        assert(s.skip(b as int).skip(c - b) =~= s.skip(c as int));
        assert(after_first_word(s) == s.skip(c as int));
    }
    if d == c {
        return None;
    }
    let out = text_between(&chars, c, d);
    proof {
        assert(chars@.subrange(c as int, d as int) =~= chars@.skip(c as int).take(d - c));
    }
    Some(out)
}

/// What an update means to a client that waits for one job.
#[derive(Clone, Copy, Debug, PartialEq, Eq, Structural)]
pub enum Verdict {
    /// Nothing yet: go on waiting.
    Waiting,
    /// The job is done.
    Succeeded,
    /// The job has failed.
    Failed,
}

/// What an update of `kind` on the job `id` with `status` means to a
/// client that waits for the job `wanted`.
pub open spec fn verdict_of(
    kind: Seq<char>,
    id: Seq<char>,
    status: Seq<char>,
    wanted: Seq<char>,
) -> Verdict {
    if kind == "job_update"@ && id == wanted {
        if status == "completed"@ {
            Verdict::Succeeded
        } else if status == "failed"@ {
            Verdict::Failed
        } else {
            Verdict::Waiting
        }
    } else {
        Verdict::Waiting
    }
}

/// Decides what an update means to a client that waits for one job.
pub fn verdict(kind: &str, id: &str, status: &str, wanted: &str) -> (out: Verdict)
    ensures
        out == verdict_of(kind@, id@, status@, wanted@),
{
    if same_text(kind, "job_update") && same_text(id, wanted) {
        if same_text(status, "completed") {
            Verdict::Succeeded
        } else if same_text(status, "failed") {
            Verdict::Failed
        } else {
            Verdict::Waiting
        }
    } else {
        Verdict::Waiting
    }
}

/// Whether a tag stands among the tags of an update.
pub open spec fn tagged(tags: Option<Seq<Seq<char>>>, tag: Seq<char>) -> bool {
    match tags {
        Some(list) => list.contains(tag),
        None => false,
    }
}

/// Decides whether a text stands in a list.
pub fn list_has(list: &Vec<String>, tag: &str) -> (out: bool)
    ensures
        out == texts(list@).contains(tag@),
{
    let mut i: usize = 0;
    while i < list.len()
        invariant
            i <= list.len(),
            forall|k: int| 0 <= k < i ==> texts(list@)[k] != tag@,
        decreases list.len() - i,
    {
        if same_text(list[i].as_str(), tag) {
            proof {
                let all = texts(list@);
                assert(0 <= i < all.len() && all[i as int] == tag@);
            }
            return true;
        }
        i += 1;
    }
    false
}

/// Decides whether a tag stands among the tags of an update.
pub fn has_tag(tags: &Option<Vec<String>>, tag: &str) -> (out: bool)
    ensures
        out == tagged(
            match tags {
                Some(list) => Some(texts(list@)),
                None => None,
            },
            tag@,
        ),
{
    match tags {
        None => false,
        Some(list) => list_has(list, tag),
    }
}

/// The number of jobs that a listener still waits for, after an update
/// that bears its tag: one less after a job has ended, one more after a job
/// has come in, and the same after anything else. The number stays within
/// what the type holds.
pub open spec fn count_after(count: i64, status: Seq<char>) -> i64 {
    if status == "completed"@ || status == "failed"@ {
        if count > i64::MIN {
            (count - 1) as i64
        } else {
            count
        }
    } else if status == "pending"@ {
        if count < i64::MAX {
            (count + 1) as i64
        } else {
            count
        }
    } else {
        count
    }
}

/// Works out the number of jobs that a listener still waits for, after an
/// update that bears its tag. The listener stops once the number is zero
/// or less.
pub fn listen_step(count: i64, status: &str) -> (out: (i64, bool))
    ensures
        out.0 == count_after(count, status@),
        out.1 == (out.0 <= 0),
{
    let next = if same_text(status, "completed") || same_text(status, "failed") {
        if count > i64::MIN {
            count - 1
        } else {
            count
        }
    } else if same_text(status, "pending") {
        if count < i64::MAX {
            count + 1
        } else {
            count
        }
    } else {
        count
    };
    (next, next <= 0)
}

} // verus!
