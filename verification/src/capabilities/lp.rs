//! Licence plate recognition. The recognition itself is simulated: the
//! answer names the vehicle and the video that were asked about, and five
//! times within the last hour at which the vehicle is said to have been
//! seen.

use super::{result_view, Capability};
use crate::event::{literal_items, render_items};
use crate::json::{quote, quoted};
use crate::store::texts;
use crate::text::{chars_of, digit_of};
use vstd::prelude::*;
use vstd::string::StringExecFns;

verus! {

pub struct LicensePlateRecognition;

/// `rand::thread_rng` and `Rng::gen_range` over `0..bound`: a number from
/// zero up to, but not with, `bound`, by chance.
#[verifier::external_body]
pub(crate) fn random_below(bound: i64) -> (out: i64)
    requires
        bound > 0,
    ensures
        0 <= out < bound,
{
    rand::Rng::gen_range(&mut rand::thread_rng(), 0..bound)
}

/// Whether a text has the form of a time as the answers give it: day,
/// month and year, then hour, minute and second, each in two digits, as in
/// `08/07/25 14:03:59`.
pub open spec fn is_stamp(s: Seq<char>) -> bool {
    &&& s.len() == 17
    &&& forall|i: int|
        0 <= i < 17 ==> if i == 2 || i == 5 {
            #[trigger] s[i] == '/'
        } else if i == 8 {
            s[i] == ' '
        } else if i == 11 || i == 14 {
            s[i] == ':'
        } else {
            digit_of(s[i]) is Some
        }
}

/// `chrono::Local::now`, less `chrono::Duration::seconds(back)`, written
/// with `format` after `pattern`: the local time of `back` seconds ago.
/// Which time that is depends on the clock and on the time zone of the
/// machine; the pattern gives its form.
#[verifier::external_body]
pub(crate) fn local_time_ago(back: i64, pattern: &str) -> (out: String)
    requires
        0 <= back < 3600,
        pattern@ == "%d/%m/%y %H:%M:%S"@,
    ensures
        is_stamp(out@),
{
    (chrono::Local::now() - chrono::Duration::seconds(back)).format(pattern).to_string()
}

/// `serde_json::Error`'s `Display`, through `to_string`: what went wrong,
/// in words.
#[verifier::external_body]
pub(crate) fn error_text(e: &serde_json::Error) -> (out: String) {
    e.to_string()
}

/// How long, in seconds, the recognition is made to take: two to three
/// minutes, by chance.
pub fn processing_seconds() -> (out: u64)
    ensures
        120 <= out <= 180,
{
    let extra = random_below(61);
    120 + extra as u64
}

/// Whether `a` comes before `b`, or is `b`, in the order of a dictionary
/// whose alphabet is the characters by their numbers.
pub open spec fn lex_le(a: Seq<char>, b: Seq<char>) -> bool
    decreases a.len(),
{
    if a.len() == 0 {
        true
    } else if b.len() == 0 {
        false
    } else if a[0] != b[0] {
        (a[0] as int) < (b[0] as int)
    } else {
        lex_le(a.drop_first(), b.drop_first())
    }
}

/// Of two texts one comes before the other, or they are equal.
pub proof fn lemma_lex_total(a: Seq<char>, b: Seq<char>)
    ensures
        lex_le(a, b) || lex_le(b, a),
    decreases a.len(),
{
    if a.len() > 0 && b.len() > 0 {
        if a[0] == b[0] {
            lemma_lex_total(a.drop_first(), b.drop_first());
        }
    }
}

/// What comes before something that comes before a third comes before the
/// third.
pub proof fn lemma_lex_transitive(a: Seq<char>, b: Seq<char>, c: Seq<char>)
    requires
        lex_le(a, b),
        lex_le(b, c),
    ensures
        lex_le(a, c),
    decreases a.len(),
{
    if a.len() > 0 && b.len() > 0 && c.len() > 0 && a[0] == b[0] && b[0] == c[0] {
        lemma_lex_transitive(a.drop_first(), b.drop_first(), c.drop_first());
    }
}

/// Decides whether `a` comes before `b`, or is `b`.
pub fn text_le(a: &str, b: &str) -> (out: bool)
    ensures
        out == lex_le(a@, b@),
{
    let x = chars_of(a);
    let y = chars_of(b);
    let mut i: usize = 0;
    proof {
        assert(a@.skip(0) =~= a@);
        assert(b@.skip(0) =~= b@);
    }
    while i < x.len() && i < y.len()
        invariant
            i <= x.len(),
            i <= y.len(),
            x@ == a@,
            y@ == b@,
            lex_le(a@, b@) == lex_le(a@.skip(i as int), b@.skip(i as int)),
        decreases x.len() - i,
    {
        proof {
            assert(a@.skip(i as int)[0] == x@[i as int]);
            assert(b@.skip(i as int)[0] == y@[i as int]);
            assert(a@.skip(i as int).drop_first() =~= a@.skip(i + 1));
            assert(b@.skip(i as int).drop_first() =~= b@.skip(i + 1));
        }
        if x[i] != y[i] {
            return x[i] < y[i];
        }
        i += 1;
    }
    i == x.len()
}

/// Every text comes before, or is, every text after it.
pub open spec fn in_order(items: Seq<Seq<char>>) -> bool {
    forall|i: int, j: int| 0 <= i < j < items.len() ==> lex_le(items[i], items[j])
}

/// Puts texts in order.
pub fn sort_texts(items: &Vec<String>) -> (out: Vec<String>)
    ensures
        out.len() == items.len(),
        in_order(texts(out@)),
        texts(out@).to_multiset() == texts(items@).to_multiset(),
{
    let mut out: Vec<String> = Vec::new();
    let mut i: usize = 0;
    proof {
        assert(texts(items@).take(0) =~= Seq::<Seq<char>>::empty());
        assert(texts(out@) =~= Seq::<Seq<char>>::empty());
    }
    while i < items.len()
        invariant
            i <= items.len(),
            out.len() == i,
            in_order(texts(out@)),
            texts(out@).to_multiset() == texts(items@).take(i as int).to_multiset(),
        decreases items.len() - i,
    {
        let ghost before = texts(out@);
        let ghost x = items@[i as int]@;
        let mut at: usize = 0;
        while at < out.len() && text_le(out[at].as_str(), items[i].as_str())
            invariant
                at <= out.len(),
                i < items.len(),
                x == items@[i as int]@,
                forall|k: int| 0 <= k < at ==> lex_le(out@[k]@, x),
            decreases out.len() - at,
        {
            at += 1;
        }
        out.insert(at, items[i].clone());
        proof {
            let after = texts(out@);
            assert(after =~= before.insert(at as int, x));
            assert forall|a: int, b: int| 0 <= a < b < after.len() implies lex_le(
                after[a],
                after[b],
            ) by {
                if b < at {
                    assert(lex_le(before[a], before[b]));
                } else if b == at {
                    assert(lex_le(before[a], x));
                } else if a < at {
                    assert(lex_le(before[a], before[b - 1]));
                } else if a == at {
                    lemma_lex_total(before[at as int], x);
                    if b - 1 > at {
                        assert(lex_le(before[at as int], before[b - 1]));
                        lemma_lex_transitive(x, before[at as int], before[b - 1]);
                    }
                } else {
                    assert(lex_le(before[a - 1], before[b - 1]));
                }
            }
            broadcast use vstd::seq_lib::group_to_multiset_ensures;

            assert(after.remove(at as int) =~= before);
            assert(after.to_multiset().count(x) > 0) by {
                assert(after[at as int] == x);
                assert(after.contains(x));
            }
            assert(after.to_multiset() =~= before.to_multiset().insert(x));
            let done = texts(items@).take(i as int);
            assert(texts(items@).take(i + 1) =~= done.push(x));
        }
        i += 1;
    }
    proof {
        assert(texts(items@).take(i as int) =~= texts(items@));
    }
    out
}

/// The answer of the recognition, as JSON: the vehicle, the video, and the
/// times at which the vehicle was seen. `None` where one of the texts
/// cannot be written as JSON.
pub open spec fn report_text(
    vehicle: Seq<char>,
    video: Seq<char>,
    seen: Seq<Seq<char>>,
) -> Option<Seq<char>> {
    match (quoted(vehicle), quoted(video), literal_items(seen)) {
        (Some(v), Some(u), Some(times)) => Some(
            "{\"vehicle_number\":"@ + v + ",\"video_url\":"@ + u + ",\"timestamps\":["@ + times
                + "]}"@,
        ),
        _ => None,
    }
}

/// What is said where a job names no vehicle or no video.
pub open spec fn usage() -> Seq<char> {
    "Usage: <vehicle_number> <video_url>"@
}

/// Writes the answer of the recognition.
pub fn report(vehicle: &str, video: &str, seen: &Vec<String>) -> (out: Result<String, String>)
    ensures
        match out {
            Ok(text) => report_text(vehicle@, video@, texts(seen@)) == Some(text@),
            Err(_) => report_text(vehicle@, video@, texts(seen@)) is None,
        },
{
    let v = match quote(vehicle) {
        Ok(v) => v,
        Err(e) => {
            return Err(error_text(&e));
        },
    };
    let u = match quote(video) {
        Ok(u) => u,
        Err(e) => {
            return Err(error_text(&e));
        },
    };
    let times = match render_items(seen) {
        Some(times) => times,
        None => {
            return Err("a timestamp cannot be written as JSON".to_owned());
        },
    };
    let mut out = "{\"vehicle_number\":".to_owned();
    out.append(v.as_str());
    out.append(",\"video_url\":");
    out.append(u.as_str());
    out.append(",\"timestamps\":[");
    out.append(times.as_str());
    out.append("]}");
    Ok(out)
}

impl Capability for LicensePlateRecognition {
    open spec fn code_of(&self) -> Seq<char> {
        "Lp"@
    }

    open spec fn supported(&self) -> bool {
        true
    }

    /// A job with fewer than two arguments is told how to ask. Every other
    /// job is answered with a report on its first two arguments and five
    /// times, in order.
    open spec fn answers(&self, args: Seq<Seq<char>>, out: Result<Seq<char>, Seq<char>>) -> bool {
        if args.len() < 2 {
            out == Err::<Seq<char>, Seq<char>>(usage())
        } else {
            exists|seen: Seq<Seq<char>>|
                {
                    &&& seen.len() == 5
                    &&& in_order(seen)
                    &&& forall|i: int| 0 <= i < 5 ==> is_stamp(#[trigger] seen[i])
                    &&& match #[trigger] report_text(args[0], args[1], seen) {
                        Some(text) => out == Ok::<Seq<char>, Seq<char>>(text),
                        None => out is Err,
                    }
                }
        }
    }

    fn code(&self) -> (c: &'static str) {
        "Lp"
    }

    fn is_supported(&self) -> (ok: bool) {
        true
    }

    fn execute(&self, args: Vec<String>) -> (out: Result<String, String>) {
        if args.len() < 2 {
            return Err("Usage: <vehicle_number> <video_url>".to_owned());
        }
        let mut seen: Vec<String> = Vec::new();
        let mut n: usize = 0;
        while n < 5
            invariant
                n <= 5,
                seen.len() == n,
                forall|k: int| 0 <= k < n ==> is_stamp(#[trigger] seen@[k]@),
            decreases 5 - n,
        {
            let back = random_below(3600);
            seen.push(local_time_ago(back, "%d/%m/%y %H:%M:%S"));
            n += 1;
        }
        let sorted = sort_texts(&seen);
        let out = report(args[0].as_str(), args[1].as_str(), &sorted);
        proof {
            assert(texts(args@)[0] == args@[0]@);
            assert(texts(args@)[1] == args@[1]@);
            let witness = texts(sorted@);
            assert forall|i: int| 0 <= i < 5 implies is_stamp(#[trigger] witness[i]) by {
                broadcast use vstd::seq_lib::group_to_multiset_ensures;

                let x = witness[i];
                assert(witness.contains(x));
                assert(texts(seen@).to_multiset().count(x) > 0);
                assert(texts(seen@).contains(x));
                let k = choose|k: int| 0 <= k < texts(seen@).len() && texts(seen@)[k] == x;
                assert(is_stamp(seen@[k]@));
            }
            assert(match report_text(args.deep_view()[0], args.deep_view()[1], witness) {
                Some(text) => result_view(out) == Ok::<Seq<char>, Seq<char>>(text),
                None => result_view(out) is Err,
            });
        }
        out
    }
}

} // verus!
