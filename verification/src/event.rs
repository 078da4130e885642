//! Job events, and the frames that carry them to observers.

use crate::json::{quote, quoted};
use crate::status::{status_word, JobStatus};
use crate::store::texts;
use crate::text::{decimal, render_decimal};
use vstd::prelude::*;
use vstd::string::StringExecFns;

verus! {

/// An event as the contracts speak of it.
pub struct EventView {
    pub id: Seq<char>,
    pub status: JobStatus,
    pub message: Seq<char>,
    pub timestamp: u64,
    pub tags: Option<Seq<Seq<char>>>,
}

/// Something that happened to a job, for observers to hear of.
#[derive(Clone, Debug)]
pub struct Event {
    pub id: String,
    pub status: JobStatus,
    /// A sentence for people.
    pub message: String,
    /// Milliseconds since the Unix epoch.
    pub timestamp: u64,
    pub tags: Option<Vec<String>>,
}

impl View for Event {
    type V = EventView;

    open spec fn view(&self) -> EventView {
        EventView {
            id: self.id@,
            status: self.status,
            message: self.message@,
            timestamp: self.timestamp,
            tags: match self.tags {
                Some(list) => Some(texts(list@)),
                None => None,
            },
        }
    }
}

/// The items of a JSON array of strings, each written as a literal, with
/// commas between them. `None` where one of them cannot be written.
pub open spec fn literal_items(items: Seq<Seq<char>>) -> Option<Seq<char>>
    decreases items.len(),
{
    if items.len() == 0 {
        Some(Seq::empty())
    } else {
        match (literal_items(items.drop_last()), quoted(items.last())) {
            (Some(front), Some(last)) => Some(
                if items.len() == 1 {
                    last
                } else {
                    front + ","@ + last
                },
            ),
            _ => None,
        }
    }
}

/// The member `"tags"` of a frame, comma included; empty where the event
/// has no tags.
pub open spec fn tags_member(tags: Option<Seq<Seq<char>>>) -> Option<Seq<char>> {
    match tags {
        None => Some(Seq::empty()),
        Some(items) => match literal_items(items) {
            Some(inner) => Some(",\"tags\":["@ + inner + "]"@),
            None => None,
        },
    }
}

/// The frame that carries an event: a JSON object with the members `type`,
/// always `job_update`, and `payload`, which holds `id`, `timestamp`,
/// `message`, `status` and, where the event has tags, `tags`. `None` where a
/// text of the event cannot be written as JSON.
pub open spec fn event_frame(e: EventView) -> Option<Seq<char>> {
    match (quoted(e.id), quoted(e.message), tags_member(e.tags)) {
        (Some(id), Some(message), Some(tags)) => Some(
            "{\"type\":\"job_update\",\"payload\":{\"id\":"@ + id + ",\"timestamp\":"@ + decimal(
                e.timestamp as nat,
            ) + ",\"message\":"@ + message + ",\"status\":\""@ + status_word(e.status) + "\""@
                + tags + "}}"@,
        ),
        _ => None,
    }
}

/// Writes the items of a JSON array of strings.
pub fn render_items(items: &Vec<String>) -> (out: Option<String>)
    ensures
        match out {
            Some(text) => literal_items(texts(items@)) == Some(text@),
            None => literal_items(texts(items@)) is None,
        },
{
    let ghost all = texts(items@);
    let mut out = String::new();
    let mut i: usize = 0;
    proof {
        assert(all.take(0) =~= Seq::<Seq<char>>::empty());
    }
    while i < items.len()
        invariant
            i <= items.len(),
            all == texts(items@),
            literal_items(all.take(i as int)) == Some(out@),
        decreases items.len() - i,
    {
        proof {
            assert(all.take(i + 1).drop_last() =~= all.take(i as int));
            assert(all.take(i + 1).last() == items@[i as int]@);
        }
        match quote(items[i].as_str()) {
            Ok(literal) => {
                if i > 0 {
                    out.append(",");
                }
                out.append(literal.as_str());
                proof {
                    if i == 0 {
                        assert(out@ =~= literal@);
                    }
                }
            },
            Err(_) => {
                proof {
                    lemma_literal_items_none(all, i + 1);
                    assert(all.take(all.len() as int) =~= all);
                }
                return None;
            },
        }
        i += 1;
    }
    proof {
        assert(all.take(i as int) =~= all);
    }
    Some(out)
}

/// Where the first `upto` items cannot be written, the whole list cannot.
pub proof fn lemma_literal_items_none(items: Seq<Seq<char>>, upto: int)
    requires
        0 <= upto <= items.len(),
        literal_items(items.take(upto)) is None,
    ensures
        literal_items(items) is None,
    decreases items.len() - upto,
{
    if upto < items.len() {
        assert(items.take(upto + 1).drop_last() =~= items.take(upto));
        lemma_literal_items_none(items, upto + 1);
    } else {
        assert(items.take(upto) =~= items);
    }
}

impl Event {
    /// Writes the frame that carries the event.
    pub fn render(&self) -> (out: Option<String>)
        ensures
            match out {
                Some(frame) => event_frame(self@) == Some(frame@),
                None => event_frame(self@) is None,
            },
    {
        let id = match quote(self.id.as_str()) {
            Ok(literal) => literal,
            Err(_) => {
                return None;
            },
        };
        let message = match quote(self.message.as_str()) {
            Ok(literal) => literal,
            Err(_) => {
                return None;
            },
        };
        let mut tags = String::new();
        match &self.tags {
            None => {},
            Some(list) => match render_items(list) {
                Some(inner) => {
                    tags.append(",\"tags\":[");
                    tags.append(inner.as_str());
                    tags.append("]");
                },
                None => {
                    return None;
                },
            },
        }
        let mut out = String::new();
        out.append("{\"type\":\"job_update\",\"payload\":{\"id\":");
        out.append(id.as_str());
        out.append(",\"timestamp\":");
        out.append(render_decimal(self.timestamp).as_str());
        out.append(",\"message\":");
        out.append(message.as_str());
        out.append(",\"status\":\"");
        out.append(self.status.word());
        out.append("\"");
        out.append(tags.as_str());
        out.append("}}");
        proof {
            assert(Seq::<char>::empty() + ",\"tags\":["@ =~= ",\"tags\":["@);
            assert(Seq::<char>::empty() + "{\"type\":\"job_update\",\"payload\":{\"id\":"@
                =~= "{\"type\":\"job_update\",\"payload\":{\"id\":"@);
        }
        Some(out)
    }
}

} // verus!
