//! What a submission asks for, read out of its JSON text.

use crate::json::{as_elements, as_text, member, parse, parsed, shape, shapes, Json};
use crate::store::texts;
use crate::text::{trim_leading, without_leading};
use vstd::prelude::*;

verus! {

/// What a submission asks for, as the contracts speak of it.
pub struct RequestView {
    pub job_type: Seq<char>,
    pub target: Option<Seq<char>>,
    pub tags: Option<Seq<Seq<char>>>,
}

/// What a submission asks for.
#[derive(Clone, Debug)]
pub struct Request {
    /// The member `job_type` where it is a string, else `unknown`.
    pub job_type: String,
    /// The name of the worker that must run the job.
    pub target: Option<String>,
    /// The member `tags` where it is a list of strings.
    pub tags: Option<Vec<String>>,
}

impl View for Request {
    type V = RequestView;

    open spec fn view(&self) -> RequestView {
        RequestView {
            job_type: self.job_type@,
            target: match self.target {
                Some(name) => Some(name@),
                None => None,
            },
            tags: match self.tags {
                Some(list) => Some(texts(list@)),
                None => None,
            },
        }
    }
}

/// The member of a document under `key`, where the document is an object
/// and has one.
pub open spec fn member_of(doc: Json, key: Seq<char>) -> Option<Json> {
    match doc {
        Json::Object(members) if members.contains_key(key) => Some(members[key]),
        _ => None,
    }
}

/// The text of a value that is a string.
pub open spec fn string_of(value: Json) -> Option<Seq<char>> {
    match value {
        Json::Text(text) => Some(text),
        _ => None,
    }
}

/// The member of a document under `key`, where it is a string.
pub open spec fn string_member(doc: Json, key: Seq<char>) -> Option<Seq<char>> {
    match member_of(doc, key) {
        Some(found) => string_of(found),
        None => None,
    }
}

/// The worker that a document asks for: its member `target` where that is
/// a string, without the `@` signs that it begins with.
pub open spec fn target_in(doc: Json) -> Option<Seq<char>> {
    match string_member(doc, "target"@) {
        Some(name) => Some(without_leading(name, '@')),
        None => None,
    }
}

/// The worker that the text of a job asks for. A text that is no JSON asks
/// for none.
pub open spec fn target_of(body: Seq<char>) -> Option<Seq<char>> {
    match parsed(body) {
        Some(doc) => target_in(doc),
        None => None,
    }
}

/// The texts of JSON values that are all strings; `None` where one is not.
pub open spec fn strings_of(items: Seq<Json>) -> Option<Seq<Seq<char>>>
    decreases items.len(),
{
    if items.len() == 0 {
        Some(Seq::empty())
    } else {
        match (strings_of(items.drop_last()), string_of(items.last())) {
            (Some(front), Some(last)) => Some(front.push(last)),
            _ => None,
        }
    }
}

/// The tags of a document: its member `tags` where that is an array of
/// strings.
pub open spec fn tags_in(doc: Json) -> Option<Seq<Seq<char>>> {
    match member_of(doc, "tags"@) {
        Some(Json::Array(items)) => strings_of(items),
        _ => None,
    }
}

/// The kind of work that a document names: its member `job_type` where
/// that is a string, else `unknown`.
pub open spec fn type_in(doc: Json) -> Seq<char> {
    match string_member(doc, "job_type"@) {
        Some(name) => name,
        None => "unknown"@,
    }
}

/// What a document asks for.
pub open spec fn request_in(doc: Json) -> RequestView {
    RequestView { job_type: type_in(doc), target: target_in(doc), tags: tags_in(doc) }
}

/// What the text of a submission asks for; `None` where the text is no
/// JSON.
pub open spec fn request_of(body: Seq<char>) -> Option<RequestView> {
    match parsed(body) {
        Some(doc) => Some(request_in(doc)),
        None => None,
    }
}

/// Where the first `upto` values are not all strings, the whole list is
/// not.
pub proof fn lemma_strings_of_none(items: Seq<Json>, upto: int)
    requires
        0 <= upto <= items.len(),
        strings_of(items.take(upto)) is None,
    ensures
        strings_of(items) is None,
    decreases items.len() - upto,
{
    if upto < items.len() {
        assert(items.take(upto + 1).drop_last() =~= items.take(upto));
        lemma_strings_of_none(items, upto + 1);
    } else {
        assert(items.take(upto) =~= items);
    }
}

/// Reads the texts of JSON values that are all strings.
pub fn read_strings(items: &Vec<serde_json::Value>) -> (out: Option<Vec<String>>)
    ensures
        match out {
            Some(list) => strings_of(shapes(items@)) == Some(texts(list@)),
            None => strings_of(shapes(items@)) is None,
        },
{
    let ghost all = shapes(items@);
    let mut out: Vec<String> = Vec::new();
    let mut i: usize = 0;
    proof {
        assert(all.take(0) =~= Seq::<Json>::empty());
        assert(texts(out@) =~= Seq::<Seq<char>>::empty());
    }
    while i < items.len()
        invariant
            i <= items.len(),
            all == shapes(items@),
            strings_of(all.take(i as int)) == Some(texts(out@)),
        decreases items.len() - i,
    {
        let ghost before = texts(out@);
        proof {
            assert(all.take(i + 1).drop_last() =~= all.take(i as int));
            assert(all.take(i + 1).last() == shape(items@[i as int]));
        }
        match as_text(&items[i]) {
            Some(text) => {
                out.push(text.to_owned());
                proof {
                    assert(texts(out@) =~= before.push(text@));
                }
            },
            None => {
                proof {
                    lemma_strings_of_none(all, i + 1);
                }
                return None;
            },
        }
        i += 1;
    }
    proof {
        assert(all.take(i as int) =~= all);
    }
    Some(out)
}

/// Reads the member of a document under `key`, where it is a string.
pub fn read_string_member(doc: &serde_json::Value, key: &str) -> (out: Option<String>)
    ensures
        match out {
            Some(text) => string_member(shape(*doc), key@) == Some(text@),
            None => string_member(shape(*doc), key@) is None,
        },
{
    match member(doc, key) {
        Some(found) => match as_text(found) {
            Some(text) => Some(text.to_owned()),
            None => None,
        },
        None => None,
    }
}

/// Reads the worker that a document asks for.
pub fn read_target_in(doc: &serde_json::Value) -> (out: Option<String>)
    ensures
        match out {
            Some(name) => target_in(shape(*doc)) == Some(name@),
            None => target_in(shape(*doc)) is None,
        },
{
    match read_string_member(doc, "target") {
        Some(name) => Some(trim_leading(name.as_str(), '@')),
        None => None,
    }
}

/// Reads the tags of a document.
pub fn read_tags_in(doc: &serde_json::Value) -> (out: Option<Vec<String>>)
    ensures
        match out {
            Some(list) => tags_in(shape(*doc)) == Some(texts(list@)),
            None => tags_in(shape(*doc)) is None,
        },
{
    match member(doc, "tags") {
        Some(found) => match as_elements(found) {
            Some(items) => read_strings(items),
            None => None,
        },
        None => None,
    }
}

/// Reads the kind of work that a document names.
pub fn read_type_in(doc: &serde_json::Value) -> (out: String)
    ensures
        out@ == type_in(shape(*doc)),
{
    match read_string_member(doc, "job_type") {
        Some(name) => name,
        None => "unknown".to_owned(),
    }
}

/// Reads what the text of a submission asks for.
pub fn read_request(body: &str) -> (out: Option<Request>)
    ensures
        match out {
            Some(request) => request_of(body@) == Some(request@),
            None => request_of(body@) is None,
        },
{
    match parse(body) {
        Ok(doc) => Some(
            Request {
                job_type: read_type_in(&doc),
                target: read_target_in(&doc),
                tags: read_tags_in(&doc),
            },
        ),
        Err(_) => None,
    }
}

/// Reads the worker that the text of a job asks for.
pub fn read_target(body: &str) -> (out: Option<String>)
    ensures
        match out {
            Some(name) => target_of(body@) == Some(name@),
            None => target_of(body@) is None,
        },
{
    match parse(body) {
        Ok(doc) => read_target_in(&doc),
        Err(_) => None,
    }
}

} // verus!
