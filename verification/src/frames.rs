//! What a frame from a client means.

use crate::text::{begins_with, contains, lowercase, occurs_in, starts_with};
use vstd::prelude::*;

verus! {

/// What the coordinator makes of a text frame that a session sent.
#[derive(Clone, Copy, Debug, PartialEq, Eq, Structural)]
pub enum FrameKind {
    /// The sender has finished its job.
    Completion,
    /// A message about earnings, which is none of the coordinator's
    /// business.
    Earnings,
    /// Nothing that the coordinator acts on.
    Other,
}

/// Whether a text reports that a job is done: in lower case it holds the
/// word `completed` or the word `finished`.
pub open spec fn reports_completion(text: Seq<char>) -> bool {
    occurs_in(lowercase(text), "completed"@) || occurs_in(lowercase(text), "finished"@)
}

/// The meaning of a text frame. A report of completion is taken as one
/// whatever else the text holds.
pub open spec fn kind_of(text: Seq<char>) -> FrameKind {
    if reports_completion(text) {
        FrameKind::Completion
    } else if begins_with(text, "Earnings Update: "@) {
        FrameKind::Earnings
    } else {
        FrameKind::Other
    }
}

/// Decides what a text frame means.
pub fn classify(text: &str) -> (kind: FrameKind)
    ensures
        kind == kind_of(text@),
{
    let lower = text.to_lowercase();
    classify_lowered(text, lower.as_str())
}

/// Decides what a text frame means, given the text and its lower-case form.
pub fn classify_lowered(text: &str, lower: &str) -> (kind: FrameKind)
    ensures
        kind == if occurs_in(lower@, "completed"@) || occurs_in(lower@, "finished"@) {
            FrameKind::Completion
        } else if begins_with(text@, "Earnings Update: "@) {
            FrameKind::Earnings
        } else {
            FrameKind::Other
        },
{
    if contains(lower, "completed") || contains(lower, "finished") {
        FrameKind::Completion
    } else if starts_with(text, "Earnings Update: ") {
        FrameKind::Earnings
    } else {
        FrameKind::Other
    }
}

} // verus!
