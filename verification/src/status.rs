//! Status values of jobs and of worker sessions.

use crate::text::same_text;
use vstd::prelude::*;

verus! {

/// Where a job stands in its life.
#[derive(Clone, Copy, Debug, PartialEq, Eq, Structural)]
pub enum JobStatus {
    Pending,
    Processing,
    Completed,
    Failed,
}

/// Whether a worker session has a job in flight.
#[derive(Clone, Copy, Debug, PartialEq, Eq, Structural)]
pub enum WorkerStatus {
    Idle,
    Busy,
}

impl JobStatus {
    /// The only steps a job may take: pending to processing, and processing
    /// to one of the two final states.
    pub open spec fn can_step_to(self, next: JobStatus) -> bool {
        match (self, next) {
            (JobStatus::Pending, JobStatus::Processing) => true,
            (JobStatus::Processing, JobStatus::Completed) => true,
            (JobStatus::Processing, JobStatus::Failed) => true,
            _ => false,
        }
    }

    /// A final state has no step out of it.
    pub open spec fn is_final(self) -> bool {
        self == JobStatus::Completed || self == JobStatus::Failed
    }

    /// Position of the status on the path pending, processing, final.
    pub open spec fn rank(self) -> nat {
        match self {
            JobStatus::Pending => 0,
            JobStatus::Processing => 1,
            JobStatus::Completed => 2,
            JobStatus::Failed => 2,
        }
    }

    /// Decides whether `next` may follow `self`.
    pub fn may_step_to(self, next: JobStatus) -> (ok: bool)
        ensures
            ok == self.can_step_to(next),
    {
        match self {
            JobStatus::Pending => next == JobStatus::Processing,
            JobStatus::Processing => next == JobStatus::Completed || next == JobStatus::Failed,
            _ => false,
        }
    }
}

impl WorkerStatus {
    /// The word for the status: `idle` or `busy`.
    pub fn word(&self) -> (out: &'static str)
        ensures
            out@ == (match self {
                WorkerStatus::Idle => "idle"@,
                WorkerStatus::Busy => "busy"@,
            }),
    {
        match self {
            WorkerStatus::Idle => "idle",
            WorkerStatus::Busy => "busy",
        }
    }
}

/// The word that frames use for a status.
pub open spec fn status_word(status: JobStatus) -> Seq<char> {
    match status {
        JobStatus::Pending => "pending"@,
        JobStatus::Processing => "processing"@,
        JobStatus::Completed => "completed"@,
        JobStatus::Failed => "failed"@,
    }
}

impl JobStatus {
    /// The word that frames use for the status.
    pub fn word(&self) -> (out: &'static str)
        ensures
            out@ == status_word(*self),
    {
        match self {
            JobStatus::Pending => "pending",
            JobStatus::Processing => "processing",
            JobStatus::Completed => "completed",
            JobStatus::Failed => "failed",
        }
    }
}

/// The status that a word stands for.
pub open spec fn status_named(word: Seq<char>) -> Option<JobStatus> {
    if word == "pending"@ {
        Some(JobStatus::Pending)
    } else if word == "processing"@ {
        Some(JobStatus::Processing)
    } else if word == "completed"@ {
        Some(JobStatus::Completed)
    } else if word == "failed"@ {
        Some(JobStatus::Failed)
    } else {
        None
    }
}

/// Reads the status that a word stands for.
pub fn status_from_word(word: &str) -> (out: Option<JobStatus>)
    ensures
        out == status_named(word@),
{
    if same_text(word, "pending") {
        Some(JobStatus::Pending)
    } else if same_text(word, "processing") {
        Some(JobStatus::Processing)
    } else if same_text(word, "completed") {
        Some(JobStatus::Completed)
    } else if same_text(word, "failed") {
        Some(JobStatus::Failed)
    } else {
        None
    }
}

/// The word for a status stands for that status.
pub proof fn law_status_words_read_back(status: JobStatus)
    ensures
        status_named(status_word(status)) == Some(status),
{
    reveal_strlit("pending");
    reveal_strlit("processing");
    reveal_strlit("completed");
    reveal_strlit("failed");
    assert("pending"@.len() == 7);
    assert("processing"@.len() == 10);
    assert("completed"@.len() == 9);
    assert("failed"@.len() == 6);
}

} // verus!
