//! The job table: every job ever accepted, in order of arrival.
//!
//! A job is never deleted, keeps its arrival time, and moves only along the
//! path pending, processing, then completed or failed. The table refuses
//! every other change, so whoever holds a well-formed table holds jobs that
//! have followed that path.

use crate::status::JobStatus;
use crate::text::same_text;
use vstd::prelude::*;

verus! {

/// The texts of a list of strings.
pub open spec fn texts(items: Seq<String>) -> Seq<Seq<char>> {
    Seq::new(items.len(), |i: int| items[i]@)
}

/// A job as the contracts speak of it.
pub struct JobView {
    pub id: Seq<char>,
    pub body: Seq<char>,
    pub job_type: Seq<char>,
    pub status: JobStatus,
    pub tags: Option<Seq<Seq<char>>>,
    pub created_at: u64,
    pub worker: Option<u64>,
}

/// One row of the job table.
#[derive(Clone, Debug)]
pub struct JobRecord {
    /// Unique for the whole life of the job.
    pub id: String,
    /// The submitted text, kept as it came.
    pub body: String,
    /// Advisory: what kind of work the submitter asked for.
    pub job_type: String,
    pub status: JobStatus,
    /// The tags of the submission, where it carried a list of strings.
    pub tags: Option<Vec<String>>,
    /// Arrival time in milliseconds; rows are ordered by it.
    pub created_at: u64,
    /// The session that the job was handed to, once it has been.
    pub worker: Option<u64>,
}

impl View for JobRecord {
    type V = JobView;

    open spec fn view(&self) -> JobView {
        JobView {
            id: self.id@,
            body: self.body@,
            job_type: self.job_type@,
            status: self.status,
            tags: match self.tags {
                Some(list) => Some(texts(list@)),
                None => None,
            },
            created_at: self.created_at,
            worker: self.worker,
        }
    }
}

/// Copies a list of strings.
pub fn copy_texts(items: &Vec<String>) -> (out: Vec<String>)
    ensures
        texts(out@) == texts(items@),
{
    let mut out: Vec<String> = Vec::new();
    let mut i: usize = 0;
    while i < items.len()
        invariant
            i <= items.len(),
            out.len() == i,
            forall|k: int| 0 <= k < i ==> out@[k]@ == items@[k]@,
        decreases items.len() - i,
    {
        out.push(items[i].clone());
        i += 1;
    }
    proof {
        assert(texts(out@) =~= texts(items@));
    }
    out
}

impl JobRecord {
    /// A copy that reads the same in every field.
    pub fn duplicate(&self) -> (out: JobRecord)
        ensures
            out@ == self@,
    {
        let tags = match &self.tags {
            Some(list) => Some(copy_texts(list)),
            None => None,
        };
        JobRecord {
            id: self.id.clone(),
            body: self.body.clone(),
            job_type: self.job_type.clone(),
            status: self.status,
            tags,
            created_at: self.created_at,
            worker: self.worker,
        }
    }
}

/// Why the table refused a row.
#[derive(Clone, Copy, Debug, PartialEq, Eq, Structural)]
pub enum StoreError {
    /// A row with that id is already there.
    DuplicateId,
}

/// One line of the histogram of tags.
#[derive(Clone, Debug)]
pub struct TagCount {
    pub tag: String,
    pub count: u64,
}

/// No two rows share an id, and arrival times never go down along the rows.
pub open spec fn table_wf(jobs: Seq<JobView>) -> bool {
    &&& forall|i: int, j: int| 0 <= i < j < jobs.len() ==> jobs[i].id != jobs[j].id
    &&& forall|i: int, j: int| 0 <= i <= j < jobs.len() ==> jobs[i].created_at <= jobs[j].created_at
}

/// Some row carries `id`.
pub open spec fn has_id(jobs: Seq<JobView>, id: Seq<char>) -> bool {
    exists|i: int| 0 <= i < jobs.len() && jobs[i].id == id
}

/// The row that carries `id`, for a table that has one.
pub open spec fn row_of(jobs: Seq<JobView>, id: Seq<char>) -> int {
    choose|i: int| 0 <= i < jobs.len() && jobs[i].id == id
}

/// The arrival time that a row inserted at `now` gets: `now`, unless the
/// last row arrived later, so that the order of rows stays the order of time.
pub open spec fn arrival(jobs: Seq<JobView>, now: u64) -> u64 {
    if jobs.len() > 0 && jobs.last().created_at > now {
        jobs.last().created_at
    } else {
        now
    }
}

/// Whether a job waits to be placed.
pub open spec fn is_pending(job: JobView) -> bool {
    job.status == JobStatus::Pending
}

/// The pending rows, oldest first.
pub open spec fn pending_of(jobs: Seq<JobView>) -> Seq<JobView> {
    jobs.filter(|job: JobView| is_pending(job))
}

/// How often `tag` stands in a list of tags.
pub open spec fn count_in(tags: Seq<Seq<char>>, tag: Seq<char>) -> nat
    decreases tags.len(),
{
    if tags.len() == 0 {
        0
    } else {
        count_in(tags.drop_last(), tag) + if tags.last() == tag {
            1nat
        } else {
            0nat
        }
    }
}

/// How often `tag` stands on one job, counted only while the job is pending.
pub open spec fn job_occurrences(job: JobView, tag: Seq<char>) -> nat {
    match job.tags {
        Some(tags) if is_pending(job) => count_in(tags, tag),
        _ => 0,
    }
}

/// How often `tag` stands on the pending jobs of a table.
pub open spec fn occurrences(jobs: Seq<JobView>, tag: Seq<char>) -> nat
    decreases jobs.len(),
{
    if jobs.len() == 0 {
        0
    } else {
        occurrences(jobs.drop_last(), tag) + job_occurrences(jobs.last(), tag)
    }
}

/// A count as a histogram can hold it: the count itself, or the largest
/// number that fits where the count is larger.
pub open spec fn capped(n: nat) -> u64 {
    if n > u64::MAX {
        u64::MAX
    } else {
        n as u64
    }
}

/// Some line of the histogram is for `tag`.
pub open spec fn has_line(lines: Seq<TagCount>, tag: Seq<char>) -> bool {
    exists|k: int| 0 <= k < lines.len() && lines[k].tag@ == tag
}

/// The line of the histogram that is for `tag`, where there is one.
pub open spec fn line_of(lines: Seq<TagCount>, tag: Seq<char>) -> int {
    choose|k: int| 0 <= k < lines.len() && lines[k].tag@ == tag
}

/// The count that a histogram holds for `tag`: zero where it has no line
/// for it.
pub open spec fn tally(lines: Seq<TagCount>, tag: Seq<char>) -> u64 {
    if has_line(lines, tag) {
        lines[line_of(lines, tag)].count
    } else {
        0
    }
}

/// One more than `n`, as far as the type goes.
pub open spec fn one_more(n: u64) -> u64 {
    if n < u64::MAX {
        (n + 1) as u64
    } else {
        n
    }
}

/// No tag has two lines.
pub open spec fn distinct_tags(lines: Seq<TagCount>) -> bool {
    forall|i: int, j: int| 0 <= i < j < lines.len() ==> lines[i].tag@ != lines[j].tag@
}

/// Counts one more occurrence of `tag` in a histogram.
pub fn count_tag(lines: &mut Vec<TagCount>, tag: &str)
    requires
        distinct_tags(old(lines)@),
    ensures
        distinct_tags(final(lines)@),
        forall|other: Seq<char>|
            #[trigger] tally(final(lines)@, other) == if other == tag@ {
                one_more(tally(old(lines)@, other))
            } else {
                tally(old(lines)@, other)
            },
        forall|other: Seq<char>|
            #[trigger] has_line(final(lines)@, other) == (other == tag@ || has_line(
                old(lines)@,
                other,
            )),
{
    let mut k: usize = 0;
    while k < lines.len()
        invariant
            k <= lines.len(),
            lines@ == old(lines)@,
            distinct_tags(lines@),
            forall|j: int| 0 <= j < k ==> lines@[j].tag@ != tag@,
        decreases lines.len() - k,
    {
        if same_text(lines[k].tag.as_str(), tag) {
            let count = lines[k].count;
            if count < u64::MAX {
                lines[k].count = count + 1;
            }
            proof {
                let before = old(lines)@;
                let after = lines@;
                assert(after.len() == before.len());
                assert forall|j: int| 0 <= j < after.len() implies #[trigger] after[j].tag@
                    == before[j].tag@ by {}
                assert forall|a: int, b: int| 0 <= a < b < after.len() implies after[a].tag@
                    != after[b].tag@ by {
                    assert(before[a].tag@ != before[b].tag@);
                }
                assert forall|other: Seq<char>| #[trigger]
                    has_line(after, other) == (other == tag@ || has_line(before, other)) by {
                    if has_line(after, other) {
                        let j = line_of(after, other);
                        assert(before[j].tag@ == other);
                    }
                    if has_line(before, other) {
                        let j = line_of(before, other);
                        assert(after[j].tag@ == other);
                    }
                    if other == tag@ {
                        assert(after[k as int].tag@ == other);
                    }
                }
                assert forall|other: Seq<char>| #[trigger]
                    tally(after, other) == if other == tag@ {
                        one_more(tally(before, other))
                    } else {
                        tally(before, other)
                    } by {
                    if has_line(before, other) {
                        let jb = line_of(before, other);
                        assert(after[jb].tag@ == other);
                        let ja = line_of(after, other);
                        assert(ja == jb) by {
                            if ja < jb {
                                assert(after[ja].tag@ != after[jb].tag@);
                            } else if jb < ja {
                                assert(after[jb].tag@ != after[ja].tag@);
                            }
                        }
                        if other == tag@ {
                            assert(jb == k) by {
                                if jb < k {
                                    assert(before[jb].tag@ != before[k as int].tag@);
                                } else if k < jb {
                                    assert(before[k as int].tag@ != before[jb].tag@);
                                }
                            }
                        } else {
                            assert(jb != k);
                        }
                    } else {
                        assert(before[k as int].tag@ == tag@);
                    }
                }
            }
            return ;
        }
        k += 1;
    }
    lines.push(TagCount { tag: tag.to_owned(), count: 1 });
    proof {
        let before = old(lines)@;
        let after = lines@;
        let n = before.len() as int;
        assert(after[n].tag@ == tag@);
        assert forall|j: int| 0 <= j < n implies #[trigger] after[j] == before[j] by {}
        assert forall|a: int, b: int| 0 <= a < b < after.len() implies after[a].tag@
            != after[b].tag@ by {
            if b < n {
                assert(before[a].tag@ != before[b].tag@);
            }
        }
        assert forall|other: Seq<char>| #[trigger]
            has_line(after, other) == (other == tag@ || has_line(before, other)) by {
            if has_line(after, other) {
                let j = line_of(after, other);
                if j < n {
                    assert(before[j].tag@ == other);
                }
            }
            if has_line(before, other) {
                let j = line_of(before, other);
                assert(after[j].tag@ == other);
            }
        }
        assert forall|other: Seq<char>| #[trigger]
            tally(after, other) == if other == tag@ {
                one_more(tally(before, other))
            } else {
                tally(before, other)
            } by {
            if other == tag@ {
                assert(!has_line(before, other)) by {
                    if has_line(before, other) {
                        let j = line_of(before, other);
                        assert(before[j].tag@ != tag@);
                    }
                }
                let ja = line_of(after, other);
                assert(ja == n) by {
                    if ja < n {
                        assert(after[ja].tag@ != after[n].tag@);
                    }
                }
            } else if has_line(before, other) {
                let jb = line_of(before, other);
                assert(after[jb].tag@ == other);
                let ja = line_of(after, other);
                assert(ja == jb) by {
                    if ja < jb {
                        assert(after[ja].tag@ != after[jb].tag@);
                    } else if jb < ja {
                        assert(after[jb].tag@ != after[ja].tag@);
                    }
                }
            }
        }
    }
}

/// The job table.
pub struct JobStore {
    rows: Vec<JobRecord>,
}

impl View for JobStore {
    type V = Seq<JobView>;

    closed spec fn view(&self) -> Seq<JobView> {
        Seq::new(self.rows@.len(), |i: int| self.rows@[i]@)
    }
}

impl JobStore {
    /// The table keeps ids apart and rows in order of arrival.
    pub open spec fn wf(&self) -> bool {
        table_wf(self@)
    }

    /// An empty table.
    pub fn new() -> (out: JobStore)
        ensures
            out@ == Seq::<JobView>::empty(),
            out.wf(),
    {
        let out = JobStore { rows: Vec::new() };
        proof {
            assert(out@ =~= Seq::<JobView>::empty());
        }
        out
    }

    /// A table of rows that were kept elsewhere, as they were. The rows are
    /// refused where two share an id or where they are not in order of
    /// arrival.
    pub fn restore(rows: Vec<JobRecord>) -> (out: Option<JobStore>)
        ensures
            match out {
                Some(store) => store.wf() && store@ == Seq::new(
                    rows@.len(),
                    |i: int| rows@[i]@,
                ),
                None => !table_wf(Seq::new(rows@.len(), |i: int| rows@[i]@)),
            },
    {
        let ghost jobs = Seq::new(rows@.len(), |i: int| rows@[i]@);
        let mut i: usize = 0;
        while i < rows.len()
            invariant
                i <= rows.len(),
                jobs == Seq::new(rows@.len(), |i: int| rows@[i]@),
                forall|a: int, b: int| 0 <= a < b < i ==> jobs[a].id != jobs[b].id,
                forall|a: int, b: int| 0 <= a <= b < i ==> jobs[a].created_at <= jobs[b].created_at,
            decreases rows.len() - i,
        {
            if i > 0 && rows[i - 1].created_at > rows[i].created_at {
                proof {
                    assert(jobs[i - 1].created_at > jobs[i as int].created_at);
                }
                return None;
            }
            let mut k: usize = 0;
            while k < i
                invariant
                    k <= i < rows.len(),
                    jobs == Seq::new(rows@.len(), |i: int| rows@[i]@),
                    forall|a: int| 0 <= a < k ==> jobs[a].id != jobs[i as int].id,
                decreases i - k,
            {
                if same_text(rows[k].id.as_str(), rows[i].id.as_str()) {
                    proof {
                        assert(jobs[k as int].id == jobs[i as int].id);
                    }
                    return None;
                }
                k += 1;
            }
            proof {
                assert forall|a: int, b: int| 0 <= a <= b < i + 1 implies jobs[a].created_at
                    <= jobs[b].created_at by {
                    if b == i && a < i {
                        assert(jobs[a].created_at <= jobs[i - 1].created_at);
                    }
                }
            }
            i += 1;
        }
        let store = JobStore { rows };
        proof {
            assert(store@ =~= jobs);
        }
        Some(store)
    }

    /// The number of rows.
    pub fn len(&self) -> (n: usize)
        ensures
            n == self@.len(),
    {
        self.rows.len()
    }

    /// A copy of row `at`.
    pub fn get(&self, at: usize) -> (out: JobRecord)
        requires
            at < self@.len(),
        ensures
            out@ == self@[at as int],
    {
        self.rows[at].duplicate()
    }

    /// The status of row `at`.
    pub fn status_at(&self, at: usize) -> (out: JobStatus)
        requires
            at < self@.len(),
        ensures
            out == self@[at as int].status,
    {
        self.rows[at].status
    }

    /// The index of the first row that carries `id`.
    pub fn position(&self, id: &str) -> (out: Option<usize>)
        ensures
            match out {
                Some(at) => at < self@.len() && self@[at as int].id == id@ && forall|k: int|
                    0 <= k < at ==> self@[k].id != id@,
                None => !has_id(self@, id@),
            },
    {
        let mut i: usize = 0;
        while i < self.rows.len()
            invariant
                i <= self.rows.len(),
                forall|k: int| 0 <= k < i ==> self@[k].id != id@,
            decreases self.rows.len() - i,
        {
            if same_text(self.rows[i].id.as_str(), id) {
                return Some(i);
            }
            i += 1;
        }
        None
    }

    /// A copy of the row that carries `id`.
    pub fn find(&self, id: &str) -> (out: Option<JobRecord>)
        ensures
            match out {
                Some(job) => has_id(self@, id@) && job.id@ == id@ && exists|k: int|
                    0 <= k < self@.len() && self@[k] == job@,
                None => !has_id(self@, id@),
            },
    {
        match self.position(id) {
            Some(at) => Some(self.get(at)),
            None => None,
        }
    }

    /// Adds a pending job at the end of the table. A job whose id is taken
    /// is refused and the table stays as it was. The arrival time is `now`,
    /// or that of the last row where the clock has gone back.
    pub fn insert(
        &mut self,
        id: String,
        body: String,
        job_type: String,
        tags: Option<Vec<String>>,
        now: u64,
    ) -> (out: Result<u64, StoreError>)
        requires
            old(self).wf(),
        ensures
            final(self).wf(),
            match out {
                Ok(at) => {
                    &&& !has_id(old(self)@, id@)
                    &&& at == arrival(old(self)@, now)
                    &&& final(self)@ == old(self)@.push(
                        (JobView {
                            id: id@,
                            body: body@,
                            job_type: job_type@,
                            status: JobStatus::Pending,
                            tags: match tags {
                                Some(list) => Some(texts(list@)),
                                None => None,
                            },
                            created_at: at,
                            worker: None,
                        }),
                    )
                },
                Err(e) => {
                    &&& e == StoreError::DuplicateId
                    &&& has_id(old(self)@, id@)
                    &&& final(self)@ == old(self)@
                },
            },
    {
        if self.position(id.as_str()).is_some() {
            return Err(StoreError::DuplicateId);
        }
        let n = self.rows.len();
        let at = if n > 0 && self.rows[n - 1].created_at > now {
            self.rows[n - 1].created_at
        } else {
            now
        };
        let row = JobRecord {
            id,
            body,
            job_type,
            status: JobStatus::Pending,
            tags,
            created_at: at,
            worker: None,
        };
        self.rows.push(row);
        proof {
            assert(self@ =~= old(self)@.push(row@));
            assert forall|i: int, j: int| 0 <= i < j < self@.len() implies self@[i].id
                != self@[j].id by {
                if j == n {
                    assert(old(self)@[i].id != row@.id);
                }
            }
            assert forall|i: int, j: int| 0 <= i <= j < self@.len() implies self@[i].created_at
                <= self@[j].created_at by {
                if j == n && i < n {
                    assert(old(self)@[i].created_at <= old(self)@[n - 1].created_at);
                }
            }
        }
        Ok(at)
    }

    /// Copies of the pending rows, oldest first.
    pub fn list_pending(&self) -> (out: Vec<JobRecord>)
        ensures
            Seq::new(out@.len(), |i: int| out@[i]@) == pending_of(self@),
    {
        let mut out: Vec<JobRecord> = Vec::new();
        let ghost pred = |job: JobView| is_pending(job);
        let mut i: usize = 0;
        proof {
            assert(self@.take(0) =~= Seq::<JobView>::empty());
            assert(Seq::new(out@.len(), |i: int| out@[i]@) =~= self@.take(0).filter(pred));
        }
        while i < self.rows.len()
            invariant
                i <= self.rows.len(),
                pred == |job: JobView| is_pending(job),
                Seq::new(out@.len(), |i: int| out@[i]@) == self@.take(i as int).filter(pred),
            decreases self.rows.len() - i,
        {
            let ghost before = Seq::new(out@.len(), |i: int| out@[i]@);
            proof {
                assert(self@.take(i + 1) =~= self@.take(i as int).push(self@[i as int]));
                self@.take(i as int).lemma_filter_push(self@[i as int], pred);
            }
            if self.rows[i].status == JobStatus::Pending {
                out.push(self.rows[i].duplicate());
                proof {
                    assert(Seq::new(out@.len(), |i: int| out@[i]@) =~= before.push(
                        self@[i as int],
                    ));
                }
            }
            i += 1;
        }
        proof {
            assert(self@.take(i as int) =~= self@);
        }
        out
    }

    /// Moves the job `id` to `to`, where the table has the job and the path
    /// of a job allows the step. Says whether it did; otherwise nothing
    /// changes.
    pub fn advance(&mut self, id: &str, to: JobStatus) -> (won: bool)
        requires
            old(self).wf(),
        ensures
            final(self).wf(),
            won == (has_id(old(self)@, id@) && old(self)@[row_of(
                old(self)@,
                id@,
            )].status.can_step_to(to)),
            won ==> final(self)@ == old(self)@.update(
                row_of(old(self)@, id@),
                (JobView { status: to, ..old(self)@[row_of(old(self)@, id@)] }),
            ),
            !won ==> final(self)@ == old(self)@,
    {
        match self.position(id) {
            None => false,
            Some(at) => {
                proof {
                    let r = row_of(self@, id@);
                    assert(self@[at as int].id == id@);
                    assert(r == at) by {
                        if r < at {
                            assert(self@[r].id != self@[at as int].id);
                        } else if at < r {
                            assert(self@[at as int].id != self@[r].id);
                        }
                    }
                }
                if self.rows[at].status.may_step_to(to) {
                    self.rows[at].status = to;
                    proof {
                        assert(self@ =~= old(self)@.update(
                            at as int,
                            (JobView { status: to, ..old(self)@[at as int] }),
                        ));
                    }
                    true
                } else {
                    false
                }
            },
        }
    }

    /// Hands the pending job `id` to the session `worker`: the job becomes
    /// processing and remembers the session. Says whether the job was there
    /// and pending; otherwise nothing changes.
    pub fn assign(&mut self, id: &str, worker: u64) -> (won: bool)
        requires
            old(self).wf(),
        ensures
            final(self).wf(),
            won == (has_id(old(self)@, id@) && is_pending(old(self)@[row_of(old(self)@, id@)])),
            won ==> final(self)@ == old(self)@.update(
                row_of(old(self)@, id@),
                (JobView {
                    status: JobStatus::Processing,
                    worker: Some(worker),
                    ..old(self)@[row_of(old(self)@, id@)]
                }),
            ),
            !won ==> final(self)@ == old(self)@,
    {
        match self.position(id) {
            None => false,
            Some(at) => {
                proof {
                    let r = row_of(self@, id@);
                    assert(self@[at as int].id == id@);
                    assert(r == at) by {
                        if r < at {
                            assert(self@[r].id != self@[at as int].id);
                        } else if at < r {
                            assert(self@[at as int].id != self@[r].id);
                        }
                    }
                }
                if self.rows[at].status == JobStatus::Pending {
                    self.rows[at].status = JobStatus::Processing;
                    self.rows[at].worker = Some(worker);
                    proof {
                        assert(self@ =~= old(self)@.update(
                            at as int,
                            (JobView {
                                status: JobStatus::Processing,
                                worker: Some(worker),
                                ..old(self)@[at as int]
                            }),
                        ));
                    }
                    true
                } else {
                    false
                }
            },
        }
    }

    /// The histogram of the tags of the pending jobs: one line for each tag
    /// that stands on a pending job, with the number of times it stands
    /// there.
    pub fn pending_tag_counts(&self) -> (out: Vec<TagCount>)
        ensures
            distinct_tags(out@),
            forall|tag: Seq<char>| #[trigger] tally(out@, tag) == capped(occurrences(self@, tag)),
            forall|tag: Seq<char>| #[trigger] has_line(out@, tag) == (occurrences(self@, tag) > 0),
    {
        let mut out: Vec<TagCount> = Vec::new();
        let mut i: usize = 0;
        proof {
            assert(self@.take(0) =~= Seq::<JobView>::empty());
        }
        while i < self.rows.len()
            invariant
                i <= self.rows.len(),
                distinct_tags(out@),
                forall|tag: Seq<char>| #[trigger]
                    tally(out@, tag) == capped(occurrences(self@.take(i as int), tag)),
                forall|tag: Seq<char>| #[trigger]
                    has_line(out@, tag) == (occurrences(self@.take(i as int), tag) > 0),
            decreases self.rows.len() - i,
        {
            let ghost done = self@.take(i as int);
            let ghost job = self@[i as int];
            proof {
                assert(self@.take(i + 1).drop_last() =~= done);
                assert(self@.take(i + 1).last() == job);
            }
            if self.rows[i].status == JobStatus::Pending {
                if let Some(list) = &self.rows[i].tags {
                    let ghost tags = texts(list@);
                    let mut j: usize = 0;
                    proof {
                        assert(tags.take(0) =~= Seq::<Seq<char>>::empty());
                    }
                    while j < list.len()
                        invariant
                            j <= list.len(),
                            tags == texts(list@),
                            distinct_tags(out@),
                            forall|tag: Seq<char>| #[trigger]
                                tally(out@, tag) == capped(
                                    occurrences(done, tag) + count_in(tags.take(j as int), tag),
                                ),
                            forall|tag: Seq<char>| #[trigger]
                                has_line(out@, tag) == (occurrences(done, tag) + count_in(
                                    tags.take(j as int),
                                    tag,
                                ) > 0),
                        decreases list.len() - j,
                    {
                        proof {
                            assert(tags.take(j + 1).drop_last() =~= tags.take(j as int));
                            assert(tags.take(j + 1).last() == list@[j as int]@);
                        }
                        count_tag(&mut out, list[j].as_str());
                        j += 1;
                    }
                    proof {
                        assert(tags.take(j as int) =~= tags);
                    }
                }
            }
            i += 1;
        }
        proof {
            assert(self@.take(i as int) =~= self@);
        }
        out
    }
}

} // verus!
