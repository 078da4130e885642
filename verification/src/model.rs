//! The coordinator as a state and the steps that change it.
//!
//! Everything here is mathematics: the state of the coordinator as a value,
//! each of its steps as a function from state to state, and what holds of
//! every state that the steps can reach.

use crate::event::{event_frame, EventView};
use crate::frames::{kind_of, FrameKind};
use crate::intake::{request_of, target_of, RequestView};
use crate::registry::{
    can_accept, eligible, fan_out, first_eligible, fresh_session, has_handle, is_worker_name,
    lemma_first_eligible, lemma_first_eligible_is, offered, place_of,
    registry_wf, session_wf, PolicyView, RegistryView, SessionView, Slot,
};
use crate::status::{JobStatus, WorkerStatus};
use crate::store::{arrival, has_id, is_pending, row_of, table_wf, JobView};
use vstd::prelude::*;

verus! {

/// The state of the coordinator: the job table, and the sessions in the
/// order in which they connected.
pub struct CoordinatorView {
    pub jobs: Seq<JobView>,
    pub sessions: Seq<SessionView>,
    pub next_handle: u64,
}

/// Whether a job is being worked on by the session that bears `handle`.
pub open spec fn in_flight_on(job: JobView, handle: u64) -> bool {
    job.status == JobStatus::Processing && job.worker == Some(handle)
}

/// Whether the job that session `s` says it works on is in the table, and
/// is there in flight on that session.
pub open spec fn holds_job(c: CoordinatorView, s: int) -> bool {
    exists|k: int|
        0 <= k < c.jobs.len() && Some(c.jobs[k].id) == c.sessions[s].current_job && in_flight_on(
            #[trigger] c.jobs[k],
            c.sessions[s].handle,
        )
}

/// The table and the registry are each in order, and they agree: a session
/// works on a job exactly where the table has that job in flight on that
/// session, and no two jobs are in flight on one session.
pub open spec fn system_wf(c: CoordinatorView) -> bool {
    &&& table_wf(c.jobs)
    &&& registry_wf(RegistryView { sessions: c.sessions, next_handle: c.next_handle })
    &&& forall|s: int|
        0 <= s < c.sessions.len() && (#[trigger] c.sessions[s]).current_job is Some ==> holds_job(
            c,
            s,
        )
    &&& forall|k: int, s: int|
        0 <= k < c.jobs.len() && 0 <= s < c.sessions.len() && in_flight_on(
            #[trigger] c.jobs[k],
            (#[trigger] c.sessions[s]).handle,
        ) ==> c.sessions[s].current_job == Some(c.jobs[k].id)
    &&& forall|k: int|
        0 <= k < c.jobs.len() && (#[trigger] c.jobs[k]).worker is Some ==> c.jobs[k].worker->0
            < c.next_handle
    &&& forall|i: int, j: int|
        0 <= i < j < c.jobs.len() && (#[trigger] c.jobs[i]).status == JobStatus::Processing && (
        #[trigger] c.jobs[j]).status == JobStatus::Processing && c.jobs[i].worker is Some
            ==> c.jobs[i].worker != c.jobs[j].worker
}

/// The event that tells of a job that was accepted.
pub open spec fn pending_event(id: Seq<char>, tags: Option<Seq<Seq<char>>>, now: u64) -> EventView {
    EventView {
        id,
        status: JobStatus::Pending,
        message: "New Job Submitted: "@ + id,
        timestamp: now,
        tags,
    }
}

/// The event that tells of a job that was handed to a worker.
pub open spec fn processing_event(job: JobView, worker: Seq<char>, now: u64) -> EventView {
    EventView {
        id: job.id,
        status: JobStatus::Processing,
        message: "Job picked up by "@ + worker,
        timestamp: now,
        tags: job.tags,
    }
}

/// The event that tells of a job that its worker reported done.
pub open spec fn completed_event(job: JobView, worker: Seq<char>, now: u64) -> EventView {
    EventView {
        id: job.id,
        status: JobStatus::Completed,
        message: "Job completed by "@ + worker,
        timestamp: now,
        tags: job.tags,
    }
}

/// The sessions after an event was offered to every observer. An event
/// that cannot be written as a frame reaches nobody.
pub open spec fn announce(sessions: Seq<SessionView>, e: EventView) -> Seq<SessionView> {
    match event_frame(e) {
        Some(frame) => fan_out(sessions, frame),
        None => sessions,
    }
}

/// Whether a job for `target` finds no taker at `slot`: no session is
/// eligible, or the first eligible one has a queue that takes no frame.
pub open spec fn blocked(sessions: Seq<SessionView>, target: Option<Seq<char>>, slot: Slot) -> bool {
    match first_eligible(sessions, target, slot) {
        Some(w) => !can_accept(sessions[w]),
        None => true,
    }
}

/// The place of the session that job `k` goes to at `slot`, where the job
/// is pending and finds a taker.
pub open spec fn placement(c: CoordinatorView, k: int, slot: Slot) -> Option<int> {
    if 0 <= k < c.jobs.len() && is_pending(c.jobs[k]) {
        match first_eligible(c.sessions, target_of(c.jobs[k].body), slot) {
            Some(w) => if can_accept(c.sessions[w]) {
                Some(w)
            } else {
                None
            },
            None => None,
        }
    } else {
        None
    }
}

/// A job as it is once it was handed to the session that bears `handle`.
pub open spec fn handed(job: JobView, handle: u64) -> JobView {
    JobView { status: JobStatus::Processing, worker: Some(handle), ..job }
}

/// A session as it is once it was given `job`: busy with it, and with the
/// text of the job at the end of its queue.
pub open spec fn charged(s: SessionView, job: JobView) -> SessionView {
    SessionView {
        status: WorkerStatus::Busy,
        current_job: Some(job.id),
        outbound: s.outbound.push(job.body),
        ..s
    }
}

/// The state after job `k` was handed to session `w` at time `now`: the
/// job is processing on that session, the session is busy and has the text
/// of the job in its queue, and the observers were told.
pub open spec fn placed_on(c: CoordinatorView, k: int, w: int, now: u64) -> CoordinatorView {
    CoordinatorView {
        jobs: c.jobs.update(k, handed(c.jobs[k], c.sessions[w].handle)),
        sessions: announce(
            c.sessions.update(w, charged(c.sessions[w], c.jobs[k])),
            processing_event(c.jobs[k], c.sessions[w].name, now),
        ),
        next_handle: c.next_handle,
    }
}

/// One step of the dispatcher: job `k` is handed to its taker, or, where
/// it is not pending or finds none, nothing changes.
pub open spec fn place(c: CoordinatorView, k: int, slot: Slot, now: u64) -> CoordinatorView {
    match placement(c, k, slot) {
        Some(w) => placed_on(c, k, w, now),
        None => c,
    }
}

/// The state after the dispatcher has gone through the first `upto` jobs
/// of the table, oldest first.
pub open spec fn swept(c: CoordinatorView, slot: Slot, now: u64, upto: nat) -> CoordinatorView
    decreases upto,
{
    if upto == 0 {
        c
    } else {
        place(swept(c, slot, now, (upto - 1) as nat), upto - 1, slot, now)
    }
}

/// One sweep of the dispatcher over the whole table.
pub open spec fn dispatched(c: CoordinatorView, slot: Slot, now: u64) -> CoordinatorView {
    swept(c, slot, now, c.jobs.len())
}

/// What the dispatcher tells of a job that it has placed.
pub struct AssignmentView {
    pub job_id: Seq<char>,
    pub worker: u64,
    pub worker_name: Seq<char>,
}

/// What one step of the dispatcher tells: the job and its taker, where it
/// placed the job.
pub open spec fn told(c: CoordinatorView, k: int, slot: Slot) -> Option<AssignmentView> {
    match placement(c, k, slot) {
        Some(w) => Some(
            AssignmentView {
                job_id: c.jobs[k].id,
                worker: c.sessions[w].handle,
                worker_name: c.sessions[w].name,
            },
        ),
        None => None,
    }
}

/// What the dispatcher tells while it goes through the first `upto` jobs:
/// the placements that it makes, in the order in which it makes them.
pub open spec fn sweep_log(c: CoordinatorView, slot: Slot, now: u64, upto: nat) -> Seq<
    AssignmentView,
>
    decreases upto,
{
    if upto == 0 {
        Seq::empty()
    } else {
        let before = sweep_log(c, slot, now, (upto - 1) as nat);
        match told(swept(c, slot, now, (upto - 1) as nat), upto - 1, slot) {
            Some(a) => before.push(a),
            None => before,
        }
    }
}

/// Two jobs are the same job, perhaps at different points of its life.
pub open spec fn same_job(a: JobView, b: JobView) -> bool {
    &&& a.id == b.id
    &&& a.body == b.body
    &&& a.job_type == b.job_type
    &&& a.tags == b.tags
    &&& a.created_at == b.created_at
}

/// The table `after` holds every job of `before` at its place, each as
/// it was or one step further on its path, and after them only new pending
/// jobs.
pub open spec fn jobs_move_on(before: Seq<JobView>, after: Seq<JobView>) -> bool {
    &&& before.len() <= after.len()
    &&& forall|k: int|
        0 <= k < before.len() ==> same_job(before[k], #[trigger] after[k]) && (before[k].status
            == after[k].status || before[k].status.can_step_to(after[k].status))
    &&& forall|k: int| before.len() <= k < after.len() ==> is_pending(#[trigger] after[k])
}

/// Offering a frame to the observers changes nothing but queues of
/// observers, and those only by one frame at the end.
pub proof fn lemma_fan_out(sessions: Seq<SessionView>, frame: Seq<char>)
    ensures
        fan_out(sessions, frame).len() == sessions.len(),
        forall|i: int|
            0 <= i < sessions.len() ==> {
                let a = sessions[i];
                let b = #[trigger] fan_out(sessions, frame)[i];
                &&& b.handle == a.handle
                &&& b.name == a.name
                &&& b.status == a.status
                &&& b.policy == a.policy
                &&& b.closed == a.closed
                &&& b.current_job == a.current_job
                &&& (is_worker_name(a.name) ==> b == a)
                &&& (session_wf(a) ==> session_wf(b))
                &&& (can_accept(b) ==> can_accept(a))
            },
{
}

/// Telling the observers of an event changes nothing but queues of
/// observers.
pub proof fn lemma_announce(sessions: Seq<SessionView>, e: EventView)
    ensures
        announce(sessions, e).len() == sessions.len(),
        forall|i: int|
            0 <= i < sessions.len() ==> {
                let a = sessions[i];
                let b = #[trigger] announce(sessions, e)[i];
                &&& b.handle == a.handle
                &&& b.name == a.name
                &&& b.status == a.status
                &&& b.policy == a.policy
                &&& b.closed == a.closed
                &&& b.current_job == a.current_job
                &&& (is_worker_name(a.name) ==> b == a)
                &&& (session_wf(a) ==> session_wf(b))
                &&& (can_accept(b) ==> can_accept(a))
            },
{
    match event_frame(e) {
        Some(frame) => lemma_fan_out(sessions, frame),
        None => {},
    }
}

/// A placement goes to a session that is eligible for the job, first among
/// those that are, and whose queue takes the frame.
pub proof fn lemma_placement(c: CoordinatorView, k: int, slot: Slot)
    ensures
        match placement(c, k, slot) {
            Some(w) => {
                &&& 0 <= k < c.jobs.len()
                &&& is_pending(c.jobs[k])
                &&& 0 <= w < c.sessions.len()
                &&& eligible(c.sessions[w], target_of(c.jobs[k].body), slot)
                &&& can_accept(c.sessions[w])
                &&& forall|j: int|
                    0 <= j < w ==> !eligible(
                        #[trigger] c.sessions[j],
                        target_of(c.jobs[k].body),
                        slot,
                    )
            },
            None => 0 <= k < c.jobs.len() && is_pending(c.jobs[k]) ==> blocked(
                c.sessions,
                target_of(c.jobs[k].body),
                slot,
            ),
        },
{
    if 0 <= k < c.jobs.len() {
        lemma_first_eligible(c.sessions, target_of(c.jobs[k].body), slot);
    }
}

/// What one step of the dispatcher leaves as it was: the number of jobs
/// and of sessions, every job but the one it placed, and of every session
/// all but the queue and, for the taker, its being busy with the job.
pub proof fn lemma_place_shape(c: CoordinatorView, k: int, slot: Slot, now: u64)
    ensures
        place(c, k, slot, now).jobs.len() == c.jobs.len(),
        place(c, k, slot, now).sessions.len() == c.sessions.len(),
        place(c, k, slot, now).next_handle == c.next_handle,
        forall|i: int|
            0 <= i < c.jobs.len() && !(i == k && placement(c, k, slot) is Some) ==> #[trigger] place(
                c,
                k,
                slot,
                now,
            ).jobs[i] == c.jobs[i],
        placement(c, k, slot) matches Some(w) ==> place(c, k, slot, now).jobs[k] == handed(
            c.jobs[k],
            c.sessions[w].handle,
        ),
        forall|i: int|
            0 <= i < c.sessions.len() ==> {
                let a = c.sessions[i];
                let b = #[trigger] place(c, k, slot, now).sessions[i];
                &&& b.handle == a.handle
                &&& b.name == a.name
                &&& b.policy == a.policy
                &&& b.closed == a.closed
                &&& (placement(c, k, slot) != Some(i) ==> b.status == a.status && b.current_job
                    == a.current_job && (can_accept(b) ==> can_accept(a)) && (is_worker_name(a.name)
                    ==> b == a))
                &&& (placement(c, k, slot) == Some(i) ==> b == charged(a, c.jobs[k]))
                &&& (session_wf(a) ==> session_wf(b))
            },
{
    lemma_placement(c, k, slot);
    match placement(c, k, slot) {
        Some(w) => {
            let mid = c.sessions.update(w, charged(c.sessions[w], c.jobs[k]));
            let e = processing_event(c.jobs[k], c.sessions[w].name, now);
            lemma_announce(mid, e);
            let d = place(c, k, slot, now);
            assert(d.sessions == announce(mid, e));
            assert forall|i: int| 0 <= i < c.sessions.len() implies {
                let a = c.sessions[i];
                let b = #[trigger] d.sessions[i];
                &&& b.handle == a.handle
                &&& b.name == a.name
                &&& b.policy == a.policy
                &&& b.closed == a.closed
                &&& (placement(c, k, slot) != Some(i) ==> b.status == a.status && b.current_job
                    == a.current_job && (can_accept(b) ==> can_accept(a)) && (is_worker_name(a.name)
                    ==> b == a))
                &&& (placement(c, k, slot) == Some(i) ==> b == charged(a, c.jobs[k]))
                &&& (session_wf(a) ==> session_wf(b))
            } by {
                let m = mid[i];
                assert(announce(mid, e)[i].handle == m.handle);
                if i == w {
                    assert(is_worker_name(m.name));
                }
            }
        },
        None => {},
    }
}

/// What a sweep over the first `upto` jobs leaves as it was: the number of
/// jobs and of sessions, the jobs that it has not come to, and of every job
/// all but its status and its worker. A job that it changes goes from
/// pending to processing.
pub proof fn lemma_swept_shape(c: CoordinatorView, slot: Slot, now: u64, upto: nat)
    requires
        upto <= c.jobs.len(),
    ensures
        swept(c, slot, now, upto).jobs.len() == c.jobs.len(),
        swept(c, slot, now, upto).sessions.len() == c.sessions.len(),
        swept(c, slot, now, upto).next_handle == c.next_handle,
        forall|k: int| upto <= k < c.jobs.len() ==> #[trigger] swept(c, slot, now, upto).jobs[k] == c.jobs[k],
        forall|k: int|
            0 <= k < c.jobs.len() ==> {
                let a = c.jobs[k];
                let b = #[trigger] swept(c, slot, now, upto).jobs[k];
                &&& same_job(a, b)
                &&& (b == a || (is_pending(a) && b.status == JobStatus::Processing))
            },
        forall|i: int|
            0 <= i < c.sessions.len() ==> {
                let a = c.sessions[i];
                let b = #[trigger] swept(c, slot, now, upto).sessions[i];
                &&& b.handle == a.handle
                &&& b.name == a.name
                &&& b.policy == a.policy
                &&& b.closed == a.closed
                &&& (b.status == WorkerStatus::Idle ==> a.status == WorkerStatus::Idle)
            },
    decreases upto,
{
    if upto > 0 {
        let p = swept(c, slot, now, (upto - 1) as nat);
        lemma_swept_shape(c, slot, now, (upto - 1) as nat);
        lemma_place_shape(p, upto - 1, slot, now);
        lemma_placement(p, upto - 1, slot);
        let d = place(p, upto - 1, slot, now);
        assert(d == swept(c, slot, now, upto));
        assert forall|k: int| 0 <= k < c.jobs.len() implies {
            let a = c.jobs[k];
            let b = #[trigger] d.jobs[k];
            &&& same_job(a, b)
            &&& (b == a || (is_pending(a) && b.status == JobStatus::Processing))
        } by {
            let m = p.jobs[k];
            if k == upto - 1 && placement(p, upto - 1, slot) is Some {
                assert(m == c.jobs[k]);
            } else {
                assert(d.jobs[k] == m);
            }
        }
        assert forall|i: int| 0 <= i < c.sessions.len() implies {
            let a = c.sessions[i];
            let b = #[trigger] d.sessions[i];
            &&& b.handle == a.handle
            &&& b.name == a.name
            &&& b.policy == a.policy
            &&& b.closed == a.closed
            &&& (b.status == WorkerStatus::Idle ==> a.status == WorkerStatus::Idle)
        } by {
            let m = p.sessions[i];
            assert(d.sessions[i].handle == m.handle);
        }
    }
}

/// A job is changed only by the step of the sweep that comes to it.
pub proof fn lemma_swept_later(c: CoordinatorView, slot: Slot, now: u64, from: nat, upto: nat, k: int)
    requires
        0 <= k < from <= upto <= c.jobs.len(),
    ensures
        swept(c, slot, now, upto).jobs[k] == swept(c, slot, now, from).jobs[k],
    decreases upto,
{
    if from < upto {
        let p = swept(c, slot, now, (upto - 1) as nat);
        lemma_swept_later(c, slot, now, from, (upto - 1) as nat, k);
        lemma_swept_shape(c, slot, now, (upto - 1) as nat);
        lemma_place_shape(p, upto - 1, slot, now);
    }
}

/// A job that finds no taker finds none after a step of the dispatcher
/// either: a step makes no session eligible, and takes no frame out of a
/// queue.
pub proof fn lemma_blocked_stays(
    c: CoordinatorView,
    k: int,
    slot: Slot,
    now: u64,
    target: Option<Seq<char>>,
)
    requires
        blocked(c.sessions, target, slot),
    ensures
        blocked(place(c, k, slot, now).sessions, target, slot),
{
    let d = place(c, k, slot, now);
    lemma_place_shape(c, k, slot, now);
    lemma_placement(c, k, slot);
    lemma_first_eligible(c.sessions, target, slot);
    lemma_first_eligible(d.sessions, target, slot);
    assert forall|i: int| 0 <= i < c.sessions.len() && eligible(
        #[trigger] d.sessions[i],
        target,
        slot,
    ) implies eligible(c.sessions[i], target, slot) by {}
    match first_eligible(c.sessions, target, slot) {
        Some(w) => {
            assert(placement(c, k, slot) != Some(w));
            assert(is_worker_name(c.sessions[w].name));
            assert(d.sessions[w] == c.sessions[w]);
            assert forall|j: int| 0 <= j < w implies !eligible(
                #[trigger] d.sessions[j],
                target,
                slot,
            ) by {
                assert(!eligible(c.sessions[j], target, slot));
            }
            lemma_first_eligible_is(d.sessions, target, slot, w);
        },
        None => {
            match first_eligible(d.sessions, target, slot) {
                Some(i) => {
                    assert(eligible(d.sessions[i], target, slot));
                    assert(!eligible(c.sessions[i], target, slot));
                },
                None => {},
            }
        },
    }
}

/// Every pending job among the first `upto` finds no taker.
pub open spec fn settled(c: CoordinatorView, slot: Slot, upto: int) -> bool {
    forall|k: int|
        0 <= k < upto && k < c.jobs.len() && is_pending(#[trigger] c.jobs[k]) ==> blocked(
            c.sessions,
            target_of(c.jobs[k].body),
            slot,
        )
}

/// After a sweep over the first `upto` jobs, those of them that are still
/// pending find no taker.
pub proof fn lemma_swept_settled(c: CoordinatorView, slot: Slot, now: u64, upto: nat)
    requires
        upto <= c.jobs.len(),
    ensures
        settled(swept(c, slot, now, upto), slot, upto as int),
    decreases upto,
{
    if upto > 0 {
        let p = swept(c, slot, now, (upto - 1) as nat);
        lemma_swept_settled(c, slot, now, (upto - 1) as nat);
        lemma_swept_shape(c, slot, now, (upto - 1) as nat);
        let d = place(p, upto - 1, slot, now);
        lemma_place_shape(p, upto - 1, slot, now);
        lemma_placement(p, upto - 1, slot);
        assert forall|k: int| 0 <= k < upto && k < d.jobs.len() && is_pending(
            #[trigger] d.jobs[k],
        ) implies blocked(d.sessions, target_of(d.jobs[k].body), slot) by {
            if k < upto - 1 {
                assert(d.jobs[k] == p.jobs[k]);
                lemma_blocked_stays(p, upto - 1, slot, now, target_of(p.jobs[k].body));
            } else {
                assert(placement(p, upto - 1, slot) is None);
            }
        }
    }
}

/// A sweep changes nothing where every pending job finds no taker.
pub proof fn lemma_settled_sweep(c: CoordinatorView, slot: Slot, now: u64, upto: nat)
    requires
        upto <= c.jobs.len(),
        settled(c, slot, c.jobs.len() as int),
    ensures
        swept(c, slot, now, upto) == c,
        sweep_log(c, slot, now, upto) == Seq::<AssignmentView>::empty(),
    decreases upto,
{
    if upto > 0 {
        lemma_settled_sweep(c, slot, now, (upto - 1) as nat);
        lemma_first_eligible(c.sessions, target_of(c.jobs[upto - 1].body), slot);
        assert(placement(c, upto - 1, slot) is None);
    }
}

/// A second sweep right after a first changes nothing and places no job,
/// whatever the clock says in between.
pub proof fn law_dispatch_is_idempotent(c: CoordinatorView, slot: Slot, now: u64, later: u64)
    ensures
        dispatched(dispatched(c, slot, now), slot, later) == dispatched(c, slot, now),
        sweep_log(dispatched(c, slot, now), slot, later, dispatched(c, slot, now).jobs.len())
            == Seq::<AssignmentView>::empty(),
{
    let once = dispatched(c, slot, now);
    lemma_swept_shape(c, slot, now, c.jobs.len());
    lemma_swept_settled(c, slot, now, c.jobs.len());
    lemma_settled_sweep(once, slot, later, once.jobs.len());
}

/// Whether two jobs, one for `first` and one for `second`, may be given to
/// the same sessions.
pub open spec fn same_takers(
    sessions: Seq<SessionView>,
    first: Option<Seq<char>>,
    second: Option<Seq<char>>,
    slot: Slot,
) -> bool {
    forall|i: int|
        0 <= i < sessions.len() ==> eligible(#[trigger] sessions[i], first, slot) == eligible(
            sessions[i],
            second,
            slot,
        )
}

/// Jobs that may be given to the same sessions have the same first taker.
pub proof fn lemma_same_first_eligible(
    sessions: Seq<SessionView>,
    first: Option<Seq<char>>,
    second: Option<Seq<char>>,
    slot: Slot,
)
    requires
        same_takers(sessions, first, second, slot),
    ensures
        first_eligible(sessions, first, slot) == first_eligible(sessions, second, slot),
    decreases sessions.len(),
{
    if sessions.len() > 0 {
        let front = sessions.drop_last();
        assert forall|i: int| 0 <= i < front.len() implies eligible(
            #[trigger] front[i],
            first,
            slot,
        ) == eligible(front[i], second, slot) by {
            assert(front[i] == sessions[i]);
        }
        lemma_same_first_eligible(front, first, second, slot);
        assert(sessions.last() == sessions[sessions.len() - 1]);
    }
}

/// Of two pending jobs that may be given to the same sessions when a sweep
/// begins, the sweep places the one that arrived later only where it has
/// placed the one that arrived earlier before.
pub proof fn law_oldest_first(c: CoordinatorView, slot: Slot, now: u64, i: int, j: int)
    requires
        table_wf(c.jobs),
        0 <= i < c.jobs.len(),
        0 <= j < c.jobs.len(),
        c.jobs[i].created_at < c.jobs[j].created_at,
        is_pending(c.jobs[i]),
        is_pending(c.jobs[j]),
        same_takers(c.sessions, target_of(c.jobs[i].body), target_of(c.jobs[j].body), slot),
        dispatched(c, slot, now).jobs[j].status == JobStatus::Processing,
    ensures
        i < j,
        swept(c, slot, now, j as nat).jobs[i].status == JobStatus::Processing,
        dispatched(c, slot, now).jobs[i].status == JobStatus::Processing,
{
    if j <= i {
        assert(c.jobs[j].created_at <= c.jobs[i].created_at);
    }
    law_earlier_row_first(c, slot, now, i, j);
}

/// Of two pending jobs that may be given to the same sessions when a sweep
/// begins, the sweep places the one in the later row only where it has
/// placed the one in the earlier row before. Jobs that arrived in the same
/// millisecond go by their rows.
pub proof fn law_earlier_row_first(c: CoordinatorView, slot: Slot, now: u64, i: int, j: int)
    requires
        0 <= i < j < c.jobs.len(),
        is_pending(c.jobs[i]),
        is_pending(c.jobs[j]),
        same_takers(c.sessions, target_of(c.jobs[i].body), target_of(c.jobs[j].body), slot),
        dispatched(c, slot, now).jobs[j].status == JobStatus::Processing,
    ensures
        swept(c, slot, now, j as nat).jobs[i].status == JobStatus::Processing,
        dispatched(c, slot, now).jobs[i].status == JobStatus::Processing,
{
    let n = c.jobs.len();
    let q = swept(c, slot, now, j as nat);
    let first = target_of(c.jobs[i].body);
    let second = target_of(c.jobs[j].body);
    lemma_swept_shape(c, slot, now, j as nat);
    lemma_swept_settled(c, slot, now, j as nat);
    lemma_swept_later(c, slot, now, (j + 1) as nat, n, j);
    lemma_swept_later(c, slot, now, j as nat, n, i);
    lemma_place_shape(q, j, slot, now);
    assert(swept(c, slot, now, (j + 1) as nat) == place(q, j, slot, now));
    assert(q.jobs[j] == c.jobs[j]);
    assert(same_job(c.jobs[i], q.jobs[i]));
    if q.jobs[i].status != JobStatus::Processing {
        assert(is_pending(q.jobs[i]));
        assert(blocked(q.sessions, first, slot));
        assert forall|k: int| 0 <= k < q.sessions.len() implies eligible(
            #[trigger] q.sessions[k],
            first,
            slot,
        ) == eligible(q.sessions[k], second, slot) by {
            let a = c.sessions[k];
            let b = q.sessions[k];
            assert(b.name == a.name && b.policy == a.policy);
            assert(eligible(a, first, slot) == eligible(a, second, slot));
        }
        lemma_same_first_eligible(q.sessions, first, second, slot);
        assert(placement(q, j, slot) is None);
    }
}

/// A job that names a worker goes to a session of that name, and a job
/// goes to workers only.
pub proof fn law_target_is_honoured(c: CoordinatorView, k: int, slot: Slot)
    ensures
        told(c, k, slot) matches Some(a) ==> is_worker_name(a.worker_name) && (target_of(
            c.jobs[k].body,
        ) matches Some(name) ==> a.worker_name == name),
{
    lemma_placement(c, k, slot);
}

/// Every placement that a sweep tells of is the placement of a job of the
/// table on a worker, and on a worker of the name that the job asks for
/// where it asks for one.
pub proof fn law_sweep_honours_targets(c: CoordinatorView, slot: Slot, now: u64, upto: nat)
    requires
        upto <= c.jobs.len(),
    ensures
        forall|n: int|
            0 <= n < sweep_log(c, slot, now, upto).len() ==> {
                let a = #[trigger] sweep_log(c, slot, now, upto)[n];
                exists|k: int|
                    {
                        &&& 0 <= k < upto
                        &&& #[trigger] c.jobs[k].id == a.job_id
                        &&& is_worker_name(a.worker_name)
                        &&& (target_of(c.jobs[k].body) matches Some(name) ==> a.worker_name == name)
                    }
            },
    decreases upto,
{
    if upto > 0 {
        let p = swept(c, slot, now, (upto - 1) as nat);
        law_sweep_honours_targets(c, slot, now, (upto - 1) as nat);
        lemma_swept_shape(c, slot, now, (upto - 1) as nat);
        lemma_placement(p, upto - 1, slot);
        let before = sweep_log(c, slot, now, (upto - 1) as nat);
        let log = sweep_log(c, slot, now, upto);
        assert forall|n: int| 0 <= n < log.len() implies {
            let a = #[trigger] log[n];
            exists|k: int|
                {
                    &&& 0 <= k < upto
                    &&& #[trigger] c.jobs[k].id == a.job_id
                    &&& is_worker_name(a.worker_name)
                    &&& (target_of(c.jobs[k].body) matches Some(name) ==> a.worker_name == name)
                }
        } by {
            let a = log[n];
            if n < before.len() {
                assert(a == before[n]);
                let k = choose|k: int|
                    {
                        &&& 0 <= k < upto - 1
                        &&& #[trigger] c.jobs[k].id == a.job_id
                        &&& is_worker_name(a.worker_name)
                        &&& (target_of(c.jobs[k].body) matches Some(name) ==> a.worker_name == name)
                    };
                assert(c.jobs[k].id == a.job_id);
            } else {
                let k = upto - 1;
                assert(same_job(c.jobs[k], p.jobs[k]));
                assert(c.jobs[k].id == a.job_id);
            }
        }
    }
}

/// A step of the dispatcher keeps the table and the registry in order and
/// in agreement.
pub proof fn lemma_place_keeps_wf(c: CoordinatorView, k: int, slot: Slot, now: u64)
    requires
        system_wf(c),
    ensures
        system_wf(place(c, k, slot, now)),
{
    lemma_placement(c, k, slot);
    lemma_place_shape(c, k, slot, now);
    match placement(c, k, slot) {
        None => {},
        Some(w) => {
            let d = place(c, k, slot, now);
            let h = c.sessions[w].handle;
            assert(c.sessions[w].current_job is None);
            assert forall|i: int| 0 <= i < d.jobs.len() implies same_job(
                c.jobs[i],
                #[trigger] d.jobs[i],
            ) by {}
            assert(table_wf(d.jobs)) by {
                assert forall|i: int, j: int| 0 <= i < j < d.jobs.len() implies d.jobs[i].id
                    != d.jobs[j].id by {
                    assert(same_job(c.jobs[i], d.jobs[i]));
                    assert(same_job(c.jobs[j], d.jobs[j]));
                }
                assert forall|i: int, j: int| 0 <= i <= j < d.jobs.len() implies d.jobs[i].created_at
                    <= d.jobs[j].created_at by {
                    assert(same_job(c.jobs[i], d.jobs[i]));
                    assert(same_job(c.jobs[j], d.jobs[j]));
                }
            }
            assert(registry_wf(RegistryView { sessions: d.sessions, next_handle: d.next_handle }))
                by {
                assert forall|i: int, j: int| 0 <= i < j < d.sessions.len() implies d.sessions[i].handle
                    < d.sessions[j].handle by {
                    assert(d.sessions[i].handle == c.sessions[i].handle);
                    assert(d.sessions[j].handle == c.sessions[j].handle);
                }
                assert forall|i: int| 0 <= i < d.sessions.len() implies d.sessions[i].handle
                    < d.next_handle by {
                    assert(d.sessions[i].handle == c.sessions[i].handle);
                }
                assert forall|i: int| 0 <= i < d.sessions.len() implies session_wf(
                    #[trigger] d.sessions[i],
                ) by {
                    assert(session_wf(c.sessions[i]));
                }
            }
            assert forall|s: int|
                0 <= s < d.sessions.len() && (#[trigger] d.sessions[s]).current_job is Some implies holds_job(
                d,
                s,
            ) by {
                if s == w {
                    assert(in_flight_on(d.jobs[k], d.sessions[s].handle));
                } else {
                    assert(c.sessions[s].current_job is Some);
                    assert(holds_job(c, s));
                    let r = choose|r: int|
                        0 <= r < c.jobs.len() && Some(c.jobs[r].id) == c.sessions[s].current_job
                            && in_flight_on(#[trigger] c.jobs[r], c.sessions[s].handle);
                    assert(r != k);
                    assert(d.jobs[r] == c.jobs[r]);
                    assert(in_flight_on(d.jobs[r], d.sessions[s].handle));
                }
            }
            assert forall|r: int, s: int|
                0 <= r < d.jobs.len() && 0 <= s < d.sessions.len() && in_flight_on(
                    #[trigger] d.jobs[r],
                    (#[trigger] d.sessions[s]).handle,
                ) implies d.sessions[s].current_job == Some(d.jobs[r].id) by {
                assert(d.sessions[s].handle == c.sessions[s].handle);
                if r == k {
                    if s < w {
                        assert(c.sessions[s].handle < c.sessions[w].handle);
                    } else if w < s {
                        assert(c.sessions[w].handle < c.sessions[s].handle);
                    }
                } else {
                    assert(d.jobs[r] == c.jobs[r]);
                    assert(in_flight_on(c.jobs[r], c.sessions[s].handle));
                    assert(c.sessions[s].current_job == Some(c.jobs[r].id));
                }
            }
            assert forall|r: int|
                0 <= r < d.jobs.len() && (#[trigger] d.jobs[r]).worker is Some implies d.jobs[r].worker->0
                < d.next_handle by {
                if r != k {
                    assert(d.jobs[r] == c.jobs[r]);
                }
            }
            assert forall|i: int, j: int|
                0 <= i < j < d.jobs.len() && (#[trigger] d.jobs[i]).status
                    == JobStatus::Processing && (#[trigger] d.jobs[j]).status
                    == JobStatus::Processing && d.jobs[i].worker is Some implies d.jobs[i].worker
                != d.jobs[j].worker by {
                if i != k && j != k {
                    assert(d.jobs[i] == c.jobs[i]);
                    assert(d.jobs[j] == c.jobs[j]);
                } else if i == k {
                    assert(d.jobs[j] == c.jobs[j]);
                    if c.jobs[j].worker == Some(h) {
                        assert(in_flight_on(c.jobs[j], c.sessions[w].handle));
                    }
                } else {
                    assert(d.jobs[i] == c.jobs[i]);
                    if c.jobs[i].worker == Some(h) {
                        assert(in_flight_on(c.jobs[i], c.sessions[w].handle));
                    }
                }
            }
        },
    }
}

/// A sweep keeps the table and the registry in order and in agreement.
pub proof fn lemma_swept_keeps_wf(c: CoordinatorView, slot: Slot, now: u64, upto: nat)
    requires
        system_wf(c),
    ensures
        system_wf(swept(c, slot, now, upto)),
    decreases upto,
{
    if upto > 0 {
        lemma_swept_keeps_wf(c, slot, now, (upto - 1) as nat);
        lemma_place_keeps_wf(swept(c, slot, now, (upto - 1) as nat), upto - 1, slot, now);
    }
}

/// A sweep moves jobs along their path only: it leaves a job as it is or
/// takes it from pending to processing.
pub proof fn law_sweep_moves_jobs_on(c: CoordinatorView, slot: Slot, now: u64, upto: nat)
    requires
        upto <= c.jobs.len(),
    ensures
        jobs_move_on(c.jobs, swept(c, slot, now, upto).jobs),
{
    lemma_swept_shape(c, slot, now, upto);
    let d = swept(c, slot, now, upto);
    assert forall|k: int| 0 <= k < c.jobs.len() implies same_job(c.jobs[k], #[trigger] d.jobs[k])
        && (c.jobs[k].status == d.jobs[k].status || c.jobs[k].status.can_step_to(
        d.jobs[k].status,
    )) by {}
}

/// Telling the observers of an event keeps the table and the registry in
/// order and in agreement.
pub proof fn lemma_announce_keeps_wf(c: CoordinatorView, e: EventView)
    requires
        system_wf(c),
    ensures
        system_wf(CoordinatorView { sessions: announce(c.sessions, e), ..c }),
{
    let d = CoordinatorView { sessions: announce(c.sessions, e), ..c };
    lemma_announce(c.sessions, e);
    assert(registry_wf(RegistryView { sessions: d.sessions, next_handle: d.next_handle })) by {
        assert forall|i: int, j: int| 0 <= i < j < d.sessions.len() implies d.sessions[i].handle
            < d.sessions[j].handle by {
            assert(d.sessions[i].handle == c.sessions[i].handle);
            assert(d.sessions[j].handle == c.sessions[j].handle);
        }
        assert forall|i: int| 0 <= i < d.sessions.len() implies d.sessions[i].handle
            < d.next_handle by {
            assert(d.sessions[i].handle == c.sessions[i].handle);
        }
        assert forall|i: int| 0 <= i < d.sessions.len() implies session_wf(
            #[trigger] d.sessions[i],
        ) by {
            assert(session_wf(c.sessions[i]));
        }
    }
    assert forall|s: int|
        0 <= s < d.sessions.len() && (#[trigger] d.sessions[s]).current_job is Some implies holds_job(
        d,
        s,
    ) by {
        assert(c.sessions[s].current_job is Some);
        assert(holds_job(c, s));
        let r = choose|r: int|
            0 <= r < c.jobs.len() && Some(c.jobs[r].id) == c.sessions[s].current_job
                && in_flight_on(#[trigger] c.jobs[r], c.sessions[s].handle);
        assert(in_flight_on(d.jobs[r], d.sessions[s].handle));
    }
    assert forall|r: int, s: int|
        0 <= r < d.jobs.len() && 0 <= s < d.sessions.len() && in_flight_on(
            #[trigger] d.jobs[r],
            (#[trigger] d.sessions[s]).handle,
        ) implies d.sessions[s].current_job == Some(d.jobs[r].id) by {
        assert(d.sessions[s].handle == c.sessions[s].handle);
        assert(in_flight_on(c.jobs[r], c.sessions[s].handle));
    }
}

/// The frame that greets a session.
pub open spec fn welcome() -> Seq<char> {
    "Welcome to NeuraGrid"@
}

/// The state after a client was registered and greeted: a new idle session
/// at the end, with the next handle, and with the greeting in its queue.
pub open spec fn admitted(
    c: CoordinatorView,
    name: Seq<char>,
    policy: Option<PolicyView>,
) -> CoordinatorView {
    CoordinatorView {
        sessions: c.sessions.push(offered(fresh_session(c.next_handle, name, policy), welcome())),
        next_handle: (c.next_handle + 1) as u64,
        ..c
    }
}

/// The state after a client has connected: it was registered and greeted,
/// and the dispatcher has swept the table. Nothing happens once the handles
/// have run out.
pub open spec fn connected(
    c: CoordinatorView,
    name: Seq<char>,
    policy: Option<PolicyView>,
    slot: Slot,
    now: u64,
) -> CoordinatorView {
    if c.next_handle < u64::MAX {
        dispatched(admitted(c, name, policy), slot, now)
    } else {
        c
    }
}

/// The state after the session that bears `handle` has gone. Its job, if it
/// had one, stays as it is.
pub open spec fn departed(c: CoordinatorView, handle: u64) -> CoordinatorView {
    if has_handle(c.sessions, handle) {
        CoordinatorView { sessions: c.sessions.remove(place_of(c.sessions, handle)), ..c }
    } else {
        c
    }
}

/// A session as it is once it has no job.
pub open spec fn released(s: SessionView) -> SessionView {
    SessionView { status: WorkerStatus::Idle, current_job: None, ..s }
}

/// The row of the job that session `at` works on, where the table has it
/// as processing.
pub open spec fn job_in_hand(c: CoordinatorView, at: int) -> Option<int> {
    match c.sessions[at].current_job {
        Some(id) => if has_id(c.jobs, id) && c.jobs[row_of(c.jobs, id)].status
            == JobStatus::Processing {
            Some(row_of(c.jobs, id))
        } else {
            None
        },
        None => None,
    }
}

/// The state after session `at` has reported its job done: the session is
/// idle, and its job, where it had one, is completed and the observers were
/// told.
pub open spec fn finished(c: CoordinatorView, at: int, now: u64) -> CoordinatorView {
    match job_in_hand(c, at) {
        Some(k) => CoordinatorView {
            jobs: c.jobs.update(k, JobView { status: JobStatus::Completed, ..c.jobs[k] }),
            sessions: announce(
                c.sessions.update(at, released(c.sessions[at])),
                completed_event(c.jobs[k], c.sessions[at].name, now),
            ),
            ..c
        },
        None => CoordinatorView { sessions: c.sessions.update(at, released(c.sessions[at])), ..c },
    }
}

/// The state after the session that bears `handle` has sent `text`: where
/// the text reports completion, the session has finished its job and the
/// dispatcher has swept the table; otherwise nothing has changed.
pub open spec fn heard(
    c: CoordinatorView,
    handle: u64,
    text: Seq<char>,
    slot: Slot,
    now: u64,
) -> CoordinatorView {
    if has_handle(c.sessions, handle) && kind_of(text) == FrameKind::Completion {
        dispatched(finished(c, place_of(c.sessions, handle), now), slot, now)
    } else {
        c
    }
}

/// The row of a job that has just come in.
pub open spec fn new_job(id: Seq<char>, body: Seq<char>, request: RequestView, at: u64) -> JobView {
    JobView {
        id,
        body,
        job_type: request.job_type,
        status: JobStatus::Pending,
        tags: request.tags,
        created_at: at,
        worker: None,
    }
}

/// The state after the job was put at the end of the table and the
/// observers were told of it.
pub open spec fn queued(
    c: CoordinatorView,
    id: Seq<char>,
    body: Seq<char>,
    request: RequestView,
    now: u64,
) -> CoordinatorView {
    CoordinatorView {
        jobs: c.jobs.push(new_job(id, body, request, arrival(c.jobs, now))),
        sessions: announce(c.sessions, pending_event(id, request.tags, now)),
        ..c
    }
}

/// The state after a submission with the text `body` was given the id
/// `id`. A text that is no JSON changes nothing. Otherwise the job is put
/// at the end of the table as pending, the observers are told, and the
/// dispatcher sweeps the table; but where the table has the id already, it
/// refuses the job, and the observers are told and nothing else happens.
pub open spec fn accepted(
    c: CoordinatorView,
    body: Seq<char>,
    id: Seq<char>,
    slot: Slot,
    now: u64,
) -> CoordinatorView {
    match request_of(body) {
        None => c,
        Some(request) => if has_id(c.jobs, id) {
            CoordinatorView {
                sessions: announce(c.sessions, pending_event(id, request.tags, now)),
                ..c
            }
        } else {
            dispatched(queued(c, id, body, request, now), slot, now)
        },
    }
}

/// What the submitter is told: that the job with its id is queued, or
/// that the text was no JSON.
pub open spec fn reply_to(body: Seq<char>, id: Seq<char>) -> Seq<char> {
    if request_of(body) is Some {
        "Job "@ + id + " queued"@
    } else {
        "Invalid JSON"@
    }
}

/// Whether a job that was `a` may later be `b`: they are equal, or `b` lies
/// further on the path pending, processing, then completed or failed.
pub open spec fn follows(a: JobStatus, b: JobStatus) -> bool {
    a == b || a.can_step_to(b) || (a == JobStatus::Pending && b.is_final())
}

/// The table `after` holds every job of `before` at its place, each as it
/// was or further on its path.
pub open spec fn jobs_advance(before: Seq<JobView>, after: Seq<JobView>) -> bool {
    &&& before.len() <= after.len()
    &&& forall|k: int|
        0 <= k < before.len() ==> same_job(before[k], #[trigger] after[k]) && follows(
            before[k].status,
            after[k].status,
        )
}

/// The path of a job has three stations in one order: a job steps from
/// pending to processing and from processing to an end, and nowhere else;
/// what may follow what is what the steps add up to.
pub proof fn law_job_path(a: JobStatus, b: JobStatus, c: JobStatus)
    ensures
        a.can_step_to(b) ==> b.rank() == a.rank() + 1,
        a.can_step_to(b) ==> b != JobStatus::Pending && !a.is_final(),
        !(a == JobStatus::Pending && b.is_final() && a.can_step_to(b)),
        follows(a, b) && follows(b, c) ==> follows(a, c),
        follows(a, b) ==> a.rank() <= b.rank(),
        follows(a, b) && a.is_final() ==> a == b,
{
}

/// Jobs that have moved on and then moved on again have moved on.
pub proof fn lemma_jobs_advance_twice(a: Seq<JobView>, b: Seq<JobView>, c: Seq<JobView>)
    requires
        jobs_advance(a, b),
        jobs_advance(b, c),
    ensures
        jobs_advance(a, c),
{
    assert forall|k: int| 0 <= k < a.len() implies same_job(a[k], #[trigger] c[k]) && follows(
        a[k].status,
        c[k].status,
    ) by {
        assert(same_job(a[k], b[k]));
        assert(same_job(b[k], c[k]));
        law_job_path(a[k].status, b[k].status, c[k].status);
    }
}

/// Every step of the coordinator leaves every job in the table, at its
/// place and with its id, text, kind, tags and arrival time, and as far on
/// its path as it was or further.
pub proof fn law_jobs_only_move_on(
    c: CoordinatorView,
    name: Seq<char>,
    policy: Option<PolicyView>,
    handle: u64,
    text: Seq<char>,
    id: Seq<char>,
    slot: Slot,
    now: u64,
)
    ensures
        jobs_advance(c.jobs, dispatched(c, slot, now).jobs),
        jobs_advance(c.jobs, connected(c, name, policy, slot, now).jobs),
        jobs_advance(c.jobs, departed(c, handle).jobs),
        jobs_advance(c.jobs, heard(c, handle, text, slot, now).jobs),
        jobs_advance(c.jobs, accepted(c, text, id, slot, now).jobs),
{
    lemma_sweep_advances(c, slot, now);
    lemma_sweep_advances(admitted(c, name, policy), slot, now);
    if has_handle(c.sessions, handle) {
        let at = place_of(c.sessions, handle);
        let f = finished(c, at, now);
        lemma_finished_advances(c, at, now);
        lemma_sweep_advances(f, slot, now);
        lemma_jobs_advance_twice(c.jobs, f.jobs, dispatched(f, slot, now).jobs);
    }
    match request_of(text) {
        Some(request) => {
            let q = queued(c, id, text, request, now);
            lemma_sweep_advances(q, slot, now);
            assert(jobs_advance(c.jobs, q.jobs));
            lemma_jobs_advance_twice(c.jobs, q.jobs, dispatched(q, slot, now).jobs);
        },
        None => {},
    }
}

/// A sweep leaves every job as far on its path as it was or further.
pub proof fn lemma_sweep_advances(c: CoordinatorView, slot: Slot, now: u64)
    ensures
        jobs_advance(c.jobs, dispatched(c, slot, now).jobs),
{
    law_sweep_moves_jobs_on(c, slot, now, c.jobs.len());
    lemma_swept_shape(c, slot, now, c.jobs.len());
}

/// A report of completion takes one job from processing to completed and
/// leaves the others as they were.
pub proof fn lemma_finished_advances(c: CoordinatorView, at: int, now: u64)
    ensures
        jobs_advance(c.jobs, finished(c, at, now).jobs),
        jobs_move_on(c.jobs, finished(c, at, now).jobs),
{
}

/// Registering and greeting a client keeps the table and the registry in
/// order and in agreement.
pub proof fn lemma_admitted_keeps_wf(c: CoordinatorView, name: Seq<char>, policy: Option<PolicyView>)
    requires
        system_wf(c),
        c.next_handle < u64::MAX,
    ensures
        system_wf(admitted(c, name, policy)),
{
    let d = admitted(c, name, policy);
    let n = c.sessions.len() as int;
    assert forall|i: int| 0 <= i < n implies #[trigger] d.sessions[i] == c.sessions[i] by {}
    assert(d.sessions[n].handle == c.next_handle);
    assert(d.sessions[n].current_job is None);
    assert(registry_wf(RegistryView { sessions: d.sessions, next_handle: d.next_handle })) by {
        assert forall|i: int, j: int| 0 <= i < j < d.sessions.len() implies d.sessions[i].handle
            < d.sessions[j].handle by {
            assert(d.sessions[i] == c.sessions[i]);
            if j < n {
                assert(d.sessions[j] == c.sessions[j]);
            }
        }
        assert forall|i: int| 0 <= i < d.sessions.len() implies d.sessions[i].handle
            < d.next_handle by {
            if i < n {
                assert(d.sessions[i] == c.sessions[i]);
            }
        }
        assert forall|i: int| 0 <= i < d.sessions.len() implies session_wf(
            #[trigger] d.sessions[i],
        ) by {
            if i < n {
                assert(session_wf(c.sessions[i]));
            }
        }
    }
    assert forall|s: int|
        0 <= s < d.sessions.len() && (#[trigger] d.sessions[s]).current_job is Some implies holds_job(
        d,
        s,
    ) by {
        assert(s < n);
        assert(holds_job(c, s));
        let r = choose|r: int|
            0 <= r < c.jobs.len() && Some(c.jobs[r].id) == c.sessions[s].current_job
                && in_flight_on(#[trigger] c.jobs[r], c.sessions[s].handle);
        assert(in_flight_on(d.jobs[r], d.sessions[s].handle));
    }
    assert forall|r: int, s: int|
        0 <= r < d.jobs.len() && 0 <= s < d.sessions.len() && in_flight_on(
            #[trigger] d.jobs[r],
            (#[trigger] d.sessions[s]).handle,
        ) implies d.sessions[s].current_job == Some(d.jobs[r].id) by {
        if s < n {
            assert(in_flight_on(c.jobs[r], c.sessions[s].handle));
        } else {
            assert(c.jobs[r].worker->0 < c.next_handle);
        }
    }
}

/// The leaving of a session keeps the table and the registry in order and
/// in agreement.
pub proof fn lemma_departed_keeps_wf(c: CoordinatorView, handle: u64)
    requires
        system_wf(c),
    ensures
        system_wf(departed(c, handle)),
{
    if has_handle(c.sessions, handle) {
        let at = place_of(c.sessions, handle);
        let d = departed(c, handle);
        assert forall|i: int| 0 <= i < d.sessions.len() implies #[trigger] d.sessions[i] == (if i
            < at {
            c.sessions[i]
        } else {
            c.sessions[i + 1]
        }) by {}
        assert(registry_wf(RegistryView { sessions: d.sessions, next_handle: d.next_handle })) by {
            assert forall|i: int, j: int| 0 <= i < j < d.sessions.len() implies d.sessions[i].handle
                < d.sessions[j].handle by {
                let a = if i < at {
                    i
                } else {
                    i + 1
                };
                let b = if j < at {
                    j
                } else {
                    j + 1
                };
                assert(c.sessions[a].handle < c.sessions[b].handle);
            }
            assert forall|i: int| 0 <= i < d.sessions.len() implies d.sessions[i].handle
                < d.next_handle by {
                let a = if i < at {
                    i
                } else {
                    i + 1
                };
                assert(c.sessions[a].handle < c.next_handle);
            }
            assert forall|i: int| 0 <= i < d.sessions.len() implies session_wf(
                #[trigger] d.sessions[i],
            ) by {
                let a = if i < at {
                    i
                } else {
                    i + 1
                };
                assert(session_wf(c.sessions[a]));
            }
        }
        assert forall|s: int|
            0 <= s < d.sessions.len() && (#[trigger] d.sessions[s]).current_job is Some implies holds_job(
            d,
            s,
        ) by {
            let a = if s < at {
                s
            } else {
                s + 1
            };
            assert(c.sessions[a].current_job is Some);
            assert(holds_job(c, a));
            let r = choose|r: int|
                0 <= r < c.jobs.len() && Some(c.jobs[r].id) == c.sessions[a].current_job
                    && in_flight_on(#[trigger] c.jobs[r], c.sessions[a].handle);
            assert(in_flight_on(d.jobs[r], d.sessions[s].handle));
        }
        assert forall|r: int, s: int|
            0 <= r < d.jobs.len() && 0 <= s < d.sessions.len() && in_flight_on(
                #[trigger] d.jobs[r],
                (#[trigger] d.sessions[s]).handle,
            ) implies d.sessions[s].current_job == Some(d.jobs[r].id) by {
            let a = if s < at {
                s
            } else {
                s + 1
            };
            assert(in_flight_on(c.jobs[r], c.sessions[a].handle));
        }
    }
}

/// In a state that is in order, the job that a session works on is in the
/// table as processing, and on that session.
pub proof fn lemma_job_in_hand(c: CoordinatorView, at: int)
    requires
        system_wf(c),
        0 <= at < c.sessions.len(),
    ensures
        c.sessions[at].current_job matches Some(id) ==> {
            &&& has_id(c.jobs, id)
            &&& job_in_hand(c, at) == Some(row_of(c.jobs, id))
            &&& 0 <= row_of(c.jobs, id) < c.jobs.len()
            &&& c.jobs[row_of(c.jobs, id)].id == id
            &&& in_flight_on(c.jobs[row_of(c.jobs, id)], c.sessions[at].handle)
        },
        c.sessions[at].current_job is None ==> job_in_hand(c, at) is None,
{
    match c.sessions[at].current_job {
        Some(id) => {
            assert(holds_job(c, at));
            let r = choose|r: int|
                0 <= r < c.jobs.len() && Some(c.jobs[r].id) == c.sessions[at].current_job
                    && in_flight_on(#[trigger] c.jobs[r], c.sessions[at].handle);
            assert(c.jobs[r].id == id);
            let k = row_of(c.jobs, id);
            if k < r {
                assert(c.jobs[k].id != c.jobs[r].id);
            } else if r < k {
                assert(c.jobs[r].id != c.jobs[k].id);
            }
        },
        None => {},
    }
}

/// A report of completion keeps the table and the registry in order and in
/// agreement.
pub proof fn lemma_finished_keeps_wf(c: CoordinatorView, at: int, now: u64)
    requires
        system_wf(c),
        0 <= at < c.sessions.len(),
    ensures
        system_wf(finished(c, at, now)),
{
    lemma_job_in_hand(c, at);
    let mid_sessions = c.sessions.update(at, released(c.sessions[at]));
    let mid = match job_in_hand(c, at) {
        Some(k) => CoordinatorView {
            jobs: c.jobs.update(k, JobView { status: JobStatus::Completed, ..c.jobs[k] }),
            sessions: mid_sessions,
            ..c
        },
        None => CoordinatorView { sessions: mid_sessions, ..c },
    };
    assert forall|i: int| 0 <= i < mid.jobs.len() implies same_job(
        c.jobs[i],
        #[trigger] mid.jobs[i],
    ) && mid.jobs[i].worker == c.jobs[i].worker by {}
    assert(table_wf(mid.jobs)) by {
        assert forall|i: int, j: int| 0 <= i < j < mid.jobs.len() implies mid.jobs[i].id
            != mid.jobs[j].id by {
            assert(same_job(c.jobs[i], mid.jobs[i]));
            assert(same_job(c.jobs[j], mid.jobs[j]));
        }
        assert forall|i: int, j: int| 0 <= i <= j < mid.jobs.len() implies mid.jobs[i].created_at
            <= mid.jobs[j].created_at by {
            assert(same_job(c.jobs[i], mid.jobs[i]));
            assert(same_job(c.jobs[j], mid.jobs[j]));
        }
    }
    assert(registry_wf(RegistryView { sessions: mid.sessions, next_handle: mid.next_handle })) by {
        assert forall|i: int, j: int| 0 <= i < j < mid.sessions.len() implies mid.sessions[i].handle
            < mid.sessions[j].handle by {
            assert(c.sessions[i].handle < c.sessions[j].handle);
        }
        assert forall|i: int| 0 <= i < mid.sessions.len() implies mid.sessions[i].handle
            < mid.next_handle by {
            assert(c.sessions[i].handle < c.next_handle);
        }
        assert forall|i: int| 0 <= i < mid.sessions.len() implies session_wf(
            #[trigger] mid.sessions[i],
        ) by {
            assert(session_wf(c.sessions[i]));
        }
    }
    assert forall|s: int|
        0 <= s < mid.sessions.len() && (#[trigger] mid.sessions[s]).current_job is Some implies holds_job(
        mid,
        s,
    ) by {
        assert(s != at);
        assert(mid.sessions[s] == c.sessions[s]);
        assert(holds_job(c, s));
        let r = choose|r: int|
            0 <= r < c.jobs.len() && Some(c.jobs[r].id) == c.sessions[s].current_job
                && in_flight_on(#[trigger] c.jobs[r], c.sessions[s].handle);
        if job_in_hand(c, at) == Some(r) {
            assert(in_flight_on(c.jobs[r], c.sessions[at].handle));
            if s < at {
                assert(c.sessions[s].handle < c.sessions[at].handle);
            } else {
                assert(c.sessions[at].handle < c.sessions[s].handle);
            }
        }
        assert(mid.jobs[r] == c.jobs[r]);
        assert(in_flight_on(mid.jobs[r], mid.sessions[s].handle));
    }
    assert forall|r: int, s: int|
        0 <= r < mid.jobs.len() && 0 <= s < mid.sessions.len() && in_flight_on(
            #[trigger] mid.jobs[r],
            (#[trigger] mid.sessions[s]).handle,
        ) implies mid.sessions[s].current_job == Some(mid.jobs[r].id) by {
        assert(mid.sessions[s].handle == c.sessions[s].handle);
        assert(mid.jobs[r].status == JobStatus::Processing);
        assert(mid.jobs[r] == c.jobs[r]);
        assert(in_flight_on(c.jobs[r], c.sessions[s].handle));
        assert(c.sessions[s].current_job == Some(c.jobs[r].id));
        if s == at {
            assert(job_in_hand(c, at) == Some(r));
        }
    }
    assert forall|r: int|
        0 <= r < mid.jobs.len() && (#[trigger] mid.jobs[r]).worker is Some implies mid.jobs[r].worker->0
        < mid.next_handle by {
        assert(mid.jobs[r].worker == c.jobs[r].worker);
    }
    assert forall|i: int, j: int|
        0 <= i < j < mid.jobs.len() && (#[trigger] mid.jobs[i]).status == JobStatus::Processing && (
        #[trigger] mid.jobs[j]).status == JobStatus::Processing && mid.jobs[i].worker is Some implies mid.jobs[i].worker
        != mid.jobs[j].worker by {
        assert(mid.jobs[i] == c.jobs[i]);
        assert(mid.jobs[j] == c.jobs[j]);
    }
    assert(system_wf(mid));
    match job_in_hand(c, at) {
        Some(k) => {
            lemma_announce_keeps_wf(mid, completed_event(c.jobs[k], c.sessions[at].name, now));
        },
        None => {},
    }
}

/// Putting a new job at the end of the table, under an id that the table
/// does not have, keeps the table and the registry in order and in
/// agreement.
pub proof fn lemma_queued_keeps_wf(
    c: CoordinatorView,
    id: Seq<char>,
    body: Seq<char>,
    request: RequestView,
    now: u64,
)
    requires
        system_wf(c),
        !has_id(c.jobs, id),
    ensures
        system_wf(queued(c, id, body, request, now)),
{
    let n = c.jobs.len() as int;
    let mid = CoordinatorView {
        jobs: c.jobs.push(new_job(id, body, request, arrival(c.jobs, now))),
        ..c
    };
    assert forall|i: int| 0 <= i < n implies #[trigger] mid.jobs[i] == c.jobs[i] by {}
    assert(table_wf(mid.jobs)) by {
        assert forall|i: int, j: int| 0 <= i < j < mid.jobs.len() implies mid.jobs[i].id
            != mid.jobs[j].id by {
            assert(mid.jobs[i] == c.jobs[i]);
            if j < n {
                assert(mid.jobs[j] == c.jobs[j]);
            }
        }
        assert forall|i: int, j: int| 0 <= i <= j < mid.jobs.len() implies mid.jobs[i].created_at
            <= mid.jobs[j].created_at by {
            if j < n {
                assert(mid.jobs[i] == c.jobs[i]);
                assert(mid.jobs[j] == c.jobs[j]);
            } else if i < n {
                assert(mid.jobs[i] == c.jobs[i]);
                assert(c.jobs[i].created_at <= c.jobs[n - 1].created_at);
            }
        }
    }
    assert forall|s: int|
        0 <= s < mid.sessions.len() && (#[trigger] mid.sessions[s]).current_job is Some implies holds_job(
        mid,
        s,
    ) by {
        assert(holds_job(c, s));
        let r = choose|r: int|
            0 <= r < c.jobs.len() && Some(c.jobs[r].id) == c.sessions[s].current_job
                && in_flight_on(#[trigger] c.jobs[r], c.sessions[s].handle);
        assert(mid.jobs[r] == c.jobs[r]);
        assert(in_flight_on(mid.jobs[r], mid.sessions[s].handle));
    }
    assert forall|r: int, s: int|
        0 <= r < mid.jobs.len() && 0 <= s < mid.sessions.len() && in_flight_on(
            #[trigger] mid.jobs[r],
            (#[trigger] mid.sessions[s]).handle,
        ) implies mid.sessions[s].current_job == Some(mid.jobs[r].id) by {
        assert(r < n);
        assert(mid.jobs[r] == c.jobs[r]);
        assert(in_flight_on(c.jobs[r], c.sessions[s].handle));
    }
    assert forall|r: int|
        0 <= r < mid.jobs.len() && (#[trigger] mid.jobs[r]).worker is Some implies mid.jobs[r].worker->0
        < mid.next_handle by {
        assert(r < n);
        assert(mid.jobs[r] == c.jobs[r]);
    }
    assert forall|i: int, j: int|
        0 <= i < j < mid.jobs.len() && (#[trigger] mid.jobs[i]).status == JobStatus::Processing && (
        #[trigger] mid.jobs[j]).status == JobStatus::Processing && mid.jobs[i].worker is Some implies mid.jobs[i].worker
        != mid.jobs[j].worker by {
        assert(j < n);
        assert(mid.jobs[i] == c.jobs[i]);
        assert(mid.jobs[j] == c.jobs[j]);
    }
    lemma_announce_keeps_wf(mid, pending_event(id, request.tags, now));
}

/// In every state that is in order, no two jobs are in flight on one
/// session: a worker has at most one job at a time.
pub proof fn law_one_job_per_worker(c: CoordinatorView, i: int, j: int, handle: u64)
    requires
        system_wf(c),
        0 <= i < c.jobs.len(),
        0 <= j < c.jobs.len(),
        in_flight_on(c.jobs[i], handle),
        in_flight_on(c.jobs[j], handle),
    ensures
        i == j,
{
}

/// Every step of the coordinator takes a state that is in order to a state
/// that is in order.
pub proof fn law_steps_keep_order(
    c: CoordinatorView,
    name: Seq<char>,
    policy: Option<PolicyView>,
    handle: u64,
    text: Seq<char>,
    id: Seq<char>,
    slot: Slot,
    now: u64,
)
    requires
        system_wf(c),
    ensures
        system_wf(dispatched(c, slot, now)),
        system_wf(connected(c, name, policy, slot, now)),
        system_wf(departed(c, handle)),
        system_wf(heard(c, handle, text, slot, now)),
        system_wf(accepted(c, text, id, slot, now)),
{
    lemma_swept_keeps_wf(c, slot, now, c.jobs.len());
    if c.next_handle < u64::MAX {
        let a = admitted(c, name, policy);
        lemma_admitted_keeps_wf(c, name, policy);
        lemma_swept_keeps_wf(a, slot, now, a.jobs.len());
    }
    lemma_departed_keeps_wf(c, handle);
    if has_handle(c.sessions, handle) {
        let at = place_of(c.sessions, handle);
        let f = finished(c, at, now);
        lemma_finished_keeps_wf(c, at, now);
        lemma_swept_keeps_wf(f, slot, now, f.jobs.len());
    }
    match request_of(text) {
        Some(request) => {
            if has_id(c.jobs, id) {
                lemma_announce_keeps_wf(c, pending_event(id, request.tags, now));
            } else {
                let q = queued(c, id, text, request, now);
                lemma_queued_keeps_wf(c, id, text, request, now);
                lemma_swept_keeps_wf(q, slot, now, q.jobs.len());
            }
        },
        None => {},
    }
}

/// The id that the submitter is told is the id of the row that the
/// submission has got: the answer to a submission that the table takes is
/// `Job <id> queued`, and the table has one row more, which bears that id
/// and holds the text as it came.
pub proof fn law_reply_names_the_stored_job(
    c: CoordinatorView,
    body: Seq<char>,
    id: Seq<char>,
    slot: Slot,
    now: u64,
)
    requires
        request_of(body) is Some,
        !has_id(c.jobs, id),
    ensures
        reply_to(body, id) == "Job "@ + id + " queued"@,
        accepted(c, body, id, slot, now).jobs.len() == c.jobs.len() + 1,
        accepted(c, body, id, slot, now).jobs[c.jobs.len() as int].id == id,
        accepted(c, body, id, slot, now).jobs[c.jobs.len() as int].body == body,
{
    let request = request_of(body)->0;
    let q = queued(c, id, body, request, now);
    lemma_swept_shape(q, slot, now, q.jobs.len());
    let d = dispatched(q, slot, now);
    assert(same_job(q.jobs[c.jobs.len() as int], d.jobs[c.jobs.len() as int]));
}

} // verus!
