//! The live sessions: who is connected, in the order in which they came.
//!
//! A session is a worker where its name begins with `Worker`, and an
//! observer otherwise. Each session has a queue of frames that wait to be
//! written to its channel. The queue holds at most [`OUTBOUND_CAPACITY`]
//! frames; a frame that finds it full, or closed, is dropped.

use crate::status::WorkerStatus;
use crate::store::{copy_texts, texts};
use crate::text::{begins_with, same_text, starts_with};
use vstd::prelude::*;

verus! {

/// The number of frames that the queue of a session holds at most.
pub const OUTBOUND_CAPACITY: usize = 100;

/// An hour of a day of the week, by the clock of the coordinator: Monday is
/// day 0 and Sunday day 6, and hours run from 0 to 23.
#[derive(Clone, Copy, Debug, PartialEq, Eq, Structural)]
pub struct Slot {
    pub weekday: u8,
    pub hour: u8,
}

/// When a worker takes jobs, as the contracts speak of it.
pub struct PolicyView {
    pub silent_mode: bool,
    pub schedule: Seq<Seq<bool>>,
}

/// When a worker takes jobs: never while `silent_mode` is on, and otherwise
/// in the hours that `schedule` marks, a row for each day of the week and in
/// each row a mark for each hour.
#[derive(Clone, Debug)]
pub struct Policy {
    pub silent_mode: bool,
    pub schedule: Vec<Vec<bool>>,
}

/// The marks of a schedule.
pub open spec fn grid(schedule: Seq<Vec<bool>>) -> Seq<Seq<bool>> {
    Seq::new(schedule.len(), |d: int| schedule[d]@)
}

impl View for Policy {
    type V = PolicyView;

    open spec fn view(&self) -> PolicyView {
        PolicyView { silent_mode: self.silent_mode, schedule: grid(self.schedule@) }
    }
}

/// Whether a schedule marks the hour `hour` of day `weekday`. An hour that
/// the schedule has no mark for counts as marked.
pub open spec fn cell_active(schedule: Seq<Seq<bool>>, weekday: int, hour: int) -> bool {
    if 0 <= weekday < schedule.len() && 0 <= hour < schedule[weekday].len() {
        schedule[weekday][hour]
    } else {
        true
    }
}

/// Whether a worker with this policy takes a job at `slot`. A worker
/// without a policy always does.
pub open spec fn admits(policy: Option<PolicyView>, slot: Slot) -> bool {
    match policy {
        None => true,
        Some(p) => !p.silent_mode && cell_active(p.schedule, slot.weekday as int, slot.hour as int),
    }
}

/// The view of an optional policy.
pub open spec fn policy_view(policy: Option<Policy>) -> Option<PolicyView> {
    match policy {
        Some(p) => Some(p@),
        None => None,
    }
}

impl Policy {
    /// Decides whether the policy lets a job in at `slot`.
    pub fn allows(&self, slot: Slot) -> (ok: bool)
        ensures
            ok == admits(Some(self@), slot),
    {
        if self.silent_mode {
            return false;
        }
        let d = slot.weekday as usize;
        let h = slot.hour as usize;
        if d < self.schedule.len() {
            if h < self.schedule[d].len() {
                return self.schedule[d][h];
            }
        }
        true
    }

    /// A copy that reads the same.
    pub fn duplicate(&self) -> (out: Policy)
        ensures
            out@ == self@,
    {
        Policy { silent_mode: self.silent_mode, schedule: copy_grid(&self.schedule) }
    }
}

/// Copies a schedule.
pub fn copy_grid(schedule: &Vec<Vec<bool>>) -> (out: Vec<Vec<bool>>)
    ensures
        grid(out@) == grid(schedule@),
{
    let mut out: Vec<Vec<bool>> = Vec::new();
    let mut d: usize = 0;
    while d < schedule.len()
        invariant
            d <= schedule.len(),
            out.len() == d,
            forall|k: int| 0 <= k < d ==> out@[k]@ == schedule@[k]@,
        decreases schedule.len() - d,
    {
        let mut row: Vec<bool> = Vec::new();
        let mut h: usize = 0;
        while h < schedule[d].len()
            invariant
                d < schedule.len(),
                h <= schedule@[d as int].len(),
                row.len() == h,
                forall|k: int| 0 <= k < h ==> row@[k] == schedule@[d as int]@[k],
            decreases schedule@[d as int].len() - h,
        {
            row.push(schedule[d][h]);
            h += 1;
        }
        proof {
            assert(row@ =~= schedule@[d as int]@);
        }
        out.push(row);
        d += 1;
    }
    proof {
        assert(grid(out@) =~= grid(schedule@));
    }
    out
}

/// What a session is there for.
#[derive(Clone, Copy, Debug, PartialEq, Eq, Structural)]
pub enum Role {
    Worker,
    Observer,
}

/// Whether a session of this name is a worker.
pub open spec fn is_worker_name(name: Seq<char>) -> bool {
    begins_with(name, "Worker"@)
}

/// The role that a name stands for.
pub open spec fn role_of(name: Seq<char>) -> Role {
    if is_worker_name(name) {
        Role::Worker
    } else {
        Role::Observer
    }
}

/// Decides the role of a session from its name.
pub fn role_for(name: &str) -> (role: Role)
    ensures
        role == role_of(name@),
{
    if starts_with(name, "Worker") {
        Role::Worker
    } else {
        Role::Observer
    }
}

/// A session as the contracts speak of it.
pub struct SessionView {
    pub handle: u64,
    pub name: Seq<char>,
    pub status: WorkerStatus,
    pub policy: Option<PolicyView>,
    pub outbound: Seq<Seq<char>>,
    pub closed: bool,
    pub current_job: Option<Seq<char>>,
}

/// One connected client.
#[derive(Clone, Debug)]
pub struct ClientSession {
    /// Given by the registry; no two sessions ever share one.
    pub handle: u64,
    /// Given by the client; several sessions may share one.
    pub name: String,
    pub status: WorkerStatus,
    pub policy: Option<Policy>,
    /// The frames that wait to be written, oldest first.
    pub outbound: Vec<String>,
    /// Whether the queue has stopped taking frames.
    pub closed: bool,
    /// The id of the job that the session works on.
    pub current_job: Option<String>,
}

impl View for ClientSession {
    type V = SessionView;

    open spec fn view(&self) -> SessionView {
        SessionView {
            handle: self.handle,
            name: self.name@,
            status: self.status,
            policy: policy_view(self.policy),
            outbound: texts(self.outbound@),
            closed: self.closed,
            current_job: match self.current_job {
                Some(id) => Some(id@),
                None => None,
            },
        }
    }
}

impl ClientSession {
    /// A copy that reads the same in every field.
    pub fn duplicate(&self) -> (out: ClientSession)
        ensures
            out@ == self@,
    {
        let policy = match &self.policy {
            Some(p) => Some(p.duplicate()),
            None => None,
        };
        let current_job = match &self.current_job {
            Some(id) => Some(id.clone()),
            None => None,
        };
        ClientSession {
            handle: self.handle,
            name: self.name.clone(),
            status: self.status,
            policy,
            outbound: copy_texts(&self.outbound),
            closed: self.closed,
            current_job,
        }
    }

    /// The role of the session.
    pub fn role(&self) -> (role: Role)
        ensures
            role == role_of(self@.name),
    {
        role_for(self.name.as_str())
    }
}

/// The queue is within its capacity; a session is busy exactly while it has
/// a job; and only a worker is ever busy.
pub open spec fn session_wf(s: SessionView) -> bool {
    &&& s.outbound.len() <= OUTBOUND_CAPACITY
    &&& (s.status == WorkerStatus::Busy <==> s.current_job is Some)
    &&& (s.status == WorkerStatus::Busy ==> is_worker_name(s.name))
}

/// Whether the queue of a session takes one more frame.
pub open spec fn can_accept(s: SessionView) -> bool {
    !s.closed && s.outbound.len() < OUTBOUND_CAPACITY
}

/// The session after `frame` was offered to its queue: with the frame at
/// the end of the queue, or unchanged where the queue did not take it.
pub open spec fn offered(s: SessionView, frame: Seq<char>) -> SessionView {
    if can_accept(s) {
        SessionView { outbound: s.outbound.push(frame), ..s }
    } else {
        s
    }
}

/// The sessions after `frame` was offered to every observer among them.
pub open spec fn fan_out(sessions: Seq<SessionView>, frame: Seq<char>) -> Seq<SessionView> {
    Seq::new(
        sessions.len(),
        |i: int|
            if is_worker_name(sessions[i].name) {
                sessions[i]
            } else {
                offered(sessions[i], frame)
            },
    )
}

/// Whether a session may be given a job for `target` at `slot`: it is a
/// worker, it is idle, it bears the name that the job asks for where the job
/// asks for one, and its policy lets the job in.
pub open spec fn eligible(s: SessionView, target: Option<Seq<char>>, slot: Slot) -> bool {
    &&& is_worker_name(s.name)
    &&& s.status == WorkerStatus::Idle
    &&& (target matches Some(name) ==> s.name == name)
    &&& admits(s.policy, slot)
}

/// The first session, in the order of the registry, that may be given a job
/// for `target` at `slot`.
pub open spec fn first_eligible(
    sessions: Seq<SessionView>,
    target: Option<Seq<char>>,
    slot: Slot,
) -> Option<int>
    decreases sessions.len(),
{
    if sessions.len() == 0 {
        None
    } else {
        match first_eligible(sessions.drop_last(), target, slot) {
            Some(i) => Some(i),
            None => if eligible(sessions.last(), target, slot) {
                Some(sessions.len() - 1)
            } else {
                None
            },
        }
    }
}

/// `first_eligible` gives an eligible session before which none is
/// eligible, and gives none only where no session is eligible.
pub proof fn lemma_first_eligible(
    sessions: Seq<SessionView>,
    target: Option<Seq<char>>,
    slot: Slot,
)
    ensures
        match first_eligible(sessions, target, slot) {
            Some(i) => {
                &&& 0 <= i < sessions.len()
                &&& eligible(sessions[i], target, slot)
                &&& forall|j: int| 0 <= j < i ==> !eligible(#[trigger] sessions[j], target, slot)
            },
            None => forall|j: int|
                0 <= j < sessions.len() ==> !eligible(#[trigger] sessions[j], target, slot),
        },
    decreases sessions.len(),
{
    if sessions.len() > 0 {
        let front = sessions.drop_last();
        lemma_first_eligible(front, target, slot);
        assert forall|j: int| 0 <= j < front.len() implies front[j] == sessions[j] by {}
        match first_eligible(front, target, slot) {
            Some(i) => {
                assert(front[i] == sessions[i]);
                assert forall|j: int| 0 <= j < i implies !eligible(
                    #[trigger] sessions[j],
                    target,
                    slot,
                ) by {
                    assert(front[j] == sessions[j]);
                }
            },
            None => {
                assert forall|j: int| 0 <= j < sessions.len() - 1 implies !eligible(
                    #[trigger] sessions[j],
                    target,
                    slot,
                ) by {
                    assert(front[j] == sessions[j]);
                }
            },
        }
    }
}

/// A session that is eligible and has no eligible session before it is the
/// one that `first_eligible` gives.
pub proof fn lemma_first_eligible_is(
    sessions: Seq<SessionView>,
    target: Option<Seq<char>>,
    slot: Slot,
    at: int,
)
    requires
        0 <= at < sessions.len(),
        eligible(sessions[at], target, slot),
        forall|j: int| 0 <= j < at ==> !eligible(#[trigger] sessions[j], target, slot),
    ensures
        first_eligible(sessions, target, slot) == Some(at),
{
    lemma_first_eligible(sessions, target, slot);
    match first_eligible(sessions, target, slot) {
        Some(i) => {
            if i < at {
                assert(!eligible(sessions[i], target, slot));
            } else if at < i {
                assert(!eligible(sessions[at], target, slot));
            }
        },
        None => {
            assert(!eligible(sessions[at], target, slot));
        },
    }
}

/// The registry as the contracts speak of it.
pub struct RegistryView {
    pub sessions: Seq<SessionView>,
    pub next_handle: u64,
}

/// Handles grow along the sessions and stay below the next handle to give
/// out, and every session is well formed.
pub open spec fn registry_wf(r: RegistryView) -> bool {
    &&& forall|i: int, j: int|
        0 <= i < j < r.sessions.len() ==> r.sessions[i].handle < r.sessions[j].handle
    &&& forall|i: int| 0 <= i < r.sessions.len() ==> r.sessions[i].handle < r.next_handle
    &&& forall|i: int| 0 <= i < r.sessions.len() ==> session_wf(#[trigger] r.sessions[i])
}

/// Some session bears `handle`.
pub open spec fn has_handle(sessions: Seq<SessionView>, handle: u64) -> bool {
    exists|i: int| 0 <= i < sessions.len() && sessions[i].handle == handle
}

/// The place of the session that bears `handle`, where there is one.
pub open spec fn place_of(sessions: Seq<SessionView>, handle: u64) -> int {
    choose|i: int| 0 <= i < sessions.len() && sessions[i].handle == handle
}

/// Some session bears `name`.
pub open spec fn has_name(sessions: Seq<SessionView>, name: Seq<char>) -> bool {
    exists|i: int| 0 <= i < sessions.len() && sessions[i].name == name
}

/// The workers among the sessions, in order.
pub open spec fn workers_of(sessions: Seq<SessionView>) -> Seq<SessionView> {
    sessions.filter(|s: SessionView| is_worker_name(s.name))
}

/// The observers among the sessions, in order.
pub open spec fn observers_of(sessions: Seq<SessionView>) -> Seq<SessionView> {
    sessions.filter(|s: SessionView| !is_worker_name(s.name))
}

/// The views of a list of sessions.
pub open spec fn session_views(sessions: Seq<ClientSession>) -> Seq<SessionView> {
    Seq::new(sessions.len(), |i: int| sessions[i]@)
}

/// A session as it is when it has just connected.
pub open spec fn fresh_session(
    handle: u64,
    name: Seq<char>,
    policy: Option<PolicyView>,
) -> SessionView {
    SessionView {
        handle,
        name,
        status: WorkerStatus::Idle,
        policy,
        outbound: Seq::empty(),
        closed: false,
        current_job: None,
    }
}

/// What became of a frame that was offered to a queue.
#[derive(Clone, Copy, Debug, PartialEq, Eq, Structural)]
pub enum Enqueue {
    /// The frame waits in the queue.
    Queued,
    /// The queue was full and the frame is lost.
    Dropped,
    /// The queue takes no more frames and the frame is lost.
    Closed,
}

/// What `offered` does to a frame, by the state of the queue.
pub open spec fn enqueue_outcome(s: SessionView) -> Enqueue {
    if s.closed {
        Enqueue::Closed
    } else if s.outbound.len() >= OUTBOUND_CAPACITY {
        Enqueue::Dropped
    } else {
        Enqueue::Queued
    }
}

/// The live sessions, in the order in which they connected.
pub struct Registry {
    sessions: Vec<ClientSession>,
    next_handle: u64,
}

impl View for Registry {
    type V = RegistryView;

    closed spec fn view(&self) -> RegistryView {
        RegistryView { sessions: session_views(self.sessions@), next_handle: self.next_handle }
    }
}

impl Registry {
    /// The registry is in order.
    pub open spec fn wf(&self) -> bool {
        registry_wf(self@)
    }

    /// A registry without sessions.
    pub fn new() -> (out: Registry)
        ensures
            out@.sessions == Seq::<SessionView>::empty(),
            out@.next_handle == 0,
            out.wf(),
    {
        let out = Registry { sessions: Vec::new(), next_handle: 0 };
        proof {
            assert(out@.sessions =~= Seq::<SessionView>::empty());
        }
        out
    }

    /// The number of sessions.
    pub fn len(&self) -> (n: usize)
        ensures
            n == self@.sessions.len(),
    {
        self.sessions.len()
    }

    /// Adds a session at the end and gives its handle. Gives `None`, and
    /// changes nothing, once every handle has been given out.
    pub fn add(&mut self, name: String, policy: Option<Policy>) -> (out: Option<u64>)
        requires
            old(self).wf(),
        ensures
            final(self).wf(),
            match out {
                Some(handle) => {
                    &&& handle == old(self)@.next_handle
                    &&& handle < u64::MAX
                    &&& final(self)@.next_handle == handle + 1
                    &&& final(self)@.sessions == old(self)@.sessions.push(
                        fresh_session(handle, name@, policy_view(policy)),
                    )
                },
                None => old(self)@.next_handle == u64::MAX && final(self)@ == old(self)@,
            },
    {
        if self.next_handle == u64::MAX {
            return None;
        }
        let handle = self.next_handle;
        let session = ClientSession {
            handle,
            name,
            status: WorkerStatus::Idle,
            policy,
            outbound: Vec::new(),
            closed: false,
            current_job: None,
        };
        proof {
            assert(session@.outbound =~= Seq::<Seq<char>>::empty());
        }
        self.sessions.push(session);
        self.next_handle = handle + 1;
        proof {
            assert(self@.sessions =~= old(self)@.sessions.push(
                fresh_session(handle, name@, policy_view(policy)),
            ));
            assert forall|i: int| 0 <= i < self@.sessions.len() implies session_wf(
                #[trigger] self@.sessions[i],
            ) by {
                if i < old(self)@.sessions.len() {
                    assert(self@.sessions[i] == old(self)@.sessions[i]);
                }
            }
        }
        Some(handle)
    }

    /// The place of the session that bears `handle`.
    pub fn position(&self, handle: u64) -> (out: Option<usize>)
        ensures
            match out {
                Some(at) => at < self@.sessions.len() && self@.sessions[at as int].handle
                    == handle,
                None => !has_handle(self@.sessions, handle),
            },
    {
        let mut i: usize = 0;
        while i < self.sessions.len()
            invariant
                i <= self.sessions.len(),
                forall|k: int| 0 <= k < i ==> self@.sessions[k].handle != handle,
            decreases self.sessions.len() - i,
        {
            if self.sessions[i].handle == handle {
                return Some(i);
            }
            i += 1;
        }
        None
    }

    /// A copy of the session at place `at`.
    pub fn get(&self, at: usize) -> (out: ClientSession)
        requires
            at < self@.sessions.len(),
        ensures
            out@ == self@.sessions[at as int],
    {
        self.sessions[at].duplicate()
    }

    /// Takes the session that bears `handle` out. Says whether there was
    /// one; the other sessions keep their order.
    pub fn remove(&mut self, handle: u64) -> (found: bool)
        requires
            old(self).wf(),
        ensures
            final(self).wf(),
            final(self)@.next_handle == old(self)@.next_handle,
            found == has_handle(old(self)@.sessions, handle),
            found ==> final(self)@.sessions == old(self)@.sessions.remove(
                place_of(old(self)@.sessions, handle),
            ),
            !found ==> final(self)@ == old(self)@,
    {
        match self.position(handle) {
            None => false,
            Some(at) => {
                proof {
                    lemma_place_of(self@, handle, at as int);
                }
                self.sessions.remove(at);
                proof {
                    assert(self@.sessions =~= old(self)@.sessions.remove(at as int));
                }
                true
            },
        }
    }

    /// Copies of all sessions, in order.
    pub fn snapshot(&self) -> (out: Vec<ClientSession>)
        ensures
            session_views(out@) == self@.sessions,
    {
        let mut out: Vec<ClientSession> = Vec::new();
        let mut i: usize = 0;
        while i < self.sessions.len()
            invariant
                i <= self.sessions.len(),
                out.len() == i,
                forall|k: int| 0 <= k < i ==> out@[k]@ == self@.sessions[k],
            decreases self.sessions.len() - i,
        {
            out.push(self.sessions[i].duplicate());
            i += 1;
        }
        proof {
            assert(session_views(out@) =~= self@.sessions);
        }
        out
    }

    /// A copy of the first session that bears `name`.
    pub fn find_by_name(&self, name: &str) -> (out: Option<ClientSession>)
        ensures
            match out {
                Some(s) => exists|at: int|
                    {
                        &&& 0 <= at < self@.sessions.len()
                        &&& s@ == self@.sessions[at]
                        &&& s@.name == name@
                        &&& forall|k: int| 0 <= k < at ==> self@.sessions[k].name != name@
                    },
                None => !has_name(self@.sessions, name@),
            },
    {
        let mut i: usize = 0;
        while i < self.sessions.len()
            invariant
                i <= self.sessions.len(),
                forall|k: int| 0 <= k < i ==> self@.sessions[k].name != name@,
            decreases self.sessions.len() - i,
        {
            if same_text(self.sessions[i].name.as_str(), name) {
                let s = self.sessions[i].duplicate();
                proof {
                    assert(s@ == self@.sessions[i as int]);
                }
                return Some(s);
            }
            i += 1;
        }
        None
    }

    /// Copies of the sessions of one role, in order.
    pub fn with_role(&self, role: Role) -> (out: Vec<ClientSession>)
        ensures
            session_views(out@) == self@.sessions.filter(|s: SessionView| role_of(s.name) == role),
    {
        let mut out: Vec<ClientSession> = Vec::new();
        let ghost all = self@.sessions;
        let ghost pred = |s: SessionView| role_of(s.name) == role;
        let mut i: usize = 0;
        proof {
            assert(all.take(0) =~= Seq::<SessionView>::empty());
            assert(session_views(out@) =~= all.take(0).filter(pred));
        }
        while i < self.sessions.len()
            invariant
                i <= self.sessions.len(),
                all == self@.sessions,
                pred == |s: SessionView| role_of(s.name) == role,
                session_views(out@) == all.take(i as int).filter(pred),
            decreases self.sessions.len() - i,
        {
            let ghost before = session_views(out@);
            proof {
                assert(all.take(i + 1) =~= all.take(i as int).push(all[i as int]));
                all.take(i as int).lemma_filter_push(all[i as int], pred);
            }
            if self.sessions[i].role() == role {
                out.push(self.sessions[i].duplicate());
                proof {
                    assert(session_views(out@) =~= before.push(all[i as int]));
                }
            }
            i += 1;
        }
        proof {
            assert(all.take(i as int) =~= all);
        }
        out
    }

    /// Copies of the workers, in order.
    pub fn workers(&self) -> (out: Vec<ClientSession>)
        ensures
            session_views(out@) == workers_of(self@.sessions),
    {
        let out = self.with_role(Role::Worker);
        proof {
            let a = |s: SessionView| role_of(s.name) == Role::Worker;
            let b = |s: SessionView| is_worker_name(s.name);
            assert forall|s: SessionView| #[trigger] a(s) == b(s) by {}
            assert(a =~= b);
        }
        out
    }

    /// Copies of the observers, in order.
    pub fn observers(&self) -> (out: Vec<ClientSession>)
        ensures
            session_views(out@) == observers_of(self@.sessions),
    {
        let out = self.with_role(Role::Observer);
        proof {
            let a = |s: SessionView| role_of(s.name) == Role::Observer;
            let b = |s: SessionView| !is_worker_name(s.name);
            assert forall|s: SessionView| #[trigger] a(s) == b(s) by {}
            assert(a =~= b);
        }
        out
    }

    /// Offers `frame` to the queue of the session at place `at`, and says
    /// what became of it.
    pub fn enqueue(&mut self, at: usize, frame: String) -> (out: Enqueue)
        requires
            old(self).wf(),
            at < old(self)@.sessions.len(),
        ensures
            final(self).wf(),
            final(self)@.next_handle == old(self)@.next_handle,
            out == enqueue_outcome(old(self)@.sessions[at as int]),
            final(self)@.sessions == old(self)@.sessions.update(
                at as int,
                offered(old(self)@.sessions[at as int], frame@),
            ),
    {
        if self.sessions[at].closed {
            proof {
                assert(self@.sessions =~= old(self)@.sessions.update(
                    at as int,
                    old(self)@.sessions[at as int],
                ));
            }
            return Enqueue::Closed;
        }
        if self.sessions[at].outbound.len() >= OUTBOUND_CAPACITY {
            proof {
                assert(self@.sessions =~= old(self)@.sessions.update(
                    at as int,
                    old(self)@.sessions[at as int],
                ));
            }
            return Enqueue::Dropped;
        }
        self.sessions[at].outbound.push(frame);
        proof {
            let before = old(self)@.sessions[at as int];
            assert(self@.sessions[at as int].outbound =~= before.outbound.push(frame@));
            assert(self@.sessions =~= old(self)@.sessions.update(
                at as int,
                offered(before, frame@),
            ));
            assert forall|i: int| 0 <= i < self@.sessions.len() implies session_wf(
                #[trigger] self@.sessions[i],
            ) by {
                if i != at {
                    assert(self@.sessions[i] == old(self)@.sessions[i]);
                } else {
                    assert(session_wf(old(self)@.sessions[i]));
                }
            }
        }
        Enqueue::Queued
    }

    /// Offers `frame` to the queue of every observer.
    pub fn broadcast(&mut self, frame: &str)
        requires
            old(self).wf(),
        ensures
            final(self).wf(),
            final(self)@.next_handle == old(self)@.next_handle,
            final(self)@.sessions == fan_out(old(self)@.sessions, frame@),
    {
        let mut i: usize = 0;
        while i < self.sessions.len()
            invariant
                i <= self.sessions.len(),
                self.wf(),
                self@.next_handle == old(self)@.next_handle,
                self@.sessions.len() == old(self)@.sessions.len(),
                forall|k: int|
                    0 <= k < i ==> self@.sessions[k] == fan_out(old(self)@.sessions, frame@)[k],
                forall|k: int|
                    i <= k < self@.sessions.len() ==> self@.sessions[k] == old(self)@.sessions[k],
            decreases self.sessions.len() - i,
        {
            if !starts_with(self.sessions[i].name.as_str(), "Worker") {
                let _ = self.enqueue(i, frame.to_owned());
            }
            proof {
                assert(self@.sessions.len() == self.sessions@.len());
            }
            i += 1;
        }
        proof {
            assert(self@.sessions =~= fan_out(old(self)@.sessions, frame@));
        }
    }

    /// Takes the waiting frames of the session at place `at`, oldest first,
    /// and leaves its queue empty.
    pub fn drain(&mut self, at: usize) -> (out: Vec<String>)
        requires
            old(self).wf(),
            at < old(self)@.sessions.len(),
        ensures
            final(self).wf(),
            final(self)@.next_handle == old(self)@.next_handle,
            texts(out@) == old(self)@.sessions[at as int].outbound,
            final(self)@.sessions == old(self)@.sessions.update(
                at as int,
                (SessionView { outbound: Seq::empty(), ..old(self)@.sessions[at as int] }),
            ),
    {
        let out = copy_texts(&self.sessions[at].outbound);
        self.sessions[at].outbound = Vec::new();
        proof {
            let before = old(self)@.sessions[at as int];
            assert(self@.sessions[at as int].outbound =~= Seq::<Seq<char>>::empty());
            assert(self@.sessions =~= old(self)@.sessions.update(
                at as int,
                (SessionView { outbound: Seq::empty(), ..before }),
            ));
            assert forall|i: int| 0 <= i < self@.sessions.len() implies session_wf(
                #[trigger] self@.sessions[i],
            ) by {
                if i != at {
                    assert(self@.sessions[i] == old(self)@.sessions[i]);
                } else {
                    assert(session_wf(old(self)@.sessions[i]));
                }
            }
        }
        out
    }

    /// Stops the queue of the session at place `at` from taking frames.
    pub fn close(&mut self, at: usize)
        requires
            old(self).wf(),
            at < old(self)@.sessions.len(),
        ensures
            final(self).wf(),
            final(self)@.next_handle == old(self)@.next_handle,
            final(self)@.sessions == old(self)@.sessions.update(
                at as int,
                (SessionView { closed: true, ..old(self)@.sessions[at as int] }),
            ),
    {
        self.sessions[at].closed = true;
        proof {
            let before = old(self)@.sessions[at as int];
            assert(self@.sessions =~= old(self)@.sessions.update(
                at as int,
                (SessionView { closed: true, ..before }),
            ));
            assert forall|i: int| 0 <= i < self@.sessions.len() implies session_wf(
                #[trigger] self@.sessions[i],
            ) by {
                if i != at {
                    assert(self@.sessions[i] == old(self)@.sessions[i]);
                } else {
                    assert(session_wf(old(self)@.sessions[i]));
                }
            }
        }
    }

    /// Gives the session at place `at` a new policy, or none.
    pub fn set_policy(&mut self, at: usize, policy: Option<Policy>)
        requires
            old(self).wf(),
            at < old(self)@.sessions.len(),
        ensures
            final(self).wf(),
            final(self)@.next_handle == old(self)@.next_handle,
            final(self)@.sessions == old(self)@.sessions.update(
                at as int,
                (SessionView { policy: policy_view(policy), ..old(self)@.sessions[at as int] }),
            ),
    {
        self.sessions[at].policy = policy;
        proof {
            let before = old(self)@.sessions[at as int];
            assert(self@.sessions =~= old(self)@.sessions.update(
                at as int,
                (SessionView { policy: policy_view(policy), ..before }),
            ));
            assert forall|i: int| 0 <= i < self@.sessions.len() implies session_wf(
                #[trigger] self@.sessions[i],
            ) by {
                if i != at {
                    assert(self@.sessions[i] == old(self)@.sessions[i]);
                } else {
                    assert(session_wf(old(self)@.sessions[i]));
                }
            }
        }
    }

    /// Makes the worker at place `at` busy with the job `job`.
    pub(crate) fn begin(&mut self, at: usize, job: String)
        requires
            old(self).wf(),
            at < old(self)@.sessions.len(),
            is_worker_name(old(self)@.sessions[at as int].name),
        ensures
            final(self).wf(),
            final(self)@.next_handle == old(self)@.next_handle,
            final(self)@.sessions == old(self)@.sessions.update(
                at as int,
                (SessionView {
                    status: WorkerStatus::Busy,
                    current_job: Some(job@),
                    ..old(self)@.sessions[at as int]
                }),
            ),
    {
        self.sessions[at].status = WorkerStatus::Busy;
        self.sessions[at].current_job = Some(job);
        proof {
            let before = old(self)@.sessions[at as int];
            assert(self@.sessions =~= old(self)@.sessions.update(
                at as int,
                (SessionView { status: WorkerStatus::Busy, current_job: Some(job@), ..before }),
            ));
            assert forall|i: int| 0 <= i < self@.sessions.len() implies session_wf(
                #[trigger] self@.sessions[i],
            ) by {
                if i != at {
                    assert(self@.sessions[i] == old(self)@.sessions[i]);
                } else {
                    assert(session_wf(old(self)@.sessions[i]));
                }
            }
        }
    }

    /// Makes the session at place `at` idle and gives the id of the job that
    /// it was busy with.
    pub(crate) fn release(&mut self, at: usize) -> (job: Option<String>)
        requires
            old(self).wf(),
            at < old(self)@.sessions.len(),
        ensures
            final(self).wf(),
            final(self)@.next_handle == old(self)@.next_handle,
            match job {
                Some(id) => old(self)@.sessions[at as int].current_job == Some(id@),
                None => old(self)@.sessions[at as int].current_job is None,
            },
            final(self)@.sessions == old(self)@.sessions.update(
                at as int,
                (SessionView {
                    status: WorkerStatus::Idle,
                    current_job: None,
                    ..old(self)@.sessions[at as int]
                }),
            ),
    {
        let job = match &self.sessions[at].current_job {
            Some(id) => Some(id.clone()),
            None => None,
        };
        self.sessions[at].status = WorkerStatus::Idle;
        self.sessions[at].current_job = None;
        proof {
            let before = old(self)@.sessions[at as int];
            assert(self@.sessions =~= old(self)@.sessions.update(
                at as int,
                (SessionView { status: WorkerStatus::Idle, current_job: None, ..before }),
            ));
            assert forall|i: int| 0 <= i < self@.sessions.len() implies session_wf(
                #[trigger] self@.sessions[i],
            ) by {
                if i != at {
                    assert(self@.sessions[i] == old(self)@.sessions[i]);
                } else {
                    assert(session_wf(old(self)@.sessions[i]));
                }
            }
        }
        job
    }

    /// The place of the first session that may be given a job for `target`
    /// at `slot`.
    pub(crate) fn find_eligible(&self, target: Option<&str>, slot: Slot) -> (out: Option<usize>)
        ensures
            match out {
                Some(at) => first_eligible(
                    self@.sessions,
                    target_view(target),
                    slot,
                ) == Some(at as int) && at < self@.sessions.len(),
                None => first_eligible(self@.sessions, target_view(target), slot) is None,
            },
    {
        let ghost want = target_view(target);
        let mut i: usize = 0;
        while i < self.sessions.len()
            invariant
                i <= self.sessions.len(),
                want == target_view(target),
                forall|k: int| 0 <= k < i ==> !eligible(#[trigger] self@.sessions[k], want, slot),
            decreases self.sessions.len() - i,
        {
            let s = &self.sessions[i];
            let named = match target {
                Some(name) => same_text(s.name.as_str(), name),
                None => true,
            };
            let admitted = match &s.policy {
                Some(p) => p.allows(slot),
                None => true,
            };
            if starts_with(s.name.as_str(), "Worker") && s.status == WorkerStatus::Idle && named
                && admitted {
                proof {
                    assert(eligible(self@.sessions[i as int], want, slot));
                    lemma_first_eligible_is(self@.sessions, want, slot, i as int);
                }
                return Some(i);
            }
            proof {
                assert(!eligible(self@.sessions[i as int], want, slot));
            }
            i += 1;
        }
        proof {
            lemma_first_eligible(self@.sessions, want, slot);
        }
        None
    }
}

/// The view of an optional name.
pub open spec fn target_view(target: Option<&str>) -> Option<Seq<char>> {
    match target {
        Some(name) => Some(name@),
        None => None,
    }
}

/// In a registry that is in order, a handle stands at one place only.
pub proof fn lemma_place_of(r: RegistryView, handle: u64, at: int)
    requires
        registry_wf(r),
        0 <= at < r.sessions.len(),
        r.sessions[at].handle == handle,
    ensures
        has_handle(r.sessions, handle),
        place_of(r.sessions, handle) == at,
{
    let p = place_of(r.sessions, handle);
    if p < at {
        assert(r.sessions[p].handle < r.sessions[at].handle);
    } else if at < p {
        assert(r.sessions[at].handle < r.sessions[p].handle);
    }
}

} // verus!
