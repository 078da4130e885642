//! The coordinator: the job table and the registry behind one door.
//!
//! Every method takes the coordinator from one state to the next in one
//! piece, so whoever shares a coordinator behind a lock never sees, and never
//! leaves, a state in which a worker is busy with a job that the table does
//! not know of. The methods neither wait nor read a clock: the caller hands
//! in the time, and writes the frames that it finds in the queues.

use crate::event::Event;
use crate::frames::{classify, kind_of, FrameKind};
use crate::ids::{canonical, fresh_id};
use crate::intake::{read_request, read_target, request_of, target_of};
use crate::model::{
    accepted, admitted, announce, charged, completed_event, connected, departed, dispatched,
    finished,
    heard, holds_job, in_flight_on, lemma_admitted_keeps_wf, lemma_announce_keeps_wf, lemma_departed_keeps_wf,
    lemma_finished_keeps_wf, lemma_job_in_hand, lemma_place_keeps_wf, lemma_placement,
    lemma_queued_keeps_wf, lemma_swept_shape, pending_event, place, processing_event, queued,
    reply_to, sweep_log, swept, system_wf, told, AssignmentView, CoordinatorView,
};
use crate::registry::{
    has_handle, lemma_first_eligible, lemma_place_of, observers_of, place_of, policy_view,
    registry_wf, session_views, workers_of, ClientSession, Enqueue, Policy, Registry,
    RegistryView, SessionView, Slot,
};
use crate::status::JobStatus;
use crate::store::{
    capped, copy_texts, distinct_tags, has_id, has_line, occurrences, pending_of, row_of,
    table_wf, tally, texts, JobRecord, JobStore, JobView, TagCount,
};
use vstd::prelude::*;
use vstd::string::StringExecFns;

verus! {

/// A job that the dispatcher has handed to a worker.
#[derive(Clone, Debug)]
pub struct Assignment {
    pub job_id: String,
    /// The handle of the session that has the job.
    pub worker: u64,
    pub worker_name: String,
}

impl View for Assignment {
    type V = AssignmentView;

    open spec fn view(&self) -> AssignmentView {
        AssignmentView {
            job_id: self.job_id@,
            worker: self.worker,
            worker_name: self.worker_name@,
        }
    }
}

/// The views of a list of assignments.
pub open spec fn assignment_views(list: Seq<Assignment>) -> Seq<AssignmentView> {
    Seq::new(list.len(), |i: int| list[i]@)
}

/// The view of an assignment that may not be there.
pub open spec fn assignment_view(a: Option<Assignment>) -> Option<AssignmentView> {
    match a {
        Some(a) => Some(a@),
        None => None,
    }
}

/// The name that a session goes by: the one it gave, or `Unknown`.
pub open spec fn session_name(given: Option<String>) -> Seq<char> {
    match given {
        Some(name) => name@,
        None => "Unknown"@,
    }
}

/// What became of a client that asked to connect.
#[derive(Clone, Debug)]
pub struct Connected {
    /// The handle that the session goes by from now on.
    pub handle: u64,
    /// The jobs that the sweep after the connection has placed.
    pub assignments: Vec<Assignment>,
}

/// What became of a submission.
#[derive(Clone, Debug)]
pub struct Submitted {
    /// The id that the submission was given.
    pub id: String,
    /// What the submitter is told.
    pub reply: String,
    /// Whether the job is in the table.
    pub stored: bool,
    /// The jobs that the sweep after the submission has placed.
    pub assignments: Vec<Assignment>,
}

/// What became of a frame that a session sent.
#[derive(Clone, Debug)]
pub struct Heard {
    pub kind: FrameKind,
    /// The id of the job that the frame has completed.
    pub completed: Option<String>,
    /// The jobs that the sweep after a completion has placed.
    pub assignments: Vec<Assignment>,
}

/// Offers the frame of an event to every observer of a registry.
fn announce_to(registry: &mut Registry, event: &Event)
    requires
        old(registry).wf(),
    ensures
        final(registry).wf(),
        final(registry)@.next_handle == old(registry)@.next_handle,
        final(registry)@.sessions == announce(old(registry)@.sessions, event@),
{
    match event.render() {
        Some(frame) => registry.broadcast(frame.as_str()),
        None => {},
    }
}

/// The table and the registry, with their agreement as a condition that
/// every step asks for and keeps.
struct Engine {
    store: JobStore,
    registry: Registry,
}

impl View for Engine {
    type V = CoordinatorView;

    closed spec fn view(&self) -> CoordinatorView {
        CoordinatorView {
            jobs: self.store@,
            sessions: self.registry@.sessions,
            next_handle: self.registry@.next_handle,
        }
    }
}

impl Engine {
    /// The table and the registry are each in order, and they agree.
    spec fn wf(&self) -> bool {
        system_wf(self@)
    }

    /// An engine without jobs and without sessions.
    fn new() -> (out: Engine)
        ensures
            out.wf(),
            out@.jobs == Seq::<JobView>::empty(),
            out@.sessions == Seq::<SessionView>::empty(),
            out@.next_handle == 0,
    {
        Engine { store: JobStore::new(), registry: Registry::new() }
    }

    /// An engine over the rows of an earlier run.
    fn restore(rows: Vec<JobRecord>) -> (out: Option<Engine>)
        ensures
            match out {
                Some(c) => {
                    &&& c.wf()
                    &&& c@.jobs == Seq::new(rows@.len(), |i: int| rows@[i]@)
                    &&& c@.sessions == Seq::<SessionView>::empty()
                    &&& c@.next_handle == 0
                },
                None => {
                    let jobs = Seq::new(rows@.len(), |i: int| rows@[i]@);
                    !table_wf(jobs) || exists|k: int|
                        0 <= k < jobs.len() && (#[trigger] jobs[k]).worker is Some
                },
            },
    {
        let ghost jobs = Seq::new(rows@.len(), |i: int| rows@[i]@);
        let mut i: usize = 0;
        while i < rows.len()
            invariant
                i <= rows.len(),
                jobs == Seq::new(rows@.len(), |i: int| rows@[i]@),
                forall|k: int| 0 <= k < i ==> (#[trigger] jobs[k]).worker is None,
            decreases rows.len() - i,
        {
            if rows[i].worker.is_some() {
                proof {
                    assert(jobs[i as int].worker is Some);
                }
                return None;
            }
            i += 1;
        }
        match JobStore::restore(rows) {
            Some(store) => Some(Engine { store, registry: Registry::new() }),
            None => None,
        }
    }

    /// One step of the dispatcher, on row `at`.
    fn dispatch_job(&mut self, at: usize, slot: Slot, now: u64) -> (out: Option<Assignment>)
        requires
            old(self).wf(),
        ensures
            final(self).wf(),
            final(self)@ == place(old(self)@, at as int, slot, now),
            assignment_view(out) == told(old(self)@, at as int, slot),
    {
        let ghost c = self@;
        if at >= self.store.len() {
            return None;
        }
        proof {
            lemma_placement(c, at as int, slot);
            lemma_place_keeps_wf(c, at as int, slot, now);
            assert(self.registry@ == RegistryView {
                sessions: c.sessions,
                next_handle: c.next_handle,
            });
        }
        if self.store.status_at(at) != JobStatus::Pending {
            return None;
        }
        let job = self.store.get(at);
        let target = read_target(job.body.as_str());
        let found = match &target {
            Some(name) => self.registry.find_eligible(Some(name.as_str()), slot),
            None => self.registry.find_eligible(None, slot),
        };
        let w = match found {
            Some(w) => w,
            None => {
                return None;
            },
        };
        let ghost s = c.sessions[w as int];
        proof {
            lemma_first_eligible(c.sessions, target_of(c.jobs[at as int].body), slot);
        }
        let session = self.registry.get(w);
        self.registry.begin(w, job.id.clone());
        let sent = self.registry.enqueue(w, job.body.clone());
        match sent {
            Enqueue::Queued => {},
            _ => {
                // The frame was not taken: the worker is free again and the
                // job waits for the next sweep.
                let _ = self.registry.release(w);
                proof {
                    assert(self.registry@.sessions =~= c.sessions);
                }
                return None;
            },
        }
        proof {
            assert(self.registry@.sessions =~= c.sessions.update(
                w as int,
                charged(s, c.jobs[at as int]),
            ));
            let r = row_of(c.jobs, job.id@);
            assert(c.jobs[at as int].id == job.id@);
            if r < at {
                assert(c.jobs[r].id != c.jobs[at as int].id);
            } else if at < r {
                assert(c.jobs[at as int].id != c.jobs[r].id);
            }
        }
        let won = self.store.assign(job.id.as_str(), session.handle);
        if !won {
            // The job is no longer pending: the worker is free again.
            let _ = self.registry.release(w);
            return None;
        }
        let mut message = "Job picked up by ".to_owned();
        message.append(session.name.as_str());
        let event = Event {
            id: job.id.clone(),
            status: JobStatus::Processing,
            message,
            timestamp: now,
            tags: job.tags,
        };
        proof {
            assert(event@ == processing_event(c.jobs[at as int], s.name, now));
        }
        announce_to(&mut self.registry, &event);
        Some(Assignment { job_id: job.id, worker: session.handle, worker_name: session.name })
    }

    /// One sweep of the dispatcher.
    fn dispatch(&mut self, slot: Slot, now: u64) -> (out: Vec<Assignment>)
        requires
            old(self).wf(),
        ensures
            final(self).wf(),
            final(self)@ == dispatched(old(self)@, slot, now),
            assignment_views(out@) == sweep_log(old(self)@, slot, now, old(self)@.jobs.len()),
    {
        let ghost c = self@;
        let mut out: Vec<Assignment> = Vec::new();
        let n = self.store.len();
        let mut i: usize = 0;
        proof {
            assert(assignment_views(out@) =~= sweep_log(c, slot, now, 0));
        }
        while i < n
            invariant
                i <= n,
                n == c.jobs.len(),
                self.wf(),
                self@ == swept(c, slot, now, i as nat),
                assignment_views(out@) == sweep_log(c, slot, now, i as nat),
            decreases n - i,
        {
            proof {
                lemma_swept_shape(c, slot, now, i as nat);
            }
            let ghost before = assignment_views(out@);
            match self.dispatch_job(i, slot, now) {
                Some(a) => {
                    out.push(a);
                    proof {
                        assert(assignment_views(out@) =~= before.push(a@));
                    }
                },
                None => {},
            }
            i += 1;
        }
        out
    }

    /// Tells the observers of an event.
    fn emit(&mut self, event: &Event)
        requires
            old(self).wf(),
        ensures
            final(self).wf(),
            final(self)@ == (CoordinatorView {
                sessions: announce(old(self)@.sessions, event@),
                ..old(self)@
            }),
    {
        proof {
            lemma_announce_keeps_wf(self@, event@);
            assert(self.registry@ == RegistryView {
                sessions: self@.sessions,
                next_handle: self@.next_handle,
            });
        }
        announce_to(&mut self.registry, event);
    }

    /// Registers and greets a client, then sweeps.
    fn connect(
        &mut self,
        name: Option<String>,
        policy: Option<Policy>,
        slot: Slot,
        now: u64,
    ) -> (out: Option<Connected>)
        requires
            old(self).wf(),
        ensures
            final(self).wf(),
            final(self)@ == connected(
                old(self)@,
                session_name(name),
                policy_view(policy),
                slot,
                now,
            ),
            match out {
                Some(done) => {
                    &&& old(self)@.next_handle < u64::MAX
                    &&& done.handle == old(self)@.next_handle
                    &&& assignment_views(done.assignments@) == sweep_log(
                        admitted(old(self)@, session_name(name), policy_view(policy)),
                        slot,
                        now,
                        old(self)@.jobs.len(),
                    )
                },
                None => old(self)@.next_handle == u64::MAX,
            },
    {
        let ghost c = self@;
        proof {
            assert(self.registry@ == RegistryView {
                sessions: c.sessions,
                next_handle: c.next_handle,
            });
        }
        let name = match name {
            Some(name) => name,
            None => "Unknown".to_owned(),
        };
        let handle = match self.registry.add(name, policy) {
            Some(handle) => handle,
            None => {
                return None;
            },
        };
        let at = self.registry.len() - 1;
        let _ = self.registry.enqueue(at, "Welcome to NeuraGrid".to_owned());
        proof {
            lemma_admitted_keeps_wf(c, name@, policy_view(policy));
            assert(self@.sessions =~= admitted(c, name@, policy_view(policy)).sessions);
            assert(self@ == admitted(c, name@, policy_view(policy)));
        }
        let assignments = self.dispatch(slot, now);
        Some(Connected { handle, assignments })
    }

    /// Lets a session go.
    fn disconnect(&mut self, handle: u64) -> (found: bool)
        requires
            old(self).wf(),
        ensures
            final(self).wf(),
            final(self)@ == departed(old(self)@, handle),
            found == has_handle(old(self)@.sessions, handle),
    {
        proof {
            lemma_departed_keeps_wf(self@, handle);
            assert(self.registry@ == RegistryView {
                sessions: self@.sessions,
                next_handle: self@.next_handle,
            });
        }
        self.registry.remove(handle)
    }

    /// Takes a text frame from a session.
    fn receive(&mut self, handle: u64, text: &str, slot: Slot, now: u64) -> (out: Heard)
        requires
            old(self).wf(),
        ensures
            final(self).wf(),
            final(self)@ == heard(old(self)@, handle, text@, slot, now),
            out.kind == kind_of(text@),
            has_handle(old(self)@.sessions, handle) && out.kind == FrameKind::Completion ==> {
                let at = place_of(old(self)@.sessions, handle);
                &&& assignment_views(out.assignments@) == sweep_log(
                    finished(old(self)@, at, now),
                    slot,
                    now,
                    old(self)@.jobs.len(),
                )
                &&& match out.completed {
                    Some(id) => old(self)@.sessions[at].current_job == Some(id@),
                    None => old(self)@.sessions[at].current_job is None,
                }
            },
            !(has_handle(old(self)@.sessions, handle) && out.kind == FrameKind::Completion)
                ==> out.completed is None && out.assignments@.len() == 0,
    {
        let ghost c = self@;
        proof {
            assert(self.registry@ == RegistryView {
                sessions: c.sessions,
                next_handle: c.next_handle,
            });
        }
        let kind = classify(text);
        if kind != FrameKind::Completion {
            return Heard { kind, completed: None, assignments: Vec::new() };
        }
        let at = match self.registry.position(handle) {
            Some(at) => at,
            None => {
                return Heard { kind, completed: None, assignments: Vec::new() };
            },
        };
        proof {
            lemma_place_of(self.registry@, handle, at as int);
            lemma_finished_keeps_wf(c, at as int, now);
            lemma_job_in_hand(c, at as int);
        }
        let session = self.registry.get(at);
        let completed = self.registry.release(at);
        match &completed {
            Some(id) => {
                let found = self.store.find(id.as_str());
                let won = self.store.advance(id.as_str(), JobStatus::Completed);
                match found {
                    Some(job) => {
                        if won {
                            let mut message = "Job completed by ".to_owned();
                            message.append(session.name.as_str());
                            let event = Event {
                                id: job.id,
                                status: JobStatus::Completed,
                                message,
                                timestamp: now,
                                tags: job.tags,
                            };
                            proof {
                                let k = row_of(c.jobs, id@);
                                assert(job@ == c.jobs[k]) by {
                                    let r = choose|r: int| 0 <= r < c.jobs.len() && c.jobs[r] == job@;
                                    if r < k {
                                        assert(c.jobs[r].id != c.jobs[k].id);
                                    } else if k < r {
                                        assert(c.jobs[k].id != c.jobs[r].id);
                                    }
                                }
                                assert(event@ == completed_event(
                                    c.jobs[k],
                                    c.sessions[at as int].name,
                                    now,
                                ));
                            }
                            announce_to(&mut self.registry, &event);
                        }
                    },
                    None => {},
                }
            },
            None => {},
        }
        proof {
            assert(self@ == finished(c, at as int, now));
        }
        let assignments = self.dispatch(slot, now);
        Heard { kind, completed, assignments }
    }

    /// Takes a submission under a given id.
    fn accept(&mut self, body: &str, id: String, slot: Slot, now: u64) -> (out: Submitted)
        requires
            old(self).wf(),
        ensures
            final(self).wf(),
            final(self)@ == accepted(old(self)@, body@, id@, slot, now),
            out.id@ == id@,
            out.reply@ == reply_to(body@, id@),
            out.stored == (request_of(body@) is Some && !has_id(old(self)@.jobs, id@)),
            match request_of(body@) {
                Some(request) if !has_id(old(self)@.jobs, id@) => assignment_views(
                    out.assignments@,
                ) == sweep_log(
                    queued(old(self)@, id@, body@, request, now),
                    slot,
                    now,
                    (old(self)@.jobs.len() + 1) as nat,
                ),
                _ => out.assignments@.len() == 0,
            },
    {
        let ghost c = self@;
        proof {
            assert(self.registry@ == RegistryView {
                sessions: c.sessions,
                next_handle: c.next_handle,
            });
        }
        let request = match read_request(body) {
            Some(request) => request,
            None => {
                return Submitted {
                    id,
                    reply: "Invalid JSON".to_owned(),
                    stored: false,
                    assignments: Vec::new(),
                };
            },
        };
        let mut reply = "Job ".to_owned();
        reply.append(id.as_str());
        reply.append(" queued");
        let mut message = "New Job Submitted: ".to_owned();
        message.append(id.as_str());
        let event = Event {
            id: id.clone(),
            status: JobStatus::Pending,
            message,
            timestamp: now,
            tags: match &request.tags {
                Some(list) => Some(copy_texts(list)),
                None => None,
            },
        };
        proof {
            assert(event@ == pending_event(id@, request@.tags, now));
        }
        let inserted = self.store.insert(
            id.clone(),
            body.to_owned(),
            request.job_type,
            request.tags,
            now,
        );
        announce_to(&mut self.registry, &event);
        match inserted {
            Ok(_) => {
                proof {
                    lemma_queued_keeps_wf(c, id@, body@, request@, now);
                    assert(self@ == queued(c, id@, body@, request@, now));
                }
                let assignments = self.dispatch(slot, now);
                Submitted { id, reply, stored: true, assignments }
            },
            Err(_) => {
                proof {
                    lemma_announce_keeps_wf(c, event@);
                }
                Submitted { id, reply, stored: false, assignments: Vec::new() }
            },
        }
    }

    /// Empties the queue of a session.
    fn take_outbound(&mut self, handle: u64) -> (out: Vec<String>)
        requires
            old(self).wf(),
        ensures
            final(self).wf(),
            final(self)@.jobs == old(self)@.jobs,
            final(self)@.next_handle == old(self)@.next_handle,
            has_handle(old(self)@.sessions, handle) ==> {
                let at = place_of(old(self)@.sessions, handle);
                &&& texts(out@) == old(self)@.sessions[at].outbound
                &&& final(self)@.sessions == old(self)@.sessions.update(
                    at,
                    (SessionView { outbound: Seq::empty(), ..old(self)@.sessions[at] }),
                )
            },
            !has_handle(old(self)@.sessions, handle) ==> out@.len() == 0 && final(self)@ == old(
                self,
            )@,
    {
        let ghost c = self@;
        proof {
            assert(self.registry@ == RegistryView {
                sessions: c.sessions,
                next_handle: c.next_handle,
            });
        }
        match self.registry.position(handle) {
            Some(at) => {
                proof {
                    lemma_place_of(self.registry@, handle, at as int);
                }
                let out = self.registry.drain(at);
                proof {
                    let d = self@;
                    lemma_session_touched(c, d, at as int);
                }
                out
            },
            None => Vec::new(),
        }
    }

    /// Closes the queue of a session.
    fn close_outbound(&mut self, handle: u64) -> (found: bool)
        requires
            old(self).wf(),
        ensures
            final(self).wf(),
            final(self)@.jobs == old(self)@.jobs,
            final(self)@.next_handle == old(self)@.next_handle,
            found == has_handle(old(self)@.sessions, handle),
            found ==> {
                let at = place_of(old(self)@.sessions, handle);
                final(self)@.sessions == old(self)@.sessions.update(
                    at,
                    (SessionView { closed: true, ..old(self)@.sessions[at] }),
                )
            },
            !found ==> final(self)@ == old(self)@,
    {
        let ghost c = self@;
        proof {
            assert(self.registry@ == RegistryView {
                sessions: c.sessions,
                next_handle: c.next_handle,
            });
        }
        match self.registry.position(handle) {
            Some(at) => {
                proof {
                    lemma_place_of(self.registry@, handle, at as int);
                }
                self.registry.close(at);
                proof {
                    let d = self@;
                    lemma_session_touched(c, d, at as int);
                }
                true
            },
            None => false,
        }
    }

    /// Gives a session a policy.
    fn set_policy(&mut self, handle: u64, policy: Option<Policy>) -> (found: bool)
        requires
            old(self).wf(),
        ensures
            final(self).wf(),
            final(self)@.jobs == old(self)@.jobs,
            final(self)@.next_handle == old(self)@.next_handle,
            found == has_handle(old(self)@.sessions, handle),
            found ==> {
                let at = place_of(old(self)@.sessions, handle);
                final(self)@.sessions == old(self)@.sessions.update(
                    at,
                    (SessionView { policy: policy_view(policy), ..old(self)@.sessions[at] }),
                )
            },
            !found ==> final(self)@ == old(self)@,
    {
        let ghost c = self@;
        proof {
            assert(self.registry@ == RegistryView {
                sessions: c.sessions,
                next_handle: c.next_handle,
            });
        }
        match self.registry.position(handle) {
            Some(at) => {
                proof {
                    lemma_place_of(self.registry@, handle, at as int);
                }
                self.registry.set_policy(at, policy);
                proof {
                    let d = self@;
                    lemma_session_touched(c, d, at as int);
                }
                true
            },
            None => false,
        }
    }
}

/// The coordinator. Its table and its registry are in order and agree at
/// all times: no step can be taken that would leave them otherwise.
pub struct Coordinator {
    engine: Engine,
}

impl View for Coordinator {
    type V = CoordinatorView;

    closed spec fn view(&self) -> CoordinatorView {
        self.engine@
    }
}

impl Coordinator {
    #[verifier::type_invariant]
    spec fn inv(&self) -> bool {
        self.engine.wf()
    }

    /// The table and the registry are each in order, and they agree.
    pub open spec fn wf(&self) -> bool {
        system_wf(self@)
    }

    /// Every coordinator is in order, whenever one looks.
    pub fn in_order(&self)
        ensures
            self.wf(),
    {
        proof {
            use_type_invariant(self);
        }
    }

    /// A coordinator without jobs and without sessions.
    pub fn new() -> (out: Coordinator)
        ensures
            out@.jobs == Seq::<JobView>::empty(),
            out@.sessions == Seq::<SessionView>::empty(),
            out@.next_handle == 0,
    {
        Coordinator { engine: Engine::new() }
    }

    /// A coordinator over the rows of an earlier run, each as it was, and
    /// without sessions. The rows are refused where two share an id, where
    /// they are not in order of arrival, or where one names a session.
    pub fn restore(rows: Vec<JobRecord>) -> (out: Option<Coordinator>)
        ensures
            match out {
                Some(c) => {
                    &&& c@.jobs == Seq::new(rows@.len(), |i: int| rows@[i]@)
                    &&& c@.sessions == Seq::<SessionView>::empty()
                    &&& c@.next_handle == 0
                },
                None => {
                    let jobs = Seq::new(rows@.len(), |i: int| rows@[i]@);
                    !table_wf(jobs) || exists|k: int|
                        0 <= k < jobs.len() && (#[trigger] jobs[k]).worker is Some
                },
            },
    {
        match Engine::restore(rows) {
            Some(engine) => Some(Coordinator { engine }),
            None => None,
        }
    }

    /// Hands the job in row `at` to the first worker that may have it: the
    /// worker becomes busy, the text of the job goes into its queue, the job
    /// becomes processing, and the observers are told. Where there is no
    /// such row, the job is not pending, no worker may have it, or the queue
    /// of the worker takes no frame, nothing changes.
    pub fn dispatch_job(&mut self, at: usize, slot: Slot, now: u64) -> (out: Option<Assignment>)
        ensures
            final(self)@ == place(old(self)@, at as int, slot, now),
            assignment_view(out) == told(old(self)@, at as int, slot),
    {
        proof {
            use_type_invariant(&*self);
        }
        let mut engine = Engine::new();
        std::mem::swap(&mut self.engine, &mut engine);
        let out = engine.dispatch_job(at, slot, now);
        self.engine = engine;
        out
    }

    /// One sweep of the dispatcher: goes through the table, oldest job
    /// first, and hands every pending job to the first worker that may have
    /// it. Tells the placements that it has made, in the order in which it
    /// made them.
    pub fn dispatch(&mut self, slot: Slot, now: u64) -> (out: Vec<Assignment>)
        ensures
            final(self)@ == dispatched(old(self)@, slot, now),
            assignment_views(out@) == sweep_log(old(self)@, slot, now, old(self)@.jobs.len()),
    {
        proof {
            use_type_invariant(&*self);
        }
        let mut engine = Engine::new();
        std::mem::swap(&mut self.engine, &mut engine);
        let out = engine.dispatch(slot, now);
        self.engine = engine;
        out
    }

    /// Tells the observers of an event: the frame of the event goes to the
    /// end of the queue of every observer whose queue takes it. Workers get
    /// no events.
    pub fn emit(&mut self, event: &Event)
        ensures
            final(self)@ == (CoordinatorView {
                sessions: announce(old(self)@.sessions, event@),
                ..old(self)@
            }),
    {
        proof {
            use_type_invariant(&*self);
        }
        let mut engine = Engine::new();
        std::mem::swap(&mut self.engine, &mut engine);
        engine.emit(event);
        self.engine = engine;
    }

    /// Takes a client in: registers a session under the name that the
    /// client gave, or under `Unknown`, puts the greeting into its queue, and
    /// sweeps the table, since a pending job may have waited for this worker.
    /// Gives `None`, and changes nothing, once the handles have run out.
    pub fn connect(
        &mut self,
        name: Option<String>,
        policy: Option<Policy>,
        slot: Slot,
        now: u64,
    ) -> (out: Option<Connected>)
        ensures
            final(self)@ == connected(
                old(self)@,
                session_name(name),
                policy_view(policy),
                slot,
                now,
            ),
            match out {
                Some(done) => {
                    &&& old(self)@.next_handle < u64::MAX
                    &&& done.handle == old(self)@.next_handle
                    &&& assignment_views(done.assignments@) == sweep_log(
                        admitted(old(self)@, session_name(name), policy_view(policy)),
                        slot,
                        now,
                        old(self)@.jobs.len(),
                    )
                },
                None => old(self)@.next_handle == u64::MAX,
            },
    {
        proof {
            use_type_invariant(&*self);
        }
        let mut engine = Engine::new();
        std::mem::swap(&mut self.engine, &mut engine);
        let out = engine.connect(name, policy, slot, now);
        self.engine = engine;
        out
    }

    /// Lets the session that bears `handle` go, and says whether there was
    /// one. A job that the session was busy with stays processing.
    pub fn disconnect(&mut self, handle: u64) -> (found: bool)
        ensures
            final(self)@ == departed(old(self)@, handle),
            found == has_handle(old(self)@.sessions, handle),
    {
        proof {
            use_type_invariant(&*self);
        }
        let mut engine = Engine::new();
        std::mem::swap(&mut self.engine, &mut engine);
        let found = engine.disconnect(handle);
        self.engine = engine;
        found
    }

    /// Takes a text frame from the session that bears `handle`. A frame
    /// that reports completion makes the session idle, completes the job
    /// that it was busy with, tells the observers, and sweeps the table.
    /// Every other frame, and every frame from a session that is not there,
    /// changes nothing.
    pub fn receive(&mut self, handle: u64, text: &str, slot: Slot, now: u64) -> (out: Heard)
        ensures
            final(self)@ == heard(old(self)@, handle, text@, slot, now),
            out.kind == kind_of(text@),
            has_handle(old(self)@.sessions, handle) && out.kind == FrameKind::Completion ==> {
                let at = place_of(old(self)@.sessions, handle);
                &&& assignment_views(out.assignments@) == sweep_log(
                    finished(old(self)@, at, now),
                    slot,
                    now,
                    old(self)@.jobs.len(),
                )
                &&& match out.completed {
                    Some(id) => old(self)@.sessions[at].current_job == Some(id@),
                    None => old(self)@.sessions[at].current_job is None,
                }
            },
            !(has_handle(old(self)@.sessions, handle) && out.kind == FrameKind::Completion)
                ==> out.completed is None && out.assignments@.len() == 0,
    {
        proof {
            use_type_invariant(&*self);
        }
        let mut engine = Engine::new();
        std::mem::swap(&mut self.engine, &mut engine);
        let out = engine.receive(handle, text, slot, now);
        self.engine = engine;
        out
    }

    /// Takes a submission under the id `id`. A text that is no JSON is
    /// answered with `Invalid JSON` and changes nothing. Every other text is
    /// answered with `Job <id> queued`: the job goes to the end of the table
    /// as pending, the observers are told, and the table is swept. Where the
    /// table has the id already, it refuses the job; the answer is the same,
    /// the observers are told, and the table is not swept.
    pub fn accept(&mut self, body: &str, id: String, slot: Slot, now: u64) -> (out: Submitted)
        ensures
            final(self)@ == accepted(old(self)@, body@, id@, slot, now),
            out.id@ == id@,
            out.reply@ == reply_to(body@, id@),
            out.stored == (request_of(body@) is Some && !has_id(old(self)@.jobs, id@)),
            match request_of(body@) {
                Some(request) if !has_id(old(self)@.jobs, id@) => assignment_views(
                    out.assignments@,
                ) == sweep_log(
                    queued(old(self)@, id@, body@, request, now),
                    slot,
                    now,
                    (old(self)@.jobs.len() + 1) as nat,
                ),
                _ => out.assignments@.len() == 0,
            },
    {
        proof {
            use_type_invariant(&*self);
        }
        let mut engine = Engine::new();
        std::mem::swap(&mut self.engine, &mut engine);
        let out = engine.accept(body, id, slot, now);
        self.engine = engine;
        out
    }

    /// Takes a submission and gives it a fresh id: 128 bits by chance, in
    /// their usual written form.
    pub fn submit(&mut self, body: &str, slot: Slot, now: u64) -> (out: Submitted)
        ensures
            canonical(out.id@),
            final(self)@ == accepted(old(self)@, body@, out.id@, slot, now),
            out.reply@ == reply_to(body@, out.id@),
            out.stored == (request_of(body@) is Some && !has_id(old(self)@.jobs, out.id@)),
    {
        let id = fresh_id();
        self.accept(body, id, slot, now)
    }

    /// Takes the frames that wait for the session that bears `handle`,
    /// oldest first, and leaves its queue empty. Gives nothing for a session
    /// that is not there.
    pub fn take_outbound(&mut self, handle: u64) -> (out: Vec<String>)
        ensures
            final(self)@.jobs == old(self)@.jobs,
            final(self)@.next_handle == old(self)@.next_handle,
            has_handle(old(self)@.sessions, handle) ==> {
                let at = place_of(old(self)@.sessions, handle);
                &&& texts(out@) == old(self)@.sessions[at].outbound
                &&& final(self)@.sessions == old(self)@.sessions.update(
                    at,
                    (SessionView { outbound: Seq::empty(), ..old(self)@.sessions[at] }),
                )
            },
            !has_handle(old(self)@.sessions, handle) ==> out@.len() == 0 && final(self)@ == old(
                self,
            )@,
    {
        proof {
            use_type_invariant(&*self);
        }
        let mut engine = Engine::new();
        std::mem::swap(&mut self.engine, &mut engine);
        let out = engine.take_outbound(handle);
        self.engine = engine;
        out
    }

    /// Stops the queue of the session that bears `handle` from taking
    /// frames, and says whether there is such a session.
    pub fn close_outbound(&mut self, handle: u64) -> (found: bool)
        ensures
            final(self)@.jobs == old(self)@.jobs,
            final(self)@.next_handle == old(self)@.next_handle,
            found == has_handle(old(self)@.sessions, handle),
            found ==> {
                let at = place_of(old(self)@.sessions, handle);
                final(self)@.sessions == old(self)@.sessions.update(
                    at,
                    (SessionView { closed: true, ..old(self)@.sessions[at] }),
                )
            },
            !found ==> final(self)@ == old(self)@,
    {
        proof {
            use_type_invariant(&*self);
        }
        let mut engine = Engine::new();
        std::mem::swap(&mut self.engine, &mut engine);
        let found = engine.close_outbound(handle);
        self.engine = engine;
        found
    }

    /// Gives the session that bears `handle` a new policy, or none, and
    /// says whether there is such a session.
    pub fn set_policy(&mut self, handle: u64, policy: Option<Policy>) -> (found: bool)
        ensures
            final(self)@.jobs == old(self)@.jobs,
            final(self)@.next_handle == old(self)@.next_handle,
            found == has_handle(old(self)@.sessions, handle),
            found ==> {
                let at = place_of(old(self)@.sessions, handle);
                final(self)@.sessions == old(self)@.sessions.update(
                    at,
                    (SessionView { policy: policy_view(policy), ..old(self)@.sessions[at] }),
                )
            },
            !found ==> final(self)@ == old(self)@,
    {
        proof {
            use_type_invariant(&*self);
        }
        let mut engine = Engine::new();
        std::mem::swap(&mut self.engine, &mut engine);
        let found = engine.set_policy(handle, policy);
        self.engine = engine;
        found
    }

    /// Copies of all jobs, oldest first.
    pub fn jobs(&self) -> (out: Vec<JobRecord>)
        ensures
            Seq::new(out@.len(), |i: int| out@[i]@) == self@.jobs,
    {
        let mut out: Vec<JobRecord> = Vec::new();
        let n = self.engine.store.len();
        let mut i: usize = 0;
        while i < n
            invariant
                i <= n,
                n == self@.jobs.len(),
                out.len() == i,
                forall|k: int| 0 <= k < i ==> out@[k]@ == self@.jobs[k],
            decreases n - i,
        {
            out.push(self.engine.store.get(i));
            i += 1;
        }
        proof {
            assert(Seq::new(out@.len(), |i: int| out@[i]@) =~= self@.jobs);
        }
        out
    }

    /// A copy of the job `id`.
    pub fn job(&self, id: &str) -> (out: Option<JobRecord>)
        ensures
            match out {
                Some(job) => has_id(self@.jobs, id@) && job.id@ == id@ && exists|k: int|
                    0 <= k < self@.jobs.len() && self@.jobs[k] == job@,
                None => !has_id(self@.jobs, id@),
            },
    {
        self.engine.store.find(id)
    }

    /// Copies of the pending jobs, oldest first.
    pub fn pending_jobs(&self) -> (out: Vec<JobRecord>)
        ensures
            Seq::new(out@.len(), |i: int| out@[i]@) == pending_of(self@.jobs),
    {
        self.engine.store.list_pending()
    }

    /// Copies of all sessions, in the order in which they connected.
    pub fn sessions(&self) -> (out: Vec<ClientSession>)
        ensures
            session_views(out@) == self@.sessions,
    {
        self.engine.registry.snapshot()
    }

    /// Copies of the workers, in the order in which they connected.
    pub fn workers(&self) -> (out: Vec<ClientSession>)
        ensures
            session_views(out@) == workers_of(self@.sessions),
    {
        self.engine.registry.workers()
    }

    /// Copies of the observers, in the order in which they connected.
    pub fn observers(&self) -> (out: Vec<ClientSession>)
        ensures
            session_views(out@) == observers_of(self@.sessions),
    {
        self.engine.registry.observers()
    }

    /// The histogram of the tags of the pending jobs.
    pub fn queue(&self) -> (out: Vec<TagCount>)
        ensures
            distinct_tags(out@),
            forall|tag: Seq<char>| #[trigger]
                tally(out@, tag) == capped(
                    occurrences(self@.jobs, tag),
                ),
            forall|tag: Seq<char>| #[trigger]
                has_line(out@, tag) == (occurrences(self@.jobs, tag)
                    > 0),
    {
        self.engine.store.pending_tag_counts()
    }
}

/// A change to one session that leaves its handle, its status and its job
/// as they were keeps the table and the registry in agreement.
proof fn lemma_session_touched(c: CoordinatorView, d: CoordinatorView, at: int)
    requires
        system_wf(c),
        0 <= at < c.sessions.len(),
        d.jobs == c.jobs,
        d.next_handle == c.next_handle,
        d.sessions.len() == c.sessions.len(),
        registry_wf(RegistryView { sessions: d.sessions, next_handle: d.next_handle }),
        forall|i: int| 0 <= i < c.sessions.len() && i != at ==> d.sessions[i] == c.sessions[i],
        d.sessions[at].handle == c.sessions[at].handle,
        d.sessions[at].current_job == c.sessions[at].current_job,
    ensures
        system_wf(d),
{
    assert forall|s: int|
        0 <= s < d.sessions.len() && (#[trigger] d.sessions[s]).current_job is Some implies holds_job(
        d,
        s,
    ) by {
        assert(c.sessions[s].current_job is Some);
        assert(holds_job(c, s));
        let r = choose|r: int|
            0 <= r < c.jobs.len() && Some(c.jobs[r].id) == c.sessions[s].current_job
                && in_flight_on(#[trigger] c.jobs[r], c.sessions[s].handle);
        assert(in_flight_on(d.jobs[r], d.sessions[s].handle));
    }
    assert forall|r: int, s: int|
        0 <= r < d.jobs.len() && 0 <= s < d.sessions.len() && in_flight_on(
            #[trigger] d.jobs[r],
            (#[trigger] d.sessions[s]).handle,
        ) implies d.sessions[s].current_job == Some(d.jobs[r].id) by {
        assert(d.sessions[s].handle == c.sessions[s].handle);
        assert(in_flight_on(c.jobs[r], c.sessions[s].handle));
    }
}

} // verus!
