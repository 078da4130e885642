use neuragrid::coordinator::Coordinator;
use neuragrid::frames::FrameKind;
use neuragrid::registry::{Policy, Slot};
use neuragrid::status::{JobStatus, WorkerStatus};

fn monday_nine() -> Slot {
    Slot { weekday: 0, hour: 9 }
}

fn id_in(reply: &str) -> String {
    reply.split_whitespace().nth(1).unwrap().to_string()
}

fn statuses_of(frames: &[String]) -> Vec<String> {
    frames
        .iter()
        .map(|f| {
            let v: serde_json::Value = serde_json::from_str(f).unwrap();
            assert_eq!(v["type"], "job_update");
            v["payload"]["status"].as_str().unwrap().to_string()
        })
        .collect()
}

#[test]
fn single_worker_single_job() {
    let slot = monday_nine();
    let mut c = Coordinator::new();
    let observer = c.connect(Some("Dashboard".to_string()), None, slot, 1).unwrap().handle;
    let worker = c.connect(Some("Worker-A".to_string()), None, slot, 2).unwrap().handle;
    assert_eq!(c.take_outbound(observer), vec!["Welcome to NeuraGrid".to_string()]);
    assert_eq!(c.take_outbound(worker), vec!["Welcome to NeuraGrid".to_string()]);

    let body = "{\"job_type\":\"noop\",\"args\":[]}";
    let done = c.submit(body, slot, 10);
    assert!(done.stored);
    assert_eq!(done.reply, format!("Job {} queued", done.id));
    assert_eq!(id_in(&done.reply), done.id);
    assert_eq!(done.assignments.len(), 1);
    assert_eq!(done.assignments[0].job_id, done.id);
    assert_eq!(done.assignments[0].worker, worker);
    assert_eq!(done.assignments[0].worker_name, "Worker-A");

    assert_eq!(c.take_outbound(worker), vec![body.to_string()]);
    let row = c.job(&done.id).unwrap();
    assert_eq!(row.id, done.id);
    assert_eq!(row.body, body);
    assert_eq!(row.status, JobStatus::Processing);
    assert_eq!(row.job_type, "noop");
    assert_eq!(row.worker, Some(worker));
    assert_eq!(row.created_at, 10);

    let events = c.take_outbound(observer);
    assert_eq!(statuses_of(&events), vec!["pending", "processing"]);
    let first: serde_json::Value = serde_json::from_str(&events[0]).unwrap();
    assert_eq!(first["payload"]["id"], done.id.as_str());
    assert_eq!(first["payload"]["timestamp"], 10);
    assert_eq!(first["payload"]["message"], format!("New Job Submitted: {}", done.id).as_str());
    let second: serde_json::Value = serde_json::from_str(&events[1]).unwrap();
    assert_eq!(second["payload"]["message"], "Job picked up by Worker-A");
}

#[test]
fn targeted_placement() {
    let slot = monday_nine();
    let mut c = Coordinator::new();
    let a = c.connect(Some("Worker-A".to_string()), None, slot, 1).unwrap().handle;
    let b = c.connect(Some("Worker-B".to_string()), None, slot, 2).unwrap().handle;
    c.take_outbound(a);
    c.take_outbound(b);
    let body = "{\"job_type\":\"noop\",\"args\":[],\"target\":\"@Worker-B\"}";
    let done = c.submit(body, slot, 3);
    assert_eq!(done.assignments.len(), 1);
    assert_eq!(done.assignments[0].worker_name, "Worker-B");
    assert_eq!(c.take_outbound(b), vec![body.to_string()]);
    assert!(c.take_outbound(a).is_empty());
    let sessions = c.sessions();
    assert_eq!(sessions[0].status, WorkerStatus::Idle);
    assert_eq!(sessions[1].status, WorkerStatus::Busy);
}

#[test]
fn fifo_under_scarcity() {
    let slot = monday_nine();
    let mut c = Coordinator::new();
    let a = c.connect(Some("Worker-A".to_string()), None, slot, 1).unwrap().handle;
    c.take_outbound(a);
    let j1 = c.accept("{\"n\":1}", "j1".to_string(), slot, 2);
    let j2 = c.accept("{\"n\":2}", "j2".to_string(), slot, 3);
    assert_eq!(j1.assignments.len(), 1);
    assert!(j2.assignments.is_empty());
    assert_eq!(c.take_outbound(a), vec!["{\"n\":1}".to_string()]);
    assert_eq!(c.job("j1").unwrap().status, JobStatus::Processing);
    assert_eq!(c.job("j2").unwrap().status, JobStatus::Pending);

    let heard = c.receive(a, "job finished", slot, 4);
    assert_eq!(heard.kind, FrameKind::Completion);
    assert_eq!(heard.completed, Some("j1".to_string()));
    assert_eq!(heard.assignments.len(), 1);
    assert_eq!(heard.assignments[0].job_id, "j2");
    assert_eq!(c.take_outbound(a), vec!["{\"n\":2}".to_string()]);
    assert_eq!(c.job("j1").unwrap().status, JobStatus::Completed);
    assert_eq!(c.job("j2").unwrap().status, JobStatus::Processing);
}

#[test]
fn targeted_starvation() {
    let slot = monday_nine();
    let mut c = Coordinator::new();
    let j = c.accept("{\"target\":\"@Worker-X\"}", "j".to_string(), slot, 1);
    assert!(j.stored);
    assert!(j.assignments.is_empty());
    let y = c.connect(Some("Worker-Y".to_string()), None, slot, 2).unwrap();
    assert!(y.assignments.is_empty());
    assert_eq!(c.job("j").unwrap().status, JobStatus::Pending);
    assert!(c.dispatch(slot, 3).is_empty());
    assert_eq!(c.job("j").unwrap().status, JobStatus::Pending);
    let x = c.connect(Some("Worker-X".to_string()), None, slot, 4).unwrap();
    assert_eq!(x.assignments.len(), 1);
    assert_eq!(x.assignments[0].worker_name, "Worker-X");
    assert_eq!(c.job("j").unwrap().status, JobStatus::Processing);
    assert_eq!(
        c.take_outbound(x.handle),
        vec!["Welcome to NeuraGrid".to_string(), "{\"target\":\"@Worker-X\"}".to_string()]
    );
    assert_eq!(c.take_outbound(y.handle), vec!["Welcome to NeuraGrid".to_string()]);
}

#[test]
fn worker_rejection_by_schedule() {
    let slot = monday_nine();
    let mut schedule = vec![vec![true; 24]; 7];
    schedule[0][9] = false;
    let mut c = Coordinator::new();
    let policy = Policy { silent_mode: false, schedule: schedule.clone() };
    let a = c.connect(Some("Worker-A".to_string()), Some(policy), slot, 1).unwrap().handle;
    c.take_outbound(a);
    let j = c.accept("{}", "j".to_string(), slot, 2);
    assert!(j.assignments.is_empty());
    assert_eq!(c.job("j").unwrap().status, JobStatus::Pending);
    assert!(c.take_outbound(a).is_empty());

    schedule[0][9] = true;
    assert!(c.set_policy(a, Some(Policy { silent_mode: false, schedule })));
    let placed = c.dispatch(slot, 3);
    assert_eq!(placed.len(), 1);
    assert_eq!(c.take_outbound(a), vec!["{}".to_string()]);
}

#[test]
fn silent_worker_is_passed_over() {
    let slot = monday_nine();
    let mut c = Coordinator::new();
    let policy = Policy { silent_mode: true, schedule: vec![vec![true; 24]; 7] };
    let a = c.connect(Some("Worker-A".to_string()), Some(policy), slot, 1).unwrap().handle;
    let b = c.connect(Some("Worker-B".to_string()), None, slot, 1).unwrap().handle;
    let j = c.accept("{}", "j".to_string(), slot, 2);
    assert_eq!(j.assignments.len(), 1);
    assert_eq!(j.assignments[0].worker, b);
    assert_eq!(c.take_outbound(a), vec!["Welcome to NeuraGrid".to_string()]);
}

#[test]
fn observer_fanout() {
    let slot = monday_nine();
    let mut c = Coordinator::new();
    let o1 = c.connect(Some("CLI-Client".to_string()), None, slot, 1).unwrap().handle;
    let o2 = c.connect(None, None, slot, 1).unwrap().handle;
    let w = c.connect(Some("Worker-A".to_string()), None, slot, 1).unwrap().handle;
    c.take_outbound(o1);
    c.take_outbound(o2);
    c.take_outbound(w);
    assert_eq!(c.sessions()[1].name, "Unknown");
    let j = c.accept("{\"tags\":[\"#urgent\",\"x\"]}", "j".to_string(), slot, 7);
    assert_eq!(j.assignments.len(), 1);
    let e1 = c.take_outbound(o1);
    let e2 = c.take_outbound(o2);
    assert_eq!(e1, e2);
    assert_eq!(statuses_of(&e1), vec!["pending", "processing"]);
    assert_eq!(
        e1[0],
        "{\"type\":\"job_update\",\"payload\":{\"id\":\"j\",\"timestamp\":7,\"message\":\"New Job Submitted: j\",\"status\":\"pending\",\"tags\":[\"#urgent\",\"x\"]}}"
    );
    let frames = c.take_outbound(w);
    assert_eq!(frames, vec!["{\"tags\":[\"#urgent\",\"x\"]}".to_string()]);
    assert!(frames.iter().all(|f| !f.contains("job_update")));
}

#[test]
fn malformed_submission_is_refused() {
    let slot = monday_nine();
    let mut c = Coordinator::new();
    let o = c.connect(Some("Dashboard".to_string()), None, slot, 1).unwrap().handle;
    c.take_outbound(o);
    let done = c.submit("{not json", slot, 2);
    assert_eq!(done.reply, "Invalid JSON");
    assert!(!done.stored);
    assert!(c.jobs().is_empty());
    assert!(c.take_outbound(o).is_empty());
}

#[test]
fn dispatch_twice_places_nothing_new() {
    let slot = monday_nine();
    let mut c = Coordinator::new();
    c.accept("{}", "a".to_string(), slot, 1);
    c.accept("{}", "b".to_string(), slot, 2);
    c.accept("{\"target\":\"Worker-Z\"}", "c".to_string(), slot, 3);
    c.connect(Some("Worker-1".to_string()), None, slot, 4);
    let w2 = c.connect(Some("Worker-2".to_string()), None, slot, 5).unwrap();
    assert_eq!(w2.assignments.len(), 1);
    let before: Vec<JobStatus> = c.jobs().iter().map(|j| j.status).collect();
    assert!(c.dispatch(slot, 6).is_empty());
    assert!(c.dispatch(slot, 7).is_empty());
    let after: Vec<JobStatus> = c.jobs().iter().map(|j| j.status).collect();
    assert_eq!(before, after);
    assert_eq!(after, vec![JobStatus::Processing, JobStatus::Processing, JobStatus::Pending]);
}

#[test]
fn closed_queue_reverts_the_worker() {
    let slot = monday_nine();
    let mut c = Coordinator::new();
    let a = c.connect(Some("Worker-A".to_string()), None, slot, 1).unwrap().handle;
    assert!(c.close_outbound(a));
    let j = c.accept("{}", "j".to_string(), slot, 2);
    assert!(j.stored);
    assert!(j.assignments.is_empty());
    assert_eq!(c.job("j").unwrap().status, JobStatus::Pending);
    assert_eq!(c.sessions()[0].status, WorkerStatus::Idle);
    assert_eq!(c.sessions()[0].current_job, None);
}

#[test]
fn full_queue_drops_events_for_that_observer_only() {
    let slot = monday_nine();
    let mut c = Coordinator::new();
    let slow = c.connect(Some("Slow".to_string()), None, slot, 1).unwrap().handle;
    let fast = c.connect(Some("Fast".to_string()), None, slot, 1).unwrap().handle;
    for n in 0..120 {
        c.accept("{}", format!("job-{}", n), slot, 2);
        c.take_outbound(fast);
    }
    assert_eq!(c.take_outbound(slow).len(), 100);
    let last = c.accept("{}", "last".to_string(), slot, 3);
    assert!(last.stored);
    assert_eq!(c.take_outbound(slow).len(), 1);
    assert_eq!(c.take_outbound(fast).len(), 1);
}

#[test]
fn disconnect_leaves_the_job_processing() {
    let slot = monday_nine();
    let mut c = Coordinator::new();
    let a = c.connect(Some("Worker-A".to_string()), None, slot, 1).unwrap().handle;
    c.accept("{}", "j".to_string(), slot, 2);
    assert!(c.disconnect(a));
    assert!(!c.disconnect(a));
    assert_eq!(c.job("j").unwrap().status, JobStatus::Processing);
    let again = c.connect(Some("Worker-A".to_string()), None, slot, 3).unwrap();
    assert_ne!(again.handle, a);
    assert!(again.assignments.is_empty());
}

#[test]
fn duplicate_id_is_answered_but_not_stored() {
    let slot = monday_nine();
    let mut c = Coordinator::new();
    let first = c.accept("{}", "same".to_string(), slot, 1);
    let second = c.accept("{\"x\":1}", "same".to_string(), slot, 2);
    assert!(first.stored);
    assert!(!second.stored);
    assert_eq!(second.reply, "Job same queued");
    assert_eq!(c.jobs().len(), 1);
    assert_eq!(c.jobs()[0].body, "{}");
}

#[test]
fn other_frames_change_nothing() {
    let slot = monday_nine();
    let mut c = Coordinator::new();
    let a = c.connect(Some("Worker-A".to_string()), None, slot, 1).unwrap().handle;
    c.accept("{}", "j".to_string(), slot, 2);
    let heard = c.receive(a, "Job Failed: j", slot, 3);
    assert_eq!(heard.kind, FrameKind::Other);
    assert_eq!(heard.completed, None);
    assert_eq!(c.job("j").unwrap().status, JobStatus::Processing);
    assert_eq!(c.sessions()[0].status, WorkerStatus::Busy);
    let heard = c.receive(a, "Earnings Update: 1.5", slot, 3);
    assert_eq!(heard.kind, FrameKind::Earnings);
    let heard = c.receive(a, "Job COMPLETED: j", slot, 4);
    assert_eq!(heard.kind, FrameKind::Completion);
    assert_eq!(c.job("j").unwrap().status, JobStatus::Completed);
}

#[test]
fn no_worker_ever_has_two_jobs() {
    let slot = monday_nine();
    let mut c = Coordinator::new();
    let mut workers = Vec::new();
    for n in 0..3 {
        workers.push(c.connect(Some(format!("Worker-{}", n)), None, slot, n).unwrap().handle);
    }
    for n in 0..10u64 {
        c.accept("{}", format!("job-{}", n), slot, 10 + n);
        if n % 3 == 2 {
            c.receive(workers[(n % 3) as usize], "finished", slot, 10 + n);
        }
        let jobs = c.jobs();
        for w in &workers {
            let in_flight = jobs
                .iter()
                .filter(|j| j.status == JobStatus::Processing && j.worker == Some(*w))
                .count();
            assert!(in_flight <= 1);
        }
        for s in c.sessions() {
            assert_eq!(s.status == WorkerStatus::Busy, s.current_job.is_some());
        }
    }
    let statuses: Vec<JobStatus> = c.jobs().iter().map(|j| j.status).collect();
    assert_eq!(statuses.iter().filter(|s| **s == JobStatus::Completed).count(), 3);
    assert_eq!(statuses.iter().filter(|s| **s == JobStatus::Processing).count(), 3);
    assert_eq!(statuses.iter().filter(|s| **s == JobStatus::Pending).count(), 4);
}

#[test]
fn fresh_ids_are_written_in_full_and_differ() {
    let slot = monday_nine();
    let mut c = Coordinator::new();
    let a = c.submit("{}", slot, 1);
    let b = c.submit("{}", slot, 2);
    assert_ne!(a.id, b.id);
    for id in [&a.id, &b.id] {
        assert_eq!(id.len(), 36);
        assert_eq!(id.matches('-').count(), 4);
        assert!(id.chars().all(|ch| ch == '-' || ch.is_ascii_digit() || ('a'..='f').contains(&ch)));
        for at in [8, 13, 18, 23] {
            assert_eq!(id.as_bytes()[at], b'-');
        }
    }
    assert_eq!(c.jobs().len(), 2);
    assert_eq!(c.jobs()[0].id, a.id);
    assert_eq!(c.jobs()[1].id, b.id);
    c.in_order();
}

#[test]
fn a_step_on_a_row_that_is_not_there_changes_nothing() {
    let slot = monday_nine();
    let mut c = Coordinator::new();
    c.connect(Some("Worker-A".to_string()), None, slot, 1);
    assert!(c.dispatch_job(0, slot, 2).is_none());
    assert!(c.dispatch_job(7, slot, 2).is_none());
    c.accept("{\"target\":\"nobody\"}", "j".to_string(), slot, 3);
    assert!(c.dispatch_job(0, slot, 4).is_none());
    c.accept("{}", "k".to_string(), slot, 5);
    assert!(c.dispatch_job(1, slot, 6).is_none());
    assert_eq!(c.job("k").unwrap().status, JobStatus::Processing);
    assert_eq!(c.pending_jobs().len(), 1);
    assert_eq!(c.observers().len(), 0);
    assert_eq!(c.workers().len(), 1);
}
