use neuragrid::coordinator::Coordinator;
use neuragrid::event::Event;
use neuragrid::status::status_from_word;
use neuragrid::text::render_decimal;
use neuragrid::frames::{classify, FrameKind};
use neuragrid::intake::{read_request, read_target};
use neuragrid::query::{stats_for, worker_infos};
use neuragrid::registry::{role_for, Enqueue, Registry, Role, Slot, OUTBOUND_CAPACITY};
use neuragrid::status::JobStatus;
use neuragrid::store::{JobRecord, JobStore, StoreError};

fn row(id: &str, status: JobStatus, at: u64, tags: Option<Vec<&str>>) -> JobRecord {
    JobRecord {
        id: id.to_string(),
        body: "{}".to_string(),
        job_type: "unknown".to_string(),
        status,
        tags: tags.map(|t| t.iter().map(|s| s.to_string()).collect()),
        created_at: at,
        worker: None,
    }
}

#[test]
fn store_keeps_order_and_ids() {
    let mut store = JobStore::new();
    assert_eq!(store.insert("a".into(), "{}".into(), "t".into(), None, 10), Ok(10));
    assert_eq!(store.insert("b".into(), "{}".into(), "t".into(), None, 5), Ok(10));
    assert_eq!(store.insert("c".into(), "{}".into(), "t".into(), None, 11), Ok(11));
    assert_eq!(
        store.insert("a".into(), "{}".into(), "t".into(), None, 12),
        Err(StoreError::DuplicateId)
    );
    assert_eq!(store.len(), 3);
    assert_eq!(store.position("b"), Some(1));
    assert_eq!(store.position("z"), None);
    let pending: Vec<String> = store.list_pending().iter().map(|j| j.id.clone()).collect();
    assert_eq!(pending, vec!["a", "b", "c"]);
    assert!(store.assign("b", 4));
    assert!(!store.assign("b", 5));
    assert_eq!(store.find("b").unwrap().worker, Some(4));
    let pending: Vec<String> = store.list_pending().iter().map(|j| j.id.clone()).collect();
    assert_eq!(pending, vec!["a", "c"]);
}

#[test]
fn store_allows_the_path_only() {
    let mut store = JobStore::new();
    store.insert("a".into(), "{}".into(), "t".into(), None, 1).unwrap();
    assert!(!store.advance("a", JobStatus::Completed));
    assert!(!store.advance("a", JobStatus::Failed));
    assert!(!store.advance("a", JobStatus::Pending));
    assert!(!store.advance("nope", JobStatus::Processing));
    assert!(store.advance("a", JobStatus::Processing));
    assert!(!store.advance("a", JobStatus::Processing));
    assert!(!store.advance("a", JobStatus::Pending));
    assert!(store.advance("a", JobStatus::Failed));
    assert!(!store.advance("a", JobStatus::Completed));
    assert!(!store.advance("a", JobStatus::Processing));
    assert_eq!(store.status_at(0), JobStatus::Failed);
    assert!(JobStatus::Pending.may_step_to(JobStatus::Processing));
    assert!(JobStatus::Processing.may_step_to(JobStatus::Completed));
    assert!(!JobStatus::Pending.may_step_to(JobStatus::Completed));
    assert!(!JobStatus::Completed.may_step_to(JobStatus::Failed));
}

#[test]
fn tags_are_counted_on_pending_jobs_only() {
    let rows = vec![
        row("a", JobStatus::Pending, 1, Some(vec!["x", "y", "x"])),
        row("b", JobStatus::Processing, 2, Some(vec!["x"])),
        row("c", JobStatus::Pending, 3, None),
        row("d", JobStatus::Pending, 4, Some(vec!["y", "z"])),
        row("e", JobStatus::Completed, 5, Some(vec!["w"])),
    ];
    let store = JobStore::restore(rows).unwrap();
    let counts: Vec<(String, u64)> =
        store.pending_tag_counts().iter().map(|l| (l.tag.clone(), l.count)).collect();
    assert_eq!(
        counts,
        vec![("x".to_string(), 2), ("y".to_string(), 2), ("z".to_string(), 1)]
    );
}

#[test]
fn restore_refuses_rows_out_of_order() {
    assert!(JobStore::restore(vec![]).is_some());
    let twice = vec![row("a", JobStatus::Pending, 1, None), row("a", JobStatus::Pending, 2, None)];
    assert!(JobStore::restore(twice).is_none());
    let back = vec![row("a", JobStatus::Pending, 2, None), row("b", JobStatus::Pending, 1, None)];
    assert!(JobStore::restore(back).is_none());
    let mut owned = row("a", JobStatus::Processing, 1, None);
    owned.worker = Some(3);
    assert!(JobStore::restore(vec![owned.clone()]).is_some());
    assert!(Coordinator::restore(vec![owned]).is_none());
    let stranded = vec![row("a", JobStatus::Processing, 1, None), row("b", JobStatus::Pending, 1, None)];
    let mut c = Coordinator::restore(stranded).unwrap();
    let slot = Slot { weekday: 0, hour: 0 };
    let w = c.connect(Some("Worker-A".to_string()), None, slot, 9).unwrap();
    assert_eq!(w.assignments.len(), 1);
    assert_eq!(w.assignments[0].job_id, "b");
    assert_eq!(c.job("a").unwrap().status, JobStatus::Processing);
    assert_eq!(c.job("a").unwrap().worker, None);
}

#[test]
fn registry_keeps_sessions_in_order() {
    let mut r = Registry::new();
    let a = r.add("Worker-A".to_string(), None).unwrap();
    let b = r.add("Dashboard".to_string(), None).unwrap();
    let c = r.add("Worker-A".to_string(), None).unwrap();
    assert_eq!((a, b, c), (0, 1, 2));
    assert_eq!(r.len(), 3);
    assert_eq!(r.find_by_name("Worker-A").unwrap().handle, a);
    assert!(r.find_by_name("Worker-B").is_none());
    assert_eq!(r.workers().iter().map(|s| s.handle).collect::<Vec<_>>(), vec![a, c]);
    assert_eq!(r.observers().iter().map(|s| s.handle).collect::<Vec<_>>(), vec![b]);
    assert!(r.remove(a));
    assert!(!r.remove(a));
    assert_eq!(r.snapshot().iter().map(|s| s.handle).collect::<Vec<_>>(), vec![b, c]);
    assert_eq!(r.find_by_name("Worker-A").unwrap().handle, c);
    assert_eq!(r.position(c), Some(1));
    assert_eq!(r.add("x".to_string(), None), Some(3));
    assert_eq!(role_for("Worker"), Role::Worker);
    assert_eq!(role_for("worker-1"), Role::Observer);
    assert_eq!(role_for("My-Worker"), Role::Observer);
}

#[test]
fn queue_holds_a_hundred_frames() {
    let mut r = Registry::new();
    r.add("Dashboard".to_string(), None).unwrap();
    assert_eq!(OUTBOUND_CAPACITY, 100);
    for n in 0..100 {
        assert_eq!(r.enqueue(0, format!("f{}", n)), Enqueue::Queued);
    }
    assert_eq!(r.enqueue(0, "late".to_string()), Enqueue::Dropped);
    let frames = r.drain(0);
    assert_eq!(frames.len(), 100);
    assert_eq!(frames[0], "f0");
    assert_eq!(frames[99], "f99");
    assert_eq!(r.enqueue(0, "next".to_string()), Enqueue::Queued);
    r.close(0);
    assert_eq!(r.enqueue(0, "after".to_string()), Enqueue::Closed);
    assert_eq!(r.drain(0), vec!["next".to_string()]);
}

#[test]
fn frames_are_classified() {
    assert_eq!(classify("Job Completed: 1"), FrameKind::Completion);
    assert_eq!(classify("all FINISHED here"), FrameKind::Completion);
    assert_eq!(classify("Earnings Update: finished"), FrameKind::Completion);
    assert_eq!(classify("Earnings Update: 12.5"), FrameKind::Earnings);
    assert_eq!(classify(" Earnings Update: 12.5"), FrameKind::Other);
    assert_eq!(classify("Job Failed: 1"), FrameKind::Other);
    assert_eq!(classify("complete"), FrameKind::Other);
    assert_eq!(classify(""), FrameKind::Other);
    assert_eq!(classify("COMPLETED"), FrameKind::Completion);
}

#[test]
fn requests_are_read_out_of_json() {
    let r = read_request("{\"job_type\":\"noop\",\"tags\":[\"a\",\"b\"],\"target\":\"@@W\"}").unwrap();
    assert_eq!(r.job_type, "noop");
    assert_eq!(r.target, Some("W".to_string()));
    assert_eq!(r.tags, Some(vec!["a".to_string(), "b".to_string()]));
    let r = read_request("{\"job_type\":3,\"tags\":[\"a\",1],\"target\":null}").unwrap();
    assert_eq!(r.job_type, "unknown");
    assert_eq!(r.target, None);
    assert_eq!(r.tags, None);
    let r = read_request("[1,2]").unwrap();
    assert_eq!(r.job_type, "unknown");
    assert_eq!(r.tags, None);
    let r = read_request("{\"tags\":[]}").unwrap();
    assert_eq!(r.tags, Some(vec![]));
    assert!(read_request("{").is_none());
    assert!(read_request("").is_none());
    assert_eq!(read_target("{\"target\":\"Worker-1\"}"), Some("Worker-1".to_string()));
    assert_eq!(read_target("{\"target\":\"@\"}"), Some("".to_string()));
    assert_eq!(read_target("nonsense"), None);
}

#[test]
fn events_are_written_as_json() {
    let e = Event {
        id: "a\"b".to_string(),
        status: JobStatus::Failed,
        message: "line\nbreak".to_string(),
        timestamp: 1700000000123,
        tags: None,
    };
    assert_eq!(
        e.render().unwrap(),
        "{\"type\":\"job_update\",\"payload\":{\"id\":\"a\\\"b\",\"timestamp\":1700000000123,\"message\":\"line\\nbreak\",\"status\":\"failed\"}}"
    );
    let e = Event { tags: Some(vec![]), status: JobStatus::Completed, ..e };
    let v: serde_json::Value = serde_json::from_str(&e.render().unwrap()).unwrap();
    assert_eq!(v["payload"]["tags"].as_array().unwrap().len(), 0);
    assert_eq!(v["payload"]["status"], "completed");
    assert_eq!(v["payload"]["id"], "a\"b");
    assert_eq!(render_decimal(0), "0");
    assert_eq!(render_decimal(10), "10");
    assert_eq!(render_decimal(u64::MAX), "18446744073709551615");
}

#[test]
fn stats_follow_the_formulas() {
    let s = stats_for(0);
    assert_eq!((s.active_workers, s.total_tflops_tenths, s.jobs_completed), (0, 0, 14203));
    let s = stats_for(3);
    assert_eq!((s.active_workers, s.total_tflops_tenths, s.jobs_completed), (3, 1365, 14239));
    let slot = Slot { weekday: 0, hour: 0 };
    let mut c = Coordinator::new();
    c.connect(Some("Worker-A".to_string()), None, slot, 1);
    c.connect(Some("Dashboard".to_string()), None, slot, 1);
    c.connect(Some("Worker-B".to_string()), None, slot, 1);
    c.accept("{\"tags\":[\"t\"]}", "j".to_string(), slot, 2);
    c.accept("{\"tags\":[\"t\",\"u\"],\"target\":\"Worker-Z\"}", "k".to_string(), slot, 3);
    assert_eq!(c.stats().active_workers, 2);
    assert_eq!(c.stats().total_tflops_tenths, 910);
    assert_eq!(c.stats().jobs_completed, 14227);
    let list = c.worker_list();
    assert_eq!(list.len(), 2);
    assert_eq!(list[0].id, "w0");
    assert_eq!(list[0].hostname, "Worker-A");
    assert_eq!(list[0].ip, "192.168.1.100");
    assert_eq!(list[0].gpu, "RTX 4090");
    assert_eq!(list[0].status, "busy");
    assert_eq!(list[0].task, "Processing");
    assert_eq!(list[1].id, "w1");
    assert_eq!(list[1].ip, "192.168.1.101");
    assert_eq!(list[1].gpu, "A100");
    assert_eq!(list[1].status, "idle");
    assert_eq!(list[1].task, "-");
    let queue: Vec<(String, u64)> = c.queue().iter().map(|l| (l.tag.clone(), l.count)).collect();
    assert_eq!(queue, vec![("t".to_string(), 1), ("u".to_string(), 1)]);
    let many = c.workers().into_iter().cycle().take(12).collect::<Vec<_>>();
    let infos = worker_infos(&many);
    assert_eq!(infos[11].ip, "192.168.1.111");
    assert_eq!(infos[11].id, "w11");
}

#[test]
fn status_words_read_back() {
    for status in [JobStatus::Pending, JobStatus::Processing, JobStatus::Completed, JobStatus::Failed] {
        assert_eq!(status_from_word(status.word()), Some(status));
    }
    assert_eq!(JobStatus::Pending.word(), "pending");
    assert_eq!(JobStatus::Failed.word(), "failed");
    assert_eq!(status_from_word("Pending"), None);
    assert_eq!(status_from_word(""), None);
}

#[test]
fn of_two_workers_of_one_name_the_first_gets_the_job() {
    let slot = Slot { weekday: 0, hour: 0 };
    let mut c = Coordinator::new();
    let first = c.connect(Some("Worker-A".to_string()), None, slot, 1).unwrap().handle;
    let second = c.connect(Some("Worker-A".to_string()), None, slot, 1).unwrap().handle;
    let j = c.accept("{\"target\":\"Worker-A\"}", "j".to_string(), slot, 2);
    assert_eq!(j.assignments[0].worker, first);
    let k = c.accept("{\"target\":\"Worker-A\"}", "k".to_string(), slot, 3);
    assert_eq!(k.assignments[0].worker, second);
    let l = c.accept("{\"target\":\"Worker-A\"}", "l".to_string(), slot, 4);
    assert!(l.assignments.is_empty());
}
