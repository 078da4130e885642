//! What the coordinator answers when asked how the grid is doing.

use crate::coordinator::Coordinator;
use crate::text::{decimal, render_decimal};
use crate::registry::{session_views, workers_of, ClientSession, SessionView};
use crate::status::WorkerStatus;
use vstd::prelude::*;
use vstd::string::StringExecFns;

verus! {

/// Figures on the grid. The last two are stand-ins that are worked out
/// from the number of workers alone, until something is measured.
#[derive(Clone, Copy, Debug, PartialEq, Eq, Structural)]
pub struct Stats {
    /// The number of worker sessions.
    pub active_workers: usize,
    /// Tenths of a teraflop: 45.5 teraflops for each worker.
    pub total_tflops_tenths: u128,
    /// 14203, and 12 more for each worker.
    pub jobs_completed: u128,
}

/// The figures for a grid of so many workers.
pub open spec fn stats_of(workers: nat) -> Stats {
    Stats {
        active_workers: workers as usize,
        total_tflops_tenths: (workers * 455) as u128,
        jobs_completed: (14203 + workers * 12) as u128,
    }
}

/// Works the figures out for a grid of so many workers.
pub fn stats_for(workers: usize) -> (out: Stats)
    ensures
        out == stats_of(workers as nat),
        out.total_tflops_tenths == workers * 455,
        out.jobs_completed == 14203 + workers * 12,
{
    let n: u128 = workers as u128;
    Stats { active_workers: workers, total_tflops_tenths: n * 455, jobs_completed: 14203 + n * 12 }
}

/// One line of the list of workers, as the contracts speak of it.
pub struct WorkerInfoView {
    pub id: Seq<char>,
    pub hostname: Seq<char>,
    pub ip: Seq<char>,
    pub gpu: Seq<char>,
    pub status: Seq<char>,
    pub task: Seq<char>,
}

/// One line of the list of workers.
#[derive(Clone, Debug)]
pub struct WorkerInfo {
    pub id: String,
    pub hostname: String,
    pub ip: String,
    pub gpu: String,
    pub status: String,
    pub task: String,
}

impl View for WorkerInfo {
    type V = WorkerInfoView;

    open spec fn view(&self) -> WorkerInfoView {
        WorkerInfoView {
            id: self.id@,
            hostname: self.hostname@,
            ip: self.ip@,
            gpu: self.gpu@,
            status: self.status@,
            task: self.task@,
        }
    }
}

/// A number in at least two decimal digits.
pub open spec fn two_digits(n: nat) -> Seq<char> {
    if n < 10 {
        "0"@ + decimal(n)
    } else {
        decimal(n)
    }
}

/// The line for the worker at place `index` of the list: an id and an
/// address that are made up from the place, the name of the session as host
/// name, one of two kinds of GPU by turns, and what the worker is doing.
pub open spec fn info_of(index: nat, s: SessionView) -> WorkerInfoView {
    WorkerInfoView {
        id: "w"@ + decimal(index),
        hostname: s.name,
        ip: "192.168.1.1"@ + two_digits(index),
        gpu: if index % 2 == 0 {
            "RTX 4090"@
        } else {
            "A100"@
        },
        status: if s.status == WorkerStatus::Busy {
            "busy"@
        } else {
            "idle"@
        },
        task: if s.status == WorkerStatus::Busy {
            "Processing"@
        } else {
            "-"@
        },
    }
}

/// The lines for a list of workers.
pub open spec fn infos_of(workers: Seq<SessionView>) -> Seq<WorkerInfoView> {
    Seq::new(workers.len(), |i: int| info_of(i as nat, workers[i]))
}

/// Writes the line for the worker at place `index` of the list.
pub fn worker_info(index: usize, session: &ClientSession) -> (out: WorkerInfo)
    ensures
        out@ == info_of(index as nat, session@),
{
    let number = render_decimal(index as u64);
    let mut id = "w".to_owned();
    id.append(number.as_str());
    let mut ip = "192.168.1.1".to_owned();
    if index < 10 {
        ip.append("0");
    }
    ip.append(number.as_str());
    let busy = session.status == WorkerStatus::Busy;
    proof {
        assert(ip@ =~= "192.168.1.1"@ + two_digits(index as nat));
        assert(id@ =~= "w"@ + decimal(index as nat));
    }
    WorkerInfo {
        id,
        hostname: session.name.clone(),
        ip,
        gpu: if index % 2 == 0 {
            "RTX 4090".to_owned()
        } else {
            "A100".to_owned()
        },
        status: session.status.word().to_owned(),
        task: if busy {
            "Processing".to_owned()
        } else {
            "-".to_owned()
        },
    }
}

/// Writes the lines for a list of workers.
pub fn worker_infos(workers: &Vec<ClientSession>) -> (out: Vec<WorkerInfo>)
    ensures
        Seq::new(out@.len(), |i: int| out@[i]@) == infos_of(session_views(workers@)),
{
    let mut out: Vec<WorkerInfo> = Vec::new();
    let mut i: usize = 0;
    while i < workers.len()
        invariant
            i <= workers.len(),
            out.len() == i,
            forall|k: int| 0 <= k < i ==> out@[k]@ == info_of(k as nat, workers@[k]@),
        decreases workers.len() - i,
    {
        out.push(worker_info(i, &workers[i]));
        i += 1;
    }
    proof {
        assert(Seq::new(out@.len(), |i: int| out@[i]@) =~= infos_of(session_views(workers@)));
    }
    out
}

impl Coordinator {
    /// The figures on the grid.
    pub fn stats(&self) -> (out: Stats)
        ensures
            out == stats_of(workers_of(self@.sessions).len()),
    {
        let workers = self.workers();
        proof {
            assert(session_views(workers@).len() == workers@.len());
        }
        stats_for(workers.len())
    }

    /// The list of workers, in the order in which they connected.
    pub fn worker_list(&self) -> (out: Vec<WorkerInfo>)
        ensures
            Seq::new(out@.len(), |i: int| out@[i]@) == infos_of(workers_of(self@.sessions)),
    {
        let workers = self.workers();
        worker_infos(&workers)
    }
}

} // verus!
