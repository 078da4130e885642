//! What a worker is set up with, and what follows from it.

use crate::registry::{admits, cell_active, copy_grid, grid, Policy, PolicyView, Slot};
use crate::text::{
    begins_with, chars_of, starts_with, trim, trim_prefix, trimmed, without_prefix,
};
use vstd::prelude::*;
use vstd::string::StringExecFns;

verus! {

/// The settings of a worker.
#[derive(Clone, Debug)]
pub struct WorkerConfig {
    /// The name that the worker connects under.
    pub name: Option<String>,
    /// Where the coordinator listens.
    pub coordinator_url: Option<String>,
    /// While this is on, the worker takes no job.
    pub silent_mode: bool,
    /// Seven days, Monday first, of twenty-four hours: the hours in which
    /// the worker takes jobs.
    pub schedule: Vec<Vec<bool>>,
}

/// The schedule that marks every hour of every day.
pub open spec fn full_week() -> Seq<Seq<bool>> {
    Seq::new(7, |d: int| Seq::new(24, |h: int| true))
}

/// The schedule of a worker that was given none: every hour of every day.
pub fn default_schedule() -> (out: Vec<Vec<bool>>)
    ensures
        grid(out@) == full_week(),
{
    let mut out: Vec<Vec<bool>> = Vec::new();
    let mut d: usize = 0;
    while d < 7
        invariant
            d <= 7,
            out.len() == d,
            forall|k: int| 0 <= k < d ==> out@[k]@ == Seq::new(24, |h: int| true),
        decreases 7 - d,
    {
        let mut row: Vec<bool> = Vec::new();
        let mut h: usize = 0;
        while h < 24
            invariant
                h <= 24,
                row.len() == h,
                forall|k: int| 0 <= k < h ==> row@[k],
            decreases 24 - h,
        {
            row.push(true);
            h += 1;
        }
        proof {
            assert(row@ =~= Seq::new(24, |h: int| true));
        }
        out.push(row);
        d += 1;
    }
    proof {
        assert(grid(out@) =~= full_week());
    }
    out
}

impl Default for WorkerConfig {
    /// No name, no address, not silent, and every hour of every day.
    fn default() -> (out: Self)
        ensures
            out.name is None,
            out.coordinator_url is None,
            !out.silent_mode,
            grid(out.schedule@) == full_week(),
    {
        WorkerConfig {
            name: None,
            coordinator_url: None,
            silent_mode: false,
            schedule: default_schedule(),
        }
    }
}

/// Whether a worker takes a job, and if not, why not.
#[derive(Clone, Copy, Debug, PartialEq, Eq, Structural)]
pub enum Admission {
    Allowed,
    /// The worker is in silent mode.
    SilentMode,
    /// The schedule of the worker does not mark the hour.
    OutsideSchedule,
}

/// Whether a worker with these settings takes a job at `slot`.
pub open spec fn admission_of(silent_mode: bool, schedule: Seq<Seq<bool>>, slot: Slot) -> Admission {
    if silent_mode {
        Admission::SilentMode
    } else if cell_active(schedule, slot.weekday as int, slot.hour as int) {
        Admission::Allowed
    } else {
        Admission::OutsideSchedule
    }
}

/// The address of the coordinator for a worker that was given none.
pub open spec fn default_url() -> Seq<char> {
    "ws://127.0.0.1:3000/ws"@
}

/// The first characters of a text, four at most.
pub open spec fn short_id(id: Seq<char>) -> Seq<char> {
    if id.len() < 4 {
        id
    } else {
        id.take(4)
    }
}

impl WorkerConfig {
    /// The policy that the settings amount to.
    pub open spec fn policy_of(&self) -> PolicyView {
        PolicyView { silent_mode: self.silent_mode, schedule: grid(self.schedule@) }
    }

    /// The policy that the settings amount to.
    pub fn policy(&self) -> (out: Policy)
        ensures
            out@ == self.policy_of(),
    {
        Policy { silent_mode: self.silent_mode, schedule: copy_grid(&self.schedule) }
    }

    /// Decides whether the worker takes a job at `slot`, and if not, why
    /// not.
    pub fn admission(&self, slot: Slot) -> (out: Admission)
        ensures
            out == admission_of(self.silent_mode, grid(self.schedule@), slot),
            (out == Admission::Allowed) == admits(Some(self.policy_of()), slot),
    {
        if self.silent_mode {
            return Admission::SilentMode;
        }
        let d = slot.weekday as usize;
        let h = slot.hour as usize;
        if d < self.schedule.len() {
            if h < self.schedule[d].len() {
                if !self.schedule[d][h] {
                    return Admission::OutsideSchedule;
                }
            }
        }
        Admission::Allowed
    }

    /// Takes a name and an address from the command line into the
    /// settings, each where it was given, and says whether anything was.
    pub fn apply_overrides(&mut self, name: Option<String>, url: Option<String>) -> (changed: bool)
        ensures
            changed == (name is Some || url is Some),
            final(self).name == if name is Some {
                name
            } else {
                old(self).name
            },
            final(self).coordinator_url == if url is Some {
                url
            } else {
                old(self).coordinator_url
            },
            final(self).silent_mode == old(self).silent_mode,
            final(self).schedule == old(self).schedule,
    {
        let mut changed = false;
        if name.is_some() {
            self.name = name;
            changed = true;
        }
        if url.is_some() {
            self.coordinator_url = url;
            changed = true;
        }
        changed
    }

    /// The name that the worker connects under: the one in the settings,
    /// or `Worker-` and the first four characters of `fresh`.
    pub fn session_name(&self, fresh: &str) -> (out: String)
        ensures
            out@ == match self.name {
                Some(name) => name@,
                None => "Worker-"@ + short_id(fresh@),
            },
    {
        match &self.name {
            Some(name) => name.clone(),
            None => {
                let chars = chars_of(fresh);
                let mut out = "Worker-".to_owned();
                let mut i: usize = 0;
                while i < chars.len() && i < 4
                    invariant
                        i <= chars.len(),
                        i <= 4,
                        chars@ == fresh@,
                        out@ == "Worker-"@ + fresh@.take(i as int),
                    decreases chars.len() - i,
                {
                    out.push(chars[i]);
                    proof {
                        assert(fresh@.take(i + 1) =~= fresh@.take(i as int).push(fresh@[i as int]));
                        assert(("Worker-"@ + fresh@.take(i as int)).push(fresh@[i as int])
                            =~= "Worker-"@ + fresh@.take(i + 1));
                    }
                    i += 1;
                }
                proof {
                    if fresh@.len() < 4 {
                        assert(fresh@.take(i as int) =~= fresh@);
                    }
                }
                out
            },
        }
    }

    /// The address of the coordinator: the one in the settings, or the
    /// one on this machine.
    pub fn server_url(&self) -> (out: String)
        ensures
            out@ == match self.coordinator_url {
                Some(url) => url@,
                None => default_url(),
            },
    {
        match &self.coordinator_url {
            Some(url) => url.clone(),
            None => "ws://127.0.0.1:3000/ws".to_owned(),
        }
    }
}

/// The address that a worker connects to: that of the coordinator, with
/// the name of the worker as a parameter.
pub fn session_url(url: &str, name: &str) -> (out: String)
    ensures
        out@ == url@ + "?name="@ + name@,
{
    let mut out = url.to_owned();
    out.append("?name=");
    out.append(name);
    out
}

/// Whether a frame from the coordinator is the greeting, which is no job
/// and no fault either.
pub fn is_greeting(text: &str) -> (out: bool)
    ensures
        out == begins_with(text@, "Welcome"@),
{
    starts_with(text, "Welcome")
}

/// Whether a frame from the coordinator is word of earnings.
pub fn is_earnings(text: &str) -> (out: bool)
    ensures
        out == begins_with(text@, "Earnings Update: "@),
{
    starts_with(text, "Earnings Update: ")
}

/// The amount that word of earnings names, as it is written: what follows
/// `Earnings Update: `, without the white space around it. `None` for a
/// frame that is no word of earnings.
pub open spec fn earnings_of(text: Seq<char>) -> Option<Seq<char>> {
    if begins_with(text, "Earnings Update: "@) {
        Some(trimmed(without_prefix(text, "Earnings Update: "@)))
    } else {
        None
    }
}

/// Reads the amount that word of earnings names, as it is written.
pub fn earnings_text(text: &str) -> (out: Option<String>)
    ensures
        match out {
            Some(amount) => earnings_of(text@) == Some(amount@),
            None => earnings_of(text@) is None,
        },
{
    if is_earnings(text) {
        let rest = trim_prefix(text, "Earnings Update: ");
        Some(trim(rest.as_str()))
    } else {
        None
    }
}

} // verus!
