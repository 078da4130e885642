//! What a worker can run, one type per capability.

use vstd::prelude::*;

pub mod lp;
pub mod ot;
pub mod pd;
pub mod pr;
pub mod vd;
pub mod vs;

verus! {

/// One kind of work that a worker offers under a short code.
pub trait Capability {
    /// The code that jobs name this capability by.
    spec fn code_of(&self) -> Seq<char>;

    /// Whether `out` is an answer that `execute` may give to `args`.
    spec fn answers(&self, args: Seq<Seq<char>>, out: Result<Seq<char>, Seq<char>>) -> bool;

    fn code(&self) -> (c: &'static str)
        ensures
            c@ == self.code_of(),
    ;

    /// Whether this machine can run the capability.
    spec fn supported(&self) -> bool;

    fn is_supported(&self) -> (ok: bool)
        ensures
            ok == self.supported(),
    ;

    fn execute(&self, args: Vec<String>) -> (out: Result<String, String>)
        ensures
            self.answers(args.deep_view(), result_view(out)),
    ;
}

/// Any one of the capabilities that this crate knows.
pub enum Offered {
    Pd(pd::PeopleDetection),
    Pr(pr::PersonReId),
    Ot(ot::ObjectTracking),
    Vd(vd::VehicleDetection),
    Lp(lp::LicensePlateRecognition),
    Vs(vs::VideoSearch),
}

impl Capability for Offered {
    open spec fn code_of(&self) -> Seq<char> {
        match self {
            Offered::Pd(c) => c.code_of(),
            Offered::Pr(c) => c.code_of(),
            Offered::Ot(c) => c.code_of(),
            Offered::Vd(c) => c.code_of(),
            Offered::Lp(c) => c.code_of(),
            Offered::Vs(c) => c.code_of(),
        }
    }

    open spec fn supported(&self) -> bool {
        match self {
            Offered::Pd(c) => c.supported(),
            Offered::Pr(c) => c.supported(),
            Offered::Ot(c) => c.supported(),
            Offered::Vd(c) => c.supported(),
            Offered::Lp(c) => c.supported(),
            Offered::Vs(c) => c.supported(),
        }
    }

    open spec fn answers(&self, args: Seq<Seq<char>>, out: Result<Seq<char>, Seq<char>>) -> bool {
        match self {
            Offered::Pd(c) => c.answers(args, out),
            Offered::Pr(c) => c.answers(args, out),
            Offered::Ot(c) => c.answers(args, out),
            Offered::Vd(c) => c.answers(args, out),
            Offered::Lp(c) => c.answers(args, out),
            Offered::Vs(c) => c.answers(args, out),
        }
    }

    fn code(&self) -> (c: &'static str) {
        match self {
            Offered::Pd(c) => c.code(),
            Offered::Pr(c) => c.code(),
            Offered::Ot(c) => c.code(),
            Offered::Vd(c) => c.code(),
            Offered::Lp(c) => c.code(),
            Offered::Vs(c) => c.code(),
        }
    }

    fn is_supported(&self) -> (ok: bool) {
        match self {
            Offered::Pd(c) => c.is_supported(),
            Offered::Pr(c) => c.is_supported(),
            Offered::Ot(c) => c.is_supported(),
            Offered::Vd(c) => c.is_supported(),
            Offered::Lp(c) => c.is_supported(),
            Offered::Vs(c) => c.is_supported(),
        }
    }

    fn execute(&self, args: Vec<String>) -> (out: Result<String, String>) {
        match self {
            Offered::Pd(c) => c.execute(args),
            Offered::Pr(c) => c.execute(args),
            Offered::Ot(c) => c.execute(args),
            Offered::Vd(c) => c.execute(args),
            Offered::Lp(c) => c.execute(args),
            Offered::Vs(c) => c.execute(args),
        }
    }
}

impl Offered {
    /// How long, in seconds, the capability is made to take over a job
    /// with these arguments before it answers: two to three minutes for a
    /// licence plate recognition that is asked properly, and no time for
    /// anything else.
    pub fn simulated_seconds(&self, args: &Vec<String>) -> (out: u64)
        ensures
            match self {
                Offered::Lp(_) if args.len() >= 2 => 120 <= out <= 180,
                _ => out == 0,
            },
    {
        match self {
            Offered::Lp(_) => if args.len() >= 2 {
                lp::processing_seconds()
            } else {
                0
            },
            _ => 0,
        }
    }
}

/// A result with both sides taken as texts.
pub open spec fn result_view(out: Result<String, String>) -> Result<Seq<char>, Seq<char>> {
    match out {
        Ok(text) => Ok(text@),
        Err(text) => Err(text@),
    }
}

} // verus!
