//! What a worker does with a job: which way the job goes, and the work
//! that needs nothing but arithmetic.

use crate::capabilities::{Capability, Offered};
use crate::store::texts;
use crate::text::{contains, number_of, occurs_in, parse_number, same_text};
use vstd::prelude::*;
use vstd::string::StringExecFns;

verus! {

/// A job as a worker gets it, as the contracts speak of it.
pub struct TaskView {
    pub id: Seq<char>,
    pub job_type: Seq<char>,
    pub command: Seq<char>,
    pub args: Seq<Seq<char>>,
    pub tags: Seq<Seq<char>>,
}

/// A job as a worker gets it.
#[derive(Clone, Debug)]
pub struct Job {
    pub id: String,
    /// The code of a capability, or one of `prime_search`, `gpu_test` and
    /// `string_search`; anything else runs `command`.
    pub job_type: String,
    pub command: String,
    pub args: Vec<String>,
    /// The environment of `command`: names and values.
    pub env: Vec<(String, String)>,
    pub tags: Vec<String>,
}

impl View for Job {
    type V = TaskView;

    open spec fn view(&self) -> TaskView {
        TaskView {
            id: self.id@,
            job_type: self.job_type@,
            command: self.command@,
            args: texts(self.args@),
            tags: texts(self.tags@),
        }
    }
}

/// A number is prime where it is greater than one and nothing between one
/// and itself divides it.
pub open spec fn prime(n: nat) -> bool {
    n > 1 && forall|d: nat| 1 < d < n ==> #[trigger] (n % d) != 0
}

/// A divisor of `n` that is at least `i`, where `i * i` is more than `n`,
/// has a partner below `i`.
proof fn lemma_small_partner(n: nat, i: nat, d: nat)
    requires
        1 < i,
        i > n / i,
        i <= d < n,
        n % d == 0,
    ensures
        1 < n / d < i,
        n % (n / d) == 0,
{
    let q = n / d;
    assert(n == q * d) by {
        vstd::arithmetic::div_mod::lemma_fundamental_div_mod(n as int, d as int);
    }
    assert(q > 1) by (nonlinear_arith)
        requires
            n == q * d,
            d < n,
            d > 0,
    ;
    assert(q < i) by {
        if q >= i {
            assert(q * d >= i * i) by (nonlinear_arith)
                requires
                    q >= i,
                    d >= i,
                    i > 0,
            ;
            let r = n / i;
            assert(n == i * r + n % i) by {
                vstd::arithmetic::div_mod::lemma_fundamental_div_mod(n as int, i as int);
            }
            assert(n % i < i) by {
                vstd::arithmetic::div_mod::lemma_mod_bound(n as int, i as int);
            }
            assert(i * r + n % i < i * i) by (nonlinear_arith)
                requires
                    r < i,
                    n % i < i,
                    r >= 0,
                    i > 0,
            ;
        }
    }
    assert(n % q == 0) by {
        assert(n == d * q) by (nonlinear_arith)
            requires
                n == q * d,
        ;
        vstd::arithmetic::div_mod::lemma_mod_multiples_basic(d as int, q as int);
    }
}

/// Decides whether a number is prime.
pub fn is_prime(n: u64) -> (out: bool)
    ensures
        out == prime(n as nat),
{
    if n <= 1 {
        return false;
    }
    let mut i: u64 = 2;
    while i <= n / i
        invariant
            2 <= i <= n,
            1 < n,
            forall|d: nat| 1 < d < i ==> #[trigger] ((n as nat) % d) != 0,
        decreases n - i,
    {
        if n % i == 0 {
            proof {
                assert(i < n) by {
                    if i == n {
                        assert(n / i == 1) by (nonlinear_arith)
                            requires
                                i == n,
                                n > 0,
                        ;
                    }
                }
                assert((n as nat) % (i as nat) == 0);
            }
            return false;
        }
        proof {
            assert(i < n) by {
                if i == n {
                    assert(n / i == 1) by (nonlinear_arith)
                        requires
                            i == n,
                            n > 0,
                    ;
                }
            }
        }
        i += 1;
    }
    proof {
        assert forall|d: nat| 1 < d < n implies #[trigger] ((n as nat) % d) != 0 by {
            if d >= i && (n as nat) % d == 0 {
                lemma_small_partner(n as nat, i as nat, d);
                let q = (n as nat) / d;
                assert((n as nat) % q == 0);
            }
        }
    }
    true
}

/// The number of primes from `start` up to, but not with, `end`.
pub open spec fn primes_between(start: nat, end: nat) -> nat
    decreases end,
{
    if end <= start {
        0
    } else {
        primes_between(start, (end - 1) as nat) + if prime((end - 1) as nat) {
            1nat
        } else {
            0nat
        }
    }
}

/// Counts the primes from `start` up to, but not with, `end`.
pub fn count_primes(start: u64, end: u64) -> (out: u64)
    ensures
        out == primes_between(start as nat, end as nat),
{
    let mut count: u64 = 0;
    let mut i: u64 = start;
    if start >= end {
        return 0;
    }
    while i < end
        invariant
            start <= i <= end,
            count == primes_between(start as nat, i as nat),
            count <= i - start,
        decreases end - i,
    {
        if is_prime(i) {
            count += 1;
        }
        i += 1;
    }
    count
}

/// The number that argument `at` of a job stands for, or zero where the
/// job has no such argument or the argument is no number.
pub open spec fn arg_number(args: Seq<Seq<char>>, at: int) -> u64 {
    if 0 <= at < args.len() {
        match number_of(args[at]) {
            Some(n) => n,
            None => 0,
        }
    } else {
        0
    }
}

/// Reads the number that argument `at` of a job stands for.
pub fn read_arg_number(args: &Vec<String>, at: usize) -> (out: u64)
    ensures
        out == arg_number(texts(args@), at as int),
{
    if at < args.len() {
        match parse_number(args[at].as_str()) {
            Some(n) => n,
            None => 0,
        }
    } else {
        0
    }
}

/// The way that a job goes, as the contracts speak of it.
pub enum RouteView {
    Capability(int),
    PrimeSearch { start: u64, end: u64 },
    GpuTest,
    StringSearch { path: Seq<char>, terms: Seq<Seq<char>> },
    MissingFilePath,
    NoSearchTerms,
    Command,
}

/// The way that a job goes.
#[derive(Clone, Debug)]
pub enum Route {
    /// To the capability at this place of the profile.
    Capability(usize),
    /// Count the primes from `start` up to `end`.
    PrimeSearch { start: u64, end: u64 },
    /// Try the GPU out.
    GpuTest,
    /// Count, line by line, the terms that occur in the file at `path`.
    StringSearch { path: String, terms: Vec<String> },
    /// A search without a file: the job has failed.
    MissingFilePath,
    /// A search without terms: the job has failed.
    NoSearchTerms,
    /// Run `command` with the arguments and the environment of the job.
    Command,
}

impl View for Route {
    type V = RouteView;

    open spec fn view(&self) -> RouteView {
        match self {
            Route::Capability(at) => RouteView::Capability(*at as int),
            Route::PrimeSearch { start, end } => RouteView::PrimeSearch {
                start: *start,
                end: *end,
            },
            Route::GpuTest => RouteView::GpuTest,
            Route::StringSearch { path, terms } => RouteView::StringSearch {
                path: path@,
                terms: texts(terms@),
            },
            Route::MissingFilePath => RouteView::MissingFilePath,
            Route::NoSearchTerms => RouteView::NoSearchTerms,
            Route::Command => RouteView::Command,
        }
    }
}

/// The codes of a profile, in order.
pub open spec fn codes_of(profile: Seq<Offered>) -> Seq<Seq<char>> {
    Seq::new(profile.len(), |i: int| profile[i].code_of())
}

/// The first place at which `code` stands among `codes`.
pub open spec fn first_code(codes: Seq<Seq<char>>, code: Seq<char>) -> Option<int>
    decreases codes.len(),
{
    if codes.len() == 0 {
        None
    } else {
        match first_code(codes.drop_last(), code) {
            Some(at) => Some(at),
            None => if codes.last() == code {
                Some(codes.len() - 1)
            } else {
                None
            },
        }
    }
}

/// `first_code` gives a place where the code stands and before which it
/// does not stand, and gives none only where the code stands nowhere.
pub proof fn lemma_first_code(codes: Seq<Seq<char>>, code: Seq<char>)
    ensures
        match first_code(codes, code) {
            Some(at) => 0 <= at < codes.len() && codes[at] == code && forall|j: int|
                0 <= j < at ==> codes[j] != code,
            None => forall|j: int| 0 <= j < codes.len() ==> codes[j] != code,
        },
    decreases codes.len(),
{
    if codes.len() > 0 {
        lemma_first_code(codes.drop_last(), code);
        assert forall|j: int| 0 <= j < codes.len() - 1 implies codes.drop_last()[j]
            == codes[j] by {}
    }
}

/// The way that a job goes on a worker with the capabilities `codes`: to
/// the first capability whose code is the kind of the job; else by the
/// kind of the job to one of the built-in tasks; else to its command.
pub open spec fn route_of(job: TaskView, codes: Seq<Seq<char>>) -> RouteView {
    match first_code(codes, job.job_type) {
        Some(at) => RouteView::Capability(at),
        None => if job.job_type == "prime_search"@ {
            RouteView::PrimeSearch {
                start: arg_number(job.args, 0),
                end: arg_number(job.args, 1),
            }
        } else if job.job_type == "gpu_test"@ {
            RouteView::GpuTest
        } else if job.job_type == "string_search"@ {
            if job.args.len() == 0 {
                RouteView::MissingFilePath
            } else if job.args.len() == 1 {
                RouteView::NoSearchTerms
            } else {
                RouteView::StringSearch { path: job.args[0], terms: job.args.skip(1) }
            }
        } else {
            RouteView::Command
        },
    }
}

/// Finds the first capability of a profile that goes by `code`.
pub fn find_capability(profile: &Vec<Offered>, code: &str) -> (out: Option<usize>)
    ensures
        match out {
            Some(at) => first_code(codes_of(profile@), code@) == Some(at as int) && at
                < profile.len(),
            None => first_code(codes_of(profile@), code@) is None,
        },
{
    let ghost codes = codes_of(profile@);
    let mut i: usize = 0;
    while i < profile.len()
        invariant
            i <= profile.len(),
            codes == codes_of(profile@),
            forall|j: int| 0 <= j < i ==> codes[j] != code@,
        decreases profile.len() - i,
    {
        if same_text(profile[i].code(), code) {
            proof {
                lemma_first_code(codes, code@);
                assert(codes[i as int] == code@);
                match first_code(codes, code@) {
                    Some(at) => {
                        if at < i {
                            assert(codes[at] != code@);
                        }
                    },
                    None => {},
                }
            }
            return Some(i);
        }
        i += 1;
    }
    proof {
        lemma_first_code(codes, code@);
    }
    None
}

/// Decides the way that a job goes on a worker with this profile.
pub fn route(job: &Job, profile: &Vec<Offered>) -> (out: Route)
    ensures
        out@ == route_of(job@, codes_of(profile@)),
{
    match find_capability(profile, job.job_type.as_str()) {
        Some(at) => {
            return Route::Capability(at);
        },
        None => {},
    }
    if same_text(job.job_type.as_str(), "prime_search") {
        Route::PrimeSearch {
            start: read_arg_number(&job.args, 0),
            end: read_arg_number(&job.args, 1),
        }
    } else if same_text(job.job_type.as_str(), "gpu_test") {
        Route::GpuTest
    } else if same_text(job.job_type.as_str(), "string_search") {
        if job.args.len() == 0 {
            Route::MissingFilePath
        } else if job.args.len() == 1 {
            Route::NoSearchTerms
        } else {
            let mut terms: Vec<String> = Vec::new();
            let mut i: usize = 1;
            while i < job.args.len()
                invariant
                    1 <= i <= job.args.len(),
                    terms.len() == i - 1,
                    forall|k: int| 0 <= k < i - 1 ==> terms@[k]@ == job.args@[k + 1]@,
                decreases job.args.len() - i,
            {
                terms.push(job.args[i].clone());
                i += 1;
            }
            proof {
                assert(texts(terms@) =~= texts(job.args@).skip(1));
            }
            Route::StringSearch { path: job.args[0].clone(), terms }
        }
    } else {
        Route::Command
    }
}

/// How many of the first `upto` terms occur in `line`.
pub open spec fn matches_in(line: Seq<char>, terms: Seq<Seq<char>>, upto: nat) -> nat
    decreases upto,
{
    if upto == 0 || upto > terms.len() {
        0
    } else {
        matches_in(line, terms, (upto - 1) as nat) + if occurs_in(line, terms[upto - 1]) {
            1nat
        } else {
            0nat
        }
    }
}

/// Counts the terms that occur in `line`.
pub fn count_matches(line: &str, terms: &Vec<String>) -> (out: usize)
    ensures
        out == matches_in(line@, texts(terms@), terms.len() as nat),
        out <= terms.len(),
{
    let mut count: usize = 0;
    let mut i: usize = 0;
    while i < terms.len()
        invariant
            i <= terms.len(),
            count <= i,
            count == matches_in(line@, texts(terms@), i as nat),
        decreases terms.len() - i,
    {
        if contains(line, terms[i].as_str()) {
            count += 1;
        }
        i += 1;
    }
    count
}

/// The frame that reports a job done. The coordinator takes any frame
/// that holds `completed` for such a report.
pub fn completion_frame(id: &str) -> (out: String)
    ensures
        out@ == "Job Completed: "@ + id@,
{
    let mut out = "Job Completed: ".to_owned();
    out.append(id);
    out
}

/// The frame that reports a job failed.
pub fn failure_frame(id: &str) -> (out: String)
    ensures
        out@ == "Job Failed: "@ + id@,
{
    let mut out = "Job Failed: ".to_owned();
    out.append(id);
    out
}

/// The frame that turns a job down.
pub fn rejection_frame(id: &str) -> (out: String)
    ensures
        out@ == "Job Rejected: "@ + id@,
{
    let mut out = "Job Rejected: ".to_owned();
    out.append(id);
    out
}

} // verus!
