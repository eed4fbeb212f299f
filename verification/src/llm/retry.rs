//! Shared transient-failure retry policy for provider transports.
use vstd::prelude::*;

use crate::text::{number_of, parse_number};

verus! {

/// A span of time, as seconds and nanoseconds.
#[derive(Debug, Clone, Copy, PartialEq, Eq, Structural)]
pub struct Duration {
    pub secs: u64,
    pub nanos: u32,
}

impl Duration {
    /// The span in nanoseconds.
    pub open spec fn total(self) -> int {
        self.secs * 1_000_000_000 + self.nanos
    }

    /// Nanoseconds make no full second.
    pub open spec fn wf(self) -> bool {
        self.nanos < 1_000_000_000
    }

    /// `secs` seconds.
    pub fn from_secs(secs: u64) -> (r: Self)
        ensures
            r.wf(),
            r.total() == secs * 1_000_000_000,
            r.secs == secs,
    {
        Duration { secs, nanos: 0 }
    }

    /// `millis` milliseconds.
    pub fn from_millis(millis: u64) -> (r: Self)
        ensures
            r.wf(),
            r.total() == millis * 1_000_000,
    {
        Duration { secs: millis / 1000, nanos: ((millis % 1000) * 1_000_000) as u32 }
    }

    /// The shorter of two spans.
    pub fn min(self, other: Self) -> (r: Self)
        requires
            self.wf(),
            other.wf(),
        ensures
            r == (if self.total() <= other.total() {
                self
            } else {
                other
            }),
    {
        if self.secs < other.secs || (self.secs == other.secs && self.nanos <= other.nanos) {
            self
        } else {
            other
        }
    }
}

pub const MAX_ATTEMPTS: u32 = 5;

pub const BASE_DELAY_MS: u64 = 500;

pub const MAX_DELAY_MS: u64 = 16_000;

/// Two to the power of `n`.
pub open spec fn pow2(n: nat) -> int
    decreases n,
{
    if n == 0 {
        1
    } else {
        2 * pow2((n - 1) as nat)
    }
}

/// Whether an HTTP status is worth retrying. 429 is rate limiting, 529 is an
/// overloaded server, 5xx is transient server failure.
pub fn retryable_status(status: u16) -> (r: bool)
    ensures
        r == (status == 429 || 500 <= status < 600),
{
    status == 429 || status == 529 || (500 <= status && status < 600)
}

/// How long to wait before the attempt after `attempt`, in nanoseconds.
pub open spec fn delay_of(attempt: u32, retry_after: Option<Duration>) -> int {
    match retry_after {
        Some(d) => if d.total() <= MAX_DELAY_MS * 4 * 1_000_000 {
            d.total()
        } else {
            MAX_DELAY_MS * 4 * 1_000_000
        },
        None => {
            let exp = BASE_DELAY_MS * pow2(
                if attempt < 10 {
                    attempt as nat
                } else {
                    10
                },
            );
            (if exp <= MAX_DELAY_MS {
                exp
            } else {
                MAX_DELAY_MS as int
            }) * 1_000_000
        },
    }
}

/// Powers grow.
proof fn lemma_pow2(a: nat, b: nat)
    requires
        a <= b,
    ensures
        1 <= pow2(a) <= pow2(b),
    decreases b,
{
    if a < b {
        lemma_pow2(a, (b - 1) as nat);
    } else if a > 0 {
        lemma_pow2((a - 1) as nat, (a - 1) as nat);
    }
}

/// Exponential backoff with a cap. `retry_after` (from a Retry-After header)
/// wins over the computed delay when present.
pub fn delay(attempt: u32, retry_after: Option<Duration>) -> (r: Duration)
    requires
        retry_after matches Some(d) ==> d.wf(),
    ensures
        r.wf(),
        r.total() == delay_of(attempt, retry_after),
{
    if let Some(d) = retry_after {
        return d.min(Duration::from_millis(MAX_DELAY_MS * 4));
    }
    let n: u32 = if attempt < 10 {
        attempt
    } else {
        10
    };
    let mut exp: u64 = BASE_DELAY_MS;
    let mut i: u32 = 0;
    proof {
        lemma_pow2(n as nat, 10);
        reveal_with_fuel(pow2, 11);
    }
    while i < n
        invariant
            i <= n <= 10,
            exp == BASE_DELAY_MS * pow2(i as nat),
            pow2(10) == 1024,
        decreases n - i,
    {
        proof {
            lemma_pow2(i as nat, 10);
        }
        exp = exp * 2;
        i += 1;
    }
    let capped: u64 = if exp <= MAX_DELAY_MS {
        exp
    } else {
        MAX_DELAY_MS
    };
    Duration::from_millis(capped)
}

/// What became of one attempt to reach a provider.
#[derive(Debug, Clone, Copy)]
pub enum Attempt {
    /// A success status.
    Success,
    /// Another status, with the Retry-After header where it named seconds.
    Status { status: u16, retry_after: Option<u64> },
    /// No response; `transient` on a timeout, connect or request error.
    NoResponse { transient: bool },
}

/// What to do after an attempt.
#[derive(Debug, Clone, Copy)]
pub enum Next {
    /// Read the response.
    Accept,
    /// Wait, and try once more.
    Retry(Duration),
    /// Report the failure.
    GiveUp,
}

/// Whether an attempt failed in a way worth another.
pub open spec fn worth_retrying(outcome: Attempt) -> bool {
    match outcome {
        Attempt::Success => false,
        Attempt::Status { status, .. } => status == 429 || 500 <= status < 600,
        Attempt::NoResponse { transient } => transient,
    }
}

/// The wait that the server asked for.
pub open spec fn asked_wait(outcome: Attempt) -> Option<Duration> {
    match outcome {
        Attempt::Status { retry_after: Some(secs), .. } => Some(Duration { secs, nanos: 0 }),
        _ => None,
    }
}

/// The seconds that a Retry-After header names, where it came and names any.
pub fn retry_after(header: Option<&str>) -> (r: Option<u64>)
    ensures
        match r {
            Some(secs) => header is Some && number_of(header->0@) == Some(secs as int),
            None => header is None || number_of(header->0@) is None,
        },
{
    match header {
        None => None,
        Some(text) => parse_number(text),
    }
}

/// What to do after attempt number `attempt`, counted from zero, came out as
/// `outcome`.
pub fn after_attempt(attempt: u32, outcome: Attempt) -> (r: Next)
    ensures
        match r {
            Next::Accept => outcome is Success,
            Next::Retry(wait) => worth_retrying(outcome) && attempt + 1 < MAX_ATTEMPTS && wait.wf()
                && wait.total() == delay_of(attempt, asked_wait(outcome)),
            Next::GiveUp => !(outcome is Success) && !(worth_retrying(outcome) && attempt + 1
                < MAX_ATTEMPTS),
        },
{
    match outcome {
        Attempt::Success => Next::Accept,
        Attempt::Status { status, retry_after } => {
            let after = match retry_after {
                Some(secs) => Some(Duration::from_secs(secs)),
                None => None,
            };
            if retryable_status(status) && attempt < MAX_ATTEMPTS - 1 {
                Next::Retry(delay(attempt, after))
            } else {
                Next::GiveUp
            }
        },
        Attempt::NoResponse { transient } => {
            if transient && attempt < MAX_ATTEMPTS - 1 {
                Next::Retry(delay(attempt, None))
            } else {
                Next::GiveUp
            }
        },
    }
}

/// No wait is longer than four times the cap, a computed wait never longer
/// than the cap and never shorter than the base.
pub proof fn law_delay_is_bounded(attempt: u32, retry_after: Option<Duration>)
    ensures
        delay_of(attempt, retry_after) <= 4 * MAX_DELAY_MS * 1_000_000,
        retry_after is None ==> BASE_DELAY_MS * 1_000_000 <= delay_of(attempt, None)
            <= MAX_DELAY_MS * 1_000_000,
{
    if retry_after is None {
        let n: nat = if attempt < 10 {
            attempt as nat
        } else {
            10
        };
        lemma_pow2(0, n);
        assert(BASE_DELAY_MS * pow2(n) >= BASE_DELAY_MS) by (nonlinear_arith)
            requires
                pow2(n) >= 1,
        ;
    }
}

/// Later attempts never wait less than earlier ones.
pub proof fn law_delay_never_shrinks(earlier: u32, later: u32)
    requires
        earlier <= later,
    ensures
        delay_of(earlier, None) <= delay_of(later, None),
{
    let m: nat = if earlier < 10 {
        earlier as nat
    } else {
        10
    };
    let n: nat = if later < 10 {
        later as nat
    } else {
        10
    };
    lemma_pow2(m, n);
    assert(BASE_DELAY_MS * pow2(m) <= BASE_DELAY_MS * pow2(n)) by (nonlinear_arith)
        requires
            pow2(m) <= pow2(n),
    ;
}

} // verus!
