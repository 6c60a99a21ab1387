//! The decisions of `retry(fn, max?, opts?)`: which outcomes are retried,
//! how long to wait between attempts, and when to stop.
use vstd::prelude::*;
use crate::interpreter::{is_ok_false, value_is_ok_false, Signal};
use crate::text::str_eq;
use crate::value::{assoc_get, Value, ValueModel};

verus! {

/// How the wait between attempts grows.
#[derive(Debug, Clone, Copy, PartialEq, Eq)]
pub enum Backoff {
    /// The first wait, doubled after every failed attempt.
    Exponential,
    /// The first wait times the number of failed attempts.
    Linear,
    /// The same wait every time.
    Fixed,
}

/// The longest wait between two attempts, in milliseconds.
pub const MAX_RETRY_DELAY_MS: u64 = 30000;

/// The wait before the first retry when `opts` gives none, in milliseconds.
pub const DEFAULT_RETRY_DELAY_MS: u64 = 1000;

/// How many times the function is called when `max` is not given.
pub const DEFAULT_MAX_ATTEMPTS: u32 = 3;

/// The strategy a `backoff` option names: `"exponential"`, `"linear"`, and
/// anything else a fixed wait.
pub open spec fn backoff_named(name: Seq<char>) -> Backoff {
    if name == "exponential"@ {
        Backoff::Exponential
    } else if name == "linear"@ {
        Backoff::Linear
    } else {
        Backoff::Fixed
    }
}

pub fn backoff_from_name(name: &str) -> (r: Backoff)
    ensures
        r == backoff_named(name@),
{
    if str_eq(name, "exponential") {
        Backoff::Exponential
    } else if str_eq(name, "linear") {
        Backoff::Linear
    } else {
        Backoff::Fixed
    }
}

/// The strategy the options argument asks for: its `backoff` entry when it
/// is an object whose `backoff` is a string, exponential otherwise.
pub open spec fn backoff_of_opts(opts: ValueModel) -> Backoff {
    match opts {
        ValueModel::Object(es) => match assoc_get(es, "backoff"@) {
            Some(ValueModel::Str(s)) => backoff_named(s),
            _ => Backoff::Exponential,
        },
        _ => Backoff::Exponential,
    }
}

pub fn retry_backoff(opts: &Value) -> (r: Backoff)
    ensures
        r == backoff_of_opts(opts.model()),
{
    match opts {
        Value::Object(m) => match m.get("backoff") {
            Some(Value::Str(s)) => backoff_from_name(s.as_str()),
            _ => Backoff::Exponential,
        },
        _ => Backoff::Exponential,
    }
}

/// `2` to the power `n`.
pub open spec fn two_pow(n: nat) -> nat
    decreases n,
{
    if n == 0 {
        1
    } else {
        2 * two_pow((n - 1) as nat)
    }
}

proof fn lemma_two_pow_monotonic(a: nat, b: nat)
    requires
        a <= b,
    ensures
        1 <= two_pow(a) <= two_pow(b),
    decreases b,
{
    if b > 0 {
        if a < b {
            lemma_two_pow_monotonic(a, (b - 1) as nat);
        } else {
            lemma_two_pow_monotonic((b - 1) as nat, (b - 1) as nat);
        }
    }
}

/// The wait after failed attempt number `attempt` (counting from zero),
/// before the cap.
pub open spec fn uncapped_delay(b: Backoff, initial: nat, attempt: nat) -> nat {
    match b {
        Backoff::Exponential => initial * two_pow(attempt),
        Backoff::Linear => initial * (attempt + 1),
        Backoff::Fixed => initial,
    }
}

/// The wait after failed attempt number `attempt`, at most thirty seconds.
pub open spec fn retry_delay(b: Backoff, initial: nat, attempt: nat) -> nat {
    let d = uncapped_delay(b, initial, attempt);
    if d <= MAX_RETRY_DELAY_MS { d } else { MAX_RETRY_DELAY_MS as nat }
}

/// The wait is computed in 64-bit arithmetic: it is defined where the
/// power of two and the product fit.
pub open spec fn delay_fits(b: Backoff, initial: nat, attempt: nat) -> bool {
    &&& b == Backoff::Exponential ==> two_pow(attempt) <= u64::MAX
    &&& uncapped_delay(b, initial, attempt) <= u64::MAX
}

/// The wait in milliseconds after failed attempt number `attempt`.
pub fn retry_delay_ms(backoff: Backoff, initial_delay_ms: u64, attempt: u32) -> (r: u64)
    requires
        delay_fits(backoff, initial_delay_ms as nat, attempt as nat),
    ensures
        r == retry_delay(backoff, initial_delay_ms as nat, attempt as nat),
        r <= MAX_RETRY_DELAY_MS,
{
    let d: u64 = match backoff {
        Backoff::Exponential => {
            let mut p: u64 = 1;
            let mut k: u32 = 0;
            while k < attempt
                invariant
                    k <= attempt,
                    p as nat == two_pow(k as nat),
                    two_pow(attempt as nat) <= u64::MAX,
                decreases attempt - k,
            {
                proof {
                    lemma_two_pow_monotonic((k + 1) as nat, attempt as nat);
                }
                p = p * 2;
                k = k + 1;
            }
            proof {
                lemma_two_pow_monotonic(0, attempt as nat);
            }
            initial_delay_ms * p
        },
        Backoff::Linear => initial_delay_ms * (attempt as u64 + 1),
        Backoff::Fixed => initial_delay_ms,
    };
    if d <= MAX_RETRY_DELAY_MS {
        d
    } else {
        MAX_RETRY_DELAY_MS
    }
}

/// Whether an attempt's outcome is a failure worth retrying: a thrown
/// error, or a returned `{ ok: false, ... }`.
pub fn outcome_is_retryable(outcome: &Result<Value, Signal>) -> (r: bool)
    ensures
        r == match outcome {
            Ok(v) => is_ok_false(v.model()),
            Err(_) => true,
        },
{
    match outcome {
        Ok(v) => value_is_ok_false(v),
        Err(_) => true,
    }
}

/// What the retry loop does after an attempt.
#[derive(Debug, Clone, Copy, PartialEq, Eq)]
pub enum RetryStep {
    /// Return the attempt's outcome as it is.
    Finish,
    /// Wait this many milliseconds, then call the function again.
    Wait(u64),
}

/// After attempt number `attempt` of `max_attempts`: an outcome that is
/// not retryable, or the last attempt's, is returned; otherwise the loop
/// waits and tries again.
pub open spec fn next_step(
    attempt: nat,
    max_attempts: nat,
    retryable: bool,
    b: Backoff,
    initial: nat,
) -> RetryStep {
    if !retryable || attempt + 1 >= max_attempts {
        RetryStep::Finish
    } else {
        RetryStep::Wait(retry_delay(b, initial, attempt) as u64)
    }
}

pub fn after_attempt(
    attempt: u32,
    max_attempts: u32,
    retryable: bool,
    backoff: Backoff,
    initial_delay_ms: u64,
) -> (r: RetryStep)
    requires
        attempt < max_attempts,
        retryable && attempt + 1 < max_attempts ==> delay_fits(
            backoff,
            initial_delay_ms as nat,
            attempt as nat,
        ),
    ensures
        r == next_step(
            attempt as nat,
            max_attempts as nat,
            retryable,
            backoff,
            initial_delay_ms as nat,
        ),
{
    if !retryable || attempt + 1 >= max_attempts {
        RetryStep::Finish
    } else {
        RetryStep::Wait(retry_delay_ms(backoff, initial_delay_ms, attempt))
    }
}

/// Waits never shrink from one attempt to the next, and never exceed
/// thirty seconds.
pub proof fn lemma_delays_grow_up_to_the_cap(b: Backoff, initial: nat, attempt: nat)
    ensures
        retry_delay(b, initial, attempt) <= retry_delay(b, initial, attempt + 1),
        retry_delay(b, initial, attempt + 1) <= MAX_RETRY_DELAY_MS,
{
    match b {
        Backoff::Exponential => {
            lemma_two_pow_monotonic(attempt, attempt + 1);
            assert(initial * two_pow(attempt) <= initial * two_pow(attempt + 1)) by (nonlinear_arith)
                requires
                    two_pow(attempt) <= two_pow(attempt + 1),
            ;
        },
        Backoff::Linear => {
            assert(initial * (attempt + 1) <= initial * (attempt + 2)) by (nonlinear_arith);
        },
        Backoff::Fixed => {},
    }
}

/// The retry loop stops: an outcome that is not retryable is returned at
/// once, and the attempt numbered `max_attempts - 1` is the last.
pub proof fn lemma_retry_stops(attempt: nat, max_attempts: nat, retryable: bool, b: Backoff, initial: nat)
    requires
        !retryable || attempt + 1 >= max_attempts,
    ensures
        next_step(attempt, max_attempts, retryable, b, initial) == RetryStep::Finish,
{
}

} // verus!
