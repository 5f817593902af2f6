//! Deadlines for waits: when a wait must end, and how long it may still block.

use std::time::{Duration, Instant};

use vstd::prelude::*;

verus! {

#[verifier::external_type_specification]
#[verifier::external_body]
pub struct ExInstant(Instant);

/// The time from `now` until `at`, zero once `at` is past: what
/// `Instant::saturating_duration_since` gives for `at` and `now`.
pub uninterp spec fn time_until(at: Instant, now: Instant) -> Duration;

/// `now + d`, or `None` when that is beyond what an `Instant` can hold: what
/// `Instant::checked_add` gives for `now` and `d`.
pub uninterp spec fn instant_after(now: Instant, d: Duration) -> Option<Instant>;

/// Wraps `Instant::saturating_duration_since`, a function of its two
/// instants alone; its value is named, not stated.
#[verifier::external_body]
fn saturating_duration_since(at: Instant, now: Instant) -> (r: Duration)
    ensures
        r == time_until(at, now),
{
    at.saturating_duration_since(now)
}

/// Wraps `Instant::checked_add`, a function of its two arguments alone; its
/// value is named, not stated.
#[verifier::external_body]
fn checked_add(now: Instant, d: Duration) -> (r: Option<Instant>)
    ensures
        r == instant_after(now, d),
{
    now.checked_add(d)
}

/// The deadline of a wait of `timeout` starting at `now`: `None` (no
/// timeout) blocks until the event; `Some(None)` is a timeout so large that
/// the deadline overflowed, which also blocks until the event.
pub fn deadline_after(now: Instant, timeout: Option<Duration>) -> (r: Option<Option<Instant>>)
    ensures
        r == match timeout {
            None => None::<Option<Instant>>,
            Some(d) => Some(instant_after(now, d)),
        },
{
    match timeout {
        None => None,
        Some(d) => Some(checked_add(now, d)),
    }
}

/// How a bounded wait for a child runs.
#[derive(Debug, Clone, Copy)]
pub enum WaitPlan {
    /// Wait until this deadline at most.
    Until(Instant),
    /// Wait until the child exits: the timeout overflowed the clock.
    Forever,
}

/// The plan for waiting up to `timeout` from `now`: until `now + timeout`, or,
/// when that overflows, until the child exits (never a panic).
pub fn plan_wait(now: Instant, timeout: Duration) -> (r: WaitPlan)
    ensures
        r == match instant_after(now, timeout) {
            Some(at) => WaitPlan::Until(at),
            None => WaitPlan::Forever,
        },
{
    match checked_add(now, timeout) {
        Some(at) => WaitPlan::Until(at),
        None => WaitPlan::Forever,
    }
}

/// Remaining time at `now` until `deadline`: `None` means unbounded — no
/// deadline, or (`Some(None)`) a deadline that overflowed the clock. A
/// deadline gives the time from `now` until it, zero once it is past.
pub fn remaining(deadline: Option<Option<Instant>>, now: Instant) -> (r: Option<Duration>)
    ensures
        r == match deadline {
            Some(Some(at)) => Some(time_until(at, now)),
            _ => None::<Duration>,
        },
{
    match deadline {
        None => None,
        Some(None) => None,
        Some(Some(at)) => Some(saturating_duration_since(at, now)),
    }
}

} // verus!
