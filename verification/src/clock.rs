//! Time from the standard library: spans of time as numbers of nanoseconds,
//! and the two clocks.

use std::time::Duration;
use std::time::Instant;
use std::time::SystemTime;
use vstd::prelude::*;

verus! {

/// Nanoseconds in a second.
pub const NANOS_PER_SEC: u128 = 1_000_000_000;

/// The longest span that a `Duration` can hold, in nanoseconds: the largest
/// 64-bit number of seconds and one nanosecond less than a second more.
pub const MAX_DURATION_NANOS: u128 = 18_446_744_073_709_551_615_999_999_999;

/// `std::time::Instant`, a point on the monotonic clock.
#[verifier::external_type_specification]
#[verifier::external_body]
pub struct ExInstant(Instant);

/// `Instant::clone`: the copy is the same point in time.
pub assume_specification[ <Instant as Clone>::clone ](instant: &Instant) -> (copy: Instant)
    ensures
        copy == *instant,
;

/// `std::time::SystemTime`, a point on the wall clock.
#[verifier::external_type_specification]
#[verifier::external_body]
pub struct ExSystemTime(SystemTime);

/// The length of a span in nanoseconds: what `Duration::as_nanos` returns.
pub uninterp spec fn duration_nanos(span: Duration) -> u128;

/// `Duration::as_nanos`: the length of the span in nanoseconds, which is at
/// most what a `Duration` can hold.
#[verifier::external_body]
pub(crate) fn nanos_of(span: &Duration) -> (nanos: u128)
    ensures
        nanos == duration_nanos(*span),
        nanos <= MAX_DURATION_NANOS,
{
    span.as_nanos()
}

/// `Duration::new` with less than a second of nanoseconds, so that nothing
/// carries over: the span of `secs` seconds and `nanos` nanoseconds.
#[verifier::external_body]
pub(crate) fn span_of_parts(secs: u64, nanos: u32) -> (span: Duration)
    requires
        nanos < NANOS_PER_SEC,
    ensures
        duration_nanos(span) == secs * NANOS_PER_SEC + nanos,
{
    Duration::new(secs, nanos)
}

/// `Instant::now`: the present point on the monotonic clock. Nothing is
/// claimed of it.
#[verifier::external_body]
pub(crate) fn instant_now() -> Instant {
    Instant::now()
}

/// `Instant::elapsed`: the time that has passed since `start`. Nothing is
/// claimed of it.
#[verifier::external_body]
pub(crate) fn instant_elapsed(start: &Instant) -> Duration {
    start.elapsed()
}

/// `SystemTime::now`: the present point on the wall clock. Nothing is
/// claimed of it.
#[verifier::external_body]
pub(crate) fn system_now() -> SystemTime {
    SystemTime::now()
}

/// `SystemTime::duration_since` the Unix epoch: the time from the epoch to
/// `time`, or `None` where `time` lies before the epoch. Nothing is claimed
/// of it.
#[verifier::external_body]
pub(crate) fn since_epoch(time: &SystemTime) -> Option<Duration> {
    time.duration_since(SystemTime::UNIX_EPOCH).ok()
}

/// The span of the given number of nanoseconds.
pub fn span_of_nanos(nanos: u128) -> (span: Duration)
    requires
        nanos <= MAX_DURATION_NANOS,
    ensures
        duration_nanos(span) == nanos,
{
    let secs = nanos / NANOS_PER_SEC;
    let rest = nanos % NANOS_PER_SEC;
    assert(secs <= u64::MAX) by (nonlinear_arith)
        requires
            secs == nanos / NANOS_PER_SEC,
            nanos <= MAX_DURATION_NANOS,
    ;
    assert(secs * NANOS_PER_SEC + rest == nanos) by (nonlinear_arith)
        requires
            secs == nanos / NANOS_PER_SEC,
            rest == nanos % NANOS_PER_SEC,
    ;
    span_of_parts(secs as u64, rest as u32)
}

/// The sum of two numbers of nanoseconds, held at the longest span where it
/// would exceed it.
pub fn add_capped(a: u128, b: u128) -> (sum: u128)
    requires
        a <= MAX_DURATION_NANOS,
        b <= MAX_DURATION_NANOS,
    ensures
        sum == (if a + b > MAX_DURATION_NANOS {
            MAX_DURATION_NANOS as int
        } else {
            a + b
        }),
{
    if a + b > MAX_DURATION_NANOS {
        MAX_DURATION_NANOS
    } else {
        a + b
    }
}

} // verus!
