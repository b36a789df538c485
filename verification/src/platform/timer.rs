//! Timestamps and performance counters.

use crate::clock::{
    duration_nanos, instant_elapsed, instant_now, nanos_of, since_epoch, span_of_nanos, system_now,
};
use std::time::Duration;
use vstd::prelude::*;

verus! {

/// The low 64 bits of a number of nanoseconds.
pub open spec fn low_bits(nanos: u128) -> u64 {
    (nanos % 0x1_0000_0000_0000_0000) as u64
}

/// The low 64 bits of a number of nanoseconds.
pub fn truncate_nanos(nanos: u128) -> (low: u64)
    ensures
        low == low_bits(nanos),
{
    (nanos % 0x1_0000_0000_0000_0000) as u64
}

/// High-resolution timestamp: nanoseconds since the Unix epoch.
#[derive(Debug, Clone, Copy, PartialEq, Eq, PartialOrd, Ord, Structural)]
pub struct Timestamp(pub u64);

impl Timestamp {
    /// The timestamp of a reading of the wall clock: the low 64 bits of the
    /// nanoseconds since the Unix epoch, zero where the clock stood before
    /// the epoch.
    pub open spec fn spec_of_reading(reading: Option<Duration>) -> Timestamp {
        match reading {
            Some(span) => Timestamp(low_bits(duration_nanos(span))),
            None => Timestamp(0),
        }
    }

    /// The nanoseconds from this timestamp to `later`; zero if `later` is
    /// not later.
    pub open spec fn nanos_until(self, later: Timestamp) -> int {
        if later.0 >= self.0 {
            later.0 - self.0
        } else {
            0
        }
    }

    /// The timestamp of a reading of the wall clock: `reading` is the time
    /// since the Unix epoch, or `None` where the clock stood before it.
    pub fn of_reading(reading: Option<Duration>) -> (t: Timestamp)
        ensures
            t == Timestamp::spec_of_reading(reading),
    {
        match reading {
            Some(span) => Timestamp(truncate_nanos(nanos_of(&span))),
            None => Timestamp(0),
        }
    }

    /// Get the current timestamp: the time since the Unix epoch in
    /// nanoseconds, zero where the clock stands before the epoch.
    pub fn now() -> Timestamp {
        let present = system_now();
        Timestamp::of_reading(since_epoch(&present))
    }

    /// Get timestamp as nanoseconds since epoch.
    pub fn as_nanos(&self) -> (n: u64)
        ensures
            n == self.0,
    {
        self.0
    }

    /// Get timestamp as microseconds since epoch.
    pub fn as_micros(&self) -> (n: u64)
        ensures
            n == self.0 / 1000,
    {
        self.0 / 1000
    }

    /// Get timestamp as milliseconds since epoch.
    pub fn as_millis(&self) -> (n: u64)
        ensures
            n == self.0 / 1_000_000,
    {
        self.0 / 1_000_000
    }

    /// The span from this timestamp to a later one; zero if `later` is not
    /// later.
    pub fn until(&self, later: Timestamp) -> (span: Duration)
        ensures
            duration_nanos(span) == self.nanos_until(later),
    {
        if later.0 >= self.0 {
            span_of_nanos((later.0 - self.0) as u128)
        } else {
            span_of_nanos(0)
        }
    }

    /// Get duration since this timestamp: the span from it to the present
    /// timestamp, whatever the clock says that is; zero if the clock stands
    /// before this timestamp.
    pub fn elapsed(&self) -> (span: Duration)
        ensures
            exists|present: Timestamp| duration_nanos(span) == #[trigger] self.nanos_until(present),
    {
        let present = Timestamp::now();
        let span = self.until(present);
        assert(duration_nanos(span) == self.nanos_until(present));
        span
    }
}

/// Performance counter for tracking operation counts and timing.
#[derive(Debug)]
pub struct PerfCounter {
    name: String,
    count: u64,
    total_nanos: u64,
}

impl PerfCounter {
    /// The name of the counter.
    pub closed spec fn spec_name(&self) -> Seq<char> {
        self.name@
    }

    /// The number of operations recorded.
    pub closed spec fn spec_count(&self) -> u64 {
        self.count
    }

    /// The time recorded, in nanoseconds.
    pub closed spec fn spec_total_nanos(&self) -> u64 {
        self.total_nanos
    }

    /// Create a new performance counter.
    pub fn new(name: &str) -> (c: PerfCounter)
        ensures
            c.spec_name() == name@,
            c.spec_count() == 0,
            c.spec_total_nanos() == 0,
    {
        PerfCounter { name: name.to_string(), count: 0, total_nanos: 0 }
    }

    /// What recording an operation of `nanos` nanoseconds does: the count
    /// grows by one and the total by `nanos`, both wrapping around at the
    /// top.
    pub open spec fn recorded(before: &PerfCounter, after: &PerfCounter, nanos: u64) -> bool {
        &&& after.spec_name() == before.spec_name()
        &&& after.spec_count() == (if before.spec_count() == u64::MAX {
            0
        } else {
            before.spec_count() + 1
        })
        &&& after.spec_total_nanos() == (if before.spec_total_nanos() + nanos > u64::MAX {
            before.spec_total_nanos() + nanos - u64::MAX - 1
        } else {
            before.spec_total_nanos() + nanos
        })
    }

    /// Record a timed operation.
    pub fn record(&mut self, duration: Duration)
        ensures
            PerfCounter::recorded(old(self), final(self), low_bits(duration_nanos(duration))),
    {
        self.count = self.count.wrapping_add(1);
        self.total_nanos = self.total_nanos.wrapping_add(truncate_nanos(nanos_of(&duration)));
    }

    /// Get the counter name.
    pub fn name(&self) -> (name: &str)
        ensures
            name@ == self.spec_name(),
    {
        self.name.as_str()
    }

    /// Get the operation count.
    pub fn count(&self) -> (n: u64)
        ensures
            n == self.spec_count(),
    {
        self.count
    }

    /// Get total time in nanoseconds.
    pub fn total_nanos(&self) -> (n: u64)
        ensures
            n == self.spec_total_nanos(),
    {
        self.total_nanos
    }

    /// Reset the counter.
    pub fn reset(&mut self)
        ensures
            final(self).spec_name() == old(self).spec_name(),
            final(self).spec_count() == 0,
            final(self).spec_total_nanos() == 0,
    {
        self.count = 0;
        self.total_nanos = 0;
    }

    /// Time an operation and record it. Returns what the operation returns.
    pub fn time<F, R>(&mut self, f: F) -> (result: R) where F: FnOnce() -> R
        requires
            call_requires(f, ()),
        ensures
            call_ensures(f, (), result),
            exists|nanos: u64| #[trigger] PerfCounter::recorded(old(self), final(self), nanos),
    {
        let start = instant_now();
        let result = f();
        let span = instant_elapsed(&start);
        self.record(span);
        result
    }
}

} // verus!
