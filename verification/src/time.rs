//! Time keeping: a stopwatch on the monotonic clock and a timer that is
//! driven by the caller.

use crate::clock::{
    add_capped, duration_nanos, instant_elapsed, instant_now, nanos_of, span_of_nanos,
    MAX_DURATION_NANOS,
};
use std::time::Duration;
use std::time::Instant;
use vstd::prelude::*;

verus! {

/// Stopwatch for measuring elapsed time.
///
/// Sums up the spans during which it ran. The sum is held at the longest
/// span a `Duration` can hold.
#[derive(Debug, Clone)]
pub struct Stopwatch {
    start: Instant,
    elapsed: u128,
    running: bool,
}

impl Stopwatch {
    /// Whether the stopwatch is running.
    pub closed spec fn spec_running(&self) -> bool {
        self.running
    }

    /// The nanoseconds summed up over the spans that have ended.
    pub closed spec fn banked(&self) -> u128 {
        self.elapsed
    }

    /// The invariant: the sum fits a `Duration`.
    pub open spec fn wf(&self) -> bool {
        self.banked() <= MAX_DURATION_NANOS
    }

    /// Create and start a new stopwatch.
    pub fn new() -> (s: Stopwatch)
        ensures
            s.wf(),
            s.spec_running(),
            s.banked() == 0,
    {
        Stopwatch { start: instant_now(), elapsed: 0, running: true }
    }

    /// Create a stopped stopwatch.
    pub fn stopped() -> (s: Stopwatch)
        ensures
            s.wf(),
            !s.spec_running(),
            s.banked() == 0,
    {
        Stopwatch { start: instant_now(), elapsed: 0, running: false }
    }

    /// Start or resume the stopwatch. The time summed up so far stays.
    pub fn start(&mut self)
        requires
            old(self).wf(),
        ensures
            final(self).wf(),
            final(self).spec_running(),
            final(self).banked() == old(self).banked(),
    {
        if !self.running {
            self.start = instant_now();
            self.running = true;
        }
    }

    /// Stop the stopwatch. If it ran, the time since it was started is added
    /// to the sum; if it did not, nothing changes.
    pub fn stop(&mut self)
        requires
            old(self).wf(),
        ensures
            final(self).wf(),
            !final(self).spec_running(),
            final(self).banked() >= old(self).banked(),
            !old(self).spec_running() ==> final(self).banked() == old(self).banked(),
    {
        if self.running {
            let span = instant_elapsed(&self.start);
            self.elapsed = add_capped(self.elapsed, nanos_of(&span));
            self.running = false;
        }
    }

    /// Reset the stopwatch: the sum is zero again and the running span, if
    /// there is one, starts anew.
    pub fn reset(&mut self)
        ensures
            final(self).wf(),
            final(self).banked() == 0,
            final(self).spec_running() == old(self).spec_running(),
    {
        self.elapsed = 0;
        self.start = instant_now();
    }

    /// Get the elapsed time: the sum of the spans that have ended and, if
    /// the stopwatch is running, the time since it was started.
    pub fn elapsed(&self) -> (span: Duration)
        requires
            self.wf(),
        ensures
            duration_nanos(span) >= self.banked(),
            !self.spec_running() ==> duration_nanos(span) == self.banked(),
    {
        if self.running {
            let span = instant_elapsed(&self.start);
            span_of_nanos(add_capped(self.elapsed, nanos_of(&span)))
        } else {
            span_of_nanos(self.elapsed)
        }
    }

    /// Check if the stopwatch is running.
    pub fn is_running(&self) -> (b: bool)
        ensures
            b == self.spec_running(),
    {
        self.running
    }
}

impl Default for Stopwatch {
    /// The default stopwatch is a running one.
    fn default() -> (s: Stopwatch)
        ensures
            s.wf(),
            s.spec_running(),
            s.banked() == 0,
    {
        Stopwatch::new()
    }
}

/// Timer that triggers after a specified duration.
///
/// The timer does not read a clock: the caller tells it how much time has
/// passed.
#[derive(Debug, Clone)]
pub struct Timer {
    duration: u128,
    elapsed: u128,
    repeating: bool,
    finished: bool,
}

impl Timer {
    /// The span after which the timer triggers, in nanoseconds.
    pub closed spec fn spec_duration(&self) -> u128 {
        self.duration
    }

    /// The time counted so far, in nanoseconds.
    pub closed spec fn spec_elapsed(&self) -> u128 {
        self.elapsed
    }

    /// Whether the timer triggers again and again.
    pub closed spec fn spec_repeating(&self) -> bool {
        self.repeating
    }

    /// Whether the timer has triggered for good.
    pub closed spec fn spec_finished(&self) -> bool {
        self.finished
    }

    /// The invariant: both spans fit a `Duration`, and only a one-shot timer
    /// is ever finished.
    pub open spec fn wf(&self) -> bool {
        &&& self.spec_duration() <= MAX_DURATION_NANOS
        &&& self.spec_elapsed() <= MAX_DURATION_NANOS
        &&& self.spec_finished() ==> !self.spec_repeating()
    }

    /// Create a new one-shot timer.
    pub fn new(duration: Duration) -> (t: Timer)
        ensures
            t.wf(),
            t.spec_duration() == duration_nanos(duration),
            t.spec_elapsed() == 0,
            !t.spec_repeating(),
            !t.spec_finished(),
    {
        Timer { duration: nanos_of(&duration), elapsed: 0, repeating: false, finished: false }
    }

    /// Create a new repeating timer.
    pub fn repeating(duration: Duration) -> (t: Timer)
        ensures
            t.wf(),
            t.spec_duration() == duration_nanos(duration),
            t.spec_elapsed() == 0,
            t.spec_repeating(),
            !t.spec_finished(),
    {
        Timer { duration: nanos_of(&duration), elapsed: 0, repeating: true, finished: false }
    }

    /// What a tick of `delta` nanoseconds does to a timer, and whether the
    /// timer triggers.
    ///
    /// A finished one-shot timer stays as it is and does not trigger. Else
    /// `delta` is added to the time counted; if that reaches the duration
    /// the timer triggers, and a one-shot timer is finished while a
    /// repeating one takes the duration off the time counted and goes on.
    pub open spec fn ticked(before: &Timer, after: &Timer, delta: u128, fired: bool) -> bool {
        &&& after.spec_duration() == before.spec_duration()
        &&& after.spec_repeating() == before.spec_repeating()
        &&& if before.spec_finished() && !before.spec_repeating() {
            &&& !fired
            &&& after.spec_elapsed() == before.spec_elapsed()
            &&& after.spec_finished()
        } else {
            let sum = before.spec_elapsed() + delta;
            &&& fired == (sum >= before.spec_duration())
            &&& after.spec_finished() == (fired && !before.spec_repeating())
            &&& after.spec_elapsed() == (if fired && before.spec_repeating() {
                sum - before.spec_duration()
            } else {
                sum
            })
        }
    }

    /// Update the timer with delta time. Returns whether the timer
    /// triggered.
    pub fn tick(&mut self, delta: Duration) -> (fired: bool)
        requires
            old(self).wf(),
            old(self).spec_elapsed() + duration_nanos(delta) <= MAX_DURATION_NANOS,
        ensures
            final(self).wf(),
            Timer::ticked(old(self), final(self), duration_nanos(delta), fired),
    {
        if self.finished && !self.repeating {
            return false;
        }
        self.elapsed = self.elapsed + nanos_of(&delta);
        if self.elapsed >= self.duration {
            if self.repeating {
                self.elapsed = self.elapsed - self.duration;
            } else {
                self.finished = true;
            }
            true
        } else {
            false
        }
    }

    /// Update the timer with delta time, if the time counted stays within
    /// what a `Duration` can hold: `None`, changing nothing, if it does not.
    pub fn checked_tick(&mut self, delta: Duration) -> (fired: Option<bool>)
        requires
            old(self).wf(),
        ensures
            final(self).wf(),
            fired is Some <==> old(self).spec_elapsed() + duration_nanos(delta)
                <= MAX_DURATION_NANOS,
            fired matches Some(f) ==> Timer::ticked(old(self), final(self), duration_nanos(delta), f),
            fired is None ==> *final(self) == *old(self),
    {
        let nanos = nanos_of(&delta);
        if nanos <= MAX_DURATION_NANOS - self.elapsed {
            Some(self.tick(delta))
        } else {
            None
        }
    }

    /// Check if the timer has finished. A repeating timer never has.
    pub fn is_finished(&self) -> (b: bool)
        ensures
            b == self.spec_finished(),
    {
        self.finished
    }

    /// Reset the timer: no time is counted and it is not finished.
    pub fn reset(&mut self)
        requires
            old(self).wf(),
        ensures
            final(self).wf(),
            final(self).spec_elapsed() == 0,
            !final(self).spec_finished(),
            final(self).spec_duration() == old(self).spec_duration(),
            final(self).spec_repeating() == old(self).spec_repeating(),
    {
        self.elapsed = 0;
        self.finished = false;
    }

    /// Get the remaining time: the duration less the time counted, zero if
    /// more was counted.
    pub fn remaining(&self) -> (span: Duration)
        requires
            self.wf(),
        ensures
            duration_nanos(span) == (if self.spec_elapsed() >= self.spec_duration() {
                0
            } else {
                self.spec_duration() - self.spec_elapsed()
            }),
    {
        if self.elapsed >= self.duration {
            span_of_nanos(0)
        } else {
            span_of_nanos(self.duration - self.elapsed)
        }
    }
}

} // verus!
