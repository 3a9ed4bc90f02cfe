//! A one-shot countdown measured in nanoseconds.

use vstd::prelude::*;

verus! {

pub const NANOS_PER_SECOND: u64 = 1_000_000_000;

pub const NANOS_PER_MILLI: u64 = 1_000_000;

/// A timer that runs once from zero to its duration and then stays finished
/// until it is reset.
///
/// Whether a timer is finished is read off what it has counted, and no
/// flag is kept beside the count. So a timer of no duration is finished
/// from the moment it is made or reset, without a tick; every other timer
/// is finished by the tick that completes its duration, and not before.
#[derive(Clone, Copy, Debug, PartialEq, Eq, Structural)]
pub struct Timer {
    /// Nanoseconds from start to finish.
    pub duration: u64,
    /// Nanoseconds counted so far.
    pub elapsed: u64,
}

impl Timer {
    /// The timer has run for its whole duration. A timer of no duration
    /// always has.
    pub open spec fn is_finished(self) -> bool {
        self.elapsed >= self.duration
    }

    /// The timer after `delta` more nanoseconds: a finished timer stays as it
    /// is, a running one stops at its duration.
    pub open spec fn ticked(self, delta: u64) -> Timer {
        if self.is_finished() {
            self
        } else if self.elapsed + delta >= self.duration {
            Timer { duration: self.duration, elapsed: self.duration }
        } else {
            Timer { duration: self.duration, elapsed: (self.elapsed + delta) as u64 }
        }
    }

    /// The timer after the ticks of `deltas`, in order.
    pub open spec fn ticked_all(self, deltas: Seq<u64>) -> Timer
        decreases deltas.len(),
    {
        if deltas.len() == 0 {
            self
        } else {
            self.ticked_all(deltas.drop_last()).ticked(deltas.last())
        }
    }

    /// A fresh timer of `duration` nanoseconds. It is unfinished, unless
    /// `duration` is zero.
    pub fn new(duration: u64) -> (timer: Timer)
        ensures
            timer == (Timer { duration, elapsed: 0 }),
    {
        Timer { duration, elapsed: 0 }
    }

    /// A fresh timer of `seconds` seconds.
    pub fn from_seconds(seconds: u32) -> (timer: Timer)
        ensures
            timer == (Timer { duration: (seconds * NANOS_PER_SECOND) as u64, elapsed: 0 }),
    {
        Timer { duration: (seconds as u64) * NANOS_PER_SECOND, elapsed: 0 }
    }

    /// A fresh timer of `millis` milliseconds.
    pub fn from_millis(millis: u32) -> (timer: Timer)
        ensures
            timer == (Timer { duration: (millis * NANOS_PER_MILLI) as u64, elapsed: 0 }),
    {
        Timer { duration: (millis as u64) * NANOS_PER_MILLI, elapsed: 0 }
    }

    /// Whether the timer has run for its whole duration; for a timer of no
    /// duration this is so even before its first tick.
    pub fn finished(&self) -> (done: bool)
        ensures
            done == self.is_finished(),
    {
        self.elapsed >= self.duration
    }

    /// Advances the timer by `delta` nanoseconds.
    pub fn tick(&mut self, delta: u64)
        ensures
            *final(self) == old(self).ticked(delta),
    {
        if self.elapsed < self.duration {
            if delta >= self.duration - self.elapsed {
                self.elapsed = self.duration;
            } else {
                self.elapsed = self.elapsed + delta;
            }
        }
    }

    /// Starts the timer over with the same duration. A timer of no
    /// duration is finished again at once.
    pub fn reset(&mut self)
        ensures
            *final(self) == (Timer { duration: old(self).duration, elapsed: 0 }),
    {
        self.elapsed = 0;
    }
}

/// The sum of the ticks in `deltas`.
pub open spec fn total(deltas: Seq<u64>) -> int
    decreases deltas.len(),
{
    if deltas.len() == 0 {
        0
    } else {
        total(deltas.drop_last()) + deltas.last()
    }
}

/// A fresh timer is finished after a run of ticks exactly when the ticks add
/// up to its duration or more; until then it has counted their sum.
pub proof fn lemma_timer_finishes_on_time(duration: u64, deltas: Seq<u64>)
    ensures
        ({
            let timer = (Timer { duration, elapsed: 0 }).ticked_all(deltas);
            &&& timer.duration == duration
            &&& timer.is_finished() <==> total(deltas) >= duration
            &&& !timer.is_finished() ==> timer.elapsed == total(deltas)
            &&& timer.is_finished() ==> timer.elapsed == duration
        }),
    decreases deltas.len(),
{
    if deltas.len() > 0 {
        lemma_timer_finishes_on_time(duration, deltas.drop_last());
        lemma_total_non_negative(deltas.drop_last());
    }
}

/// A sum of ticks is never negative.
pub proof fn lemma_total_non_negative(deltas: Seq<u64>)
    ensures
        total(deltas) >= 0,
    decreases deltas.len(),
{
    if deltas.len() > 0 {
        lemma_total_non_negative(deltas.drop_last());
    }
}

} // verus!
