//! Spans and points of time as whole seconds and nanoseconds.

use vstd::prelude::*;

verus! {

/// A span of time: whole seconds, and the nanoseconds beyond them.
#[derive(Clone, Copy, Debug, PartialEq, Eq, Structural)]
pub struct Elapsed {
    pub secs: u64,
    pub nanos: u32,
}

impl Elapsed {
    /// The nanoseconds stay below a second.
    pub open spec fn valid(self) -> bool {
        self.nanos < 1_000_000_000
    }

    /// The nanoseconds in the whole span.
    pub open spec fn total_nanos(self) -> nat {
        (self.secs * 1_000_000_000 + self.nanos) as nat
    }

    /// The whole milliseconds in the span.
    pub open spec fn millis(self) -> nat {
        (self.secs * 1000 + self.nanos / 1_000_000) as nat
    }

    /// No time at all.
    pub fn zero() -> (r: Elapsed)
        ensures
            r == (Elapsed { secs: 0, nanos: 0 }),
            r.valid(),
    {
        Elapsed { secs: 0, nanos: 0 }
    }

    /// The whole milliseconds in the span.
    pub fn as_millis(&self) -> (r: u128)
        ensures
            r == self.millis(),
    {
        self.secs as u128 * 1000 + (self.nanos / 1_000_000) as u128
    }
}

/// A point of time by its distance from the Unix epoch.
#[derive(Clone, Copy, Debug, PartialEq, Eq, Structural)]
pub enum Timestamp {
    SinceEpoch(Elapsed),
    BeforeEpoch(Elapsed),
}

impl Timestamp {
    /// The distance from the epoch is valid.
    pub open spec fn valid(self) -> bool {
        match self {
            Timestamp::SinceEpoch(e) => e.valid(),
            Timestamp::BeforeEpoch(e) => e.valid(),
        }
    }

    /// The nanoseconds since the epoch, negative before it.
    pub open spec fn nanos_since_epoch(self) -> int {
        match self {
            Timestamp::SinceEpoch(e) => e.total_nanos() as int,
            Timestamp::BeforeEpoch(e) => -(e.total_nanos() as int),
        }
    }

    /// The point of time without the part of a second beyond its last whole second.
    pub open spec fn truncated(self) -> Timestamp {
        match self {
            Timestamp::SinceEpoch(e) => Timestamp::SinceEpoch(Elapsed { secs: e.secs, nanos: 0 }),
            Timestamp::BeforeEpoch(e) => self,
        }
    }

    /// The whole seconds since the epoch. Points of time before the epoch have no such number.
    pub fn as_secs(&self) -> (r: u64)
        requires
            self is SinceEpoch,
        ensures
            r == self->SinceEpoch_0.secs,
    {
        match self {
            Timestamp::SinceEpoch(e) => e.secs,
            Timestamp::BeforeEpoch(_) => 0,
        }
    }

    /// The point of time that many whole seconds after the epoch.
    pub fn from_secs(secs: u64) -> (r: Timestamp)
        ensures
            r == Timestamp::SinceEpoch(Elapsed { secs, nanos: 0 }),
            r.valid(),
    {
        Timestamp::SinceEpoch(Elapsed { secs, nanos: 0 })
    }
}

/// A point of time that is stored by its whole seconds since the epoch is read back as one that is
/// no later and less than a second earlier, and storing that one gives the same seconds.
pub proof fn law_stored_time_loses_less_than_a_second(time: Timestamp)
    requires
        time.valid(),
        time is SinceEpoch,
    ensures
        time.truncated().valid(),
        time.truncated() is SinceEpoch,
        time.truncated() == Timestamp::SinceEpoch(
            Elapsed { secs: time->SinceEpoch_0.secs, nanos: 0 },
        ),
        time.truncated().nanos_since_epoch() <= time.nanos_since_epoch(),
        time.nanos_since_epoch() - time.truncated().nanos_since_epoch() < 1_000_000_000,
        time.truncated().nanos_since_epoch() % 1_000_000_000 == 0,
        time.truncated()->SinceEpoch_0.secs == time->SinceEpoch_0.secs,
        time.truncated().truncated() == time.truncated(),
{
}

/// The milliseconds of a span are the whole ones in it: it is that long, and less than a
/// millisecond longer.
pub proof fn law_milliseconds_are_the_whole_ones(span: Elapsed)
    ensures
        span.millis() * 1_000_000 <= span.secs * 1_000_000_000 + span.nanos,
        span.secs * 1_000_000_000 + span.nanos < (span.millis() + 1) * 1_000_000,
{
}

} // verus!
