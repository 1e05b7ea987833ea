//! Simulated time.
//!
//! Simulated time is a non-negative quantity measured in integer ticks, with
//! a distinguished value meaning "never", used by any model that currently
//! has nothing scheduled.  Keeping the timeline in integer ticks makes every
//! scheduling comparison exact and every run reproducible; a caller that
//! thinks in seconds picks a tick length and scales at the boundary.

use vstd::prelude::*;

verus! {

/// An instant on the simulated timeline, or a duration between two instants.
#[derive(Clone, Copy, Debug, PartialEq, Eq, Structural)]
pub enum Time {
    /// A finite instant or duration, in ticks.
    Finite(u64),
    /// No event scheduled, ever; larger than every finite time.
    Never,
}

impl Time {
    /// Whether this time is finite.
    pub open spec fn is_finite(self) -> bool {
        match self {
            Time::Finite(_) => true,
            Time::Never => false,
        }
    }

    /// The tick count of a finite time.
    pub open spec fn ticks(self) -> u64
        recommends
            self.is_finite(),
    {
        match self {
            Time::Finite(t) => t,
            Time::Never => 0,
        }
    }

    /// The ordering on times: finite times by tick count, "never" above all.
    pub open spec fn le_spec(self, other: Time) -> bool {
        match (self, other) {
            (Time::Finite(a), Time::Finite(b)) => a <= b,
            (Time::Finite(_), Time::Never) => true,
            (Time::Never, Time::Finite(_)) => false,
            (Time::Never, Time::Never) => true,
        }
    }

    /// Strict version of `le_spec`.
    pub open spec fn lt_spec(self, other: Time) -> bool {
        self.le_spec(other) && self != other
    }

    /// Addition: `Never` absorbs, and a finite sum past the largest
    /// representable tick is treated as `Never` (nothing can be scheduled
    /// beyond the representable timeline).
    pub open spec fn plus_spec(self, other: Time) -> Time {
        match (self, other) {
            (Time::Finite(a), Time::Finite(b)) => if a + b <= u64::MAX {
                Time::Finite((a + b) as u64)
            } else {
                Time::Never
            },
            _ => Time::Never,
        }
    }

    /// A duration shortened by `e` ticks; `Never` stays `Never`.
    pub open spec fn minus_spec(self, e: u64) -> Time
        recommends
            Time::Finite(e).le_spec(self),
    {
        match self {
            Time::Finite(t) => Time::Finite((t - e) as u64),
            Time::Never => Time::Never,
        }
    }

    /// The smaller of two times.
    pub open spec fn min_spec(self, other: Time) -> Time {
        if self.le_spec(other) {
            self
        } else {
            other
        }
    }

    pub fn is_never(self) -> (r: bool)
        ensures
            r == !self.is_finite(),
    {
        match self {
            Time::Finite(_) => false,
            Time::Never => true,
        }
    }

    pub fn le(self, other: Time) -> (r: bool)
        ensures
            r == self.le_spec(other),
    {
        match (self, other) {
            (Time::Finite(a), Time::Finite(b)) => a <= b,
            (Time::Finite(_), Time::Never) => true,
            (Time::Never, Time::Finite(_)) => false,
            (Time::Never, Time::Never) => true,
        }
    }

    pub fn lt(self, other: Time) -> (r: bool)
        ensures
            r == self.lt_spec(other),
    {
        match (self, other) {
            (Time::Finite(a), Time::Finite(b)) => a < b,
            (Time::Finite(_), Time::Never) => true,
            (Time::Never, _) => false,
        }
    }

    pub fn plus(self, other: Time) -> (r: Time)
        ensures
            r == self.plus_spec(other),
    {
        match (self, other) {
            (Time::Finite(a), Time::Finite(b)) => match a.checked_add(b) {
                Some(s) => Time::Finite(s),
                None => Time::Never,
            },
            _ => Time::Never,
        }
    }

    pub fn minus(self, e: u64) -> (r: Time)
        requires
            Time::Finite(e).le_spec(self),
        ensures
            r == self.minus_spec(e),
    {
        match self {
            Time::Finite(t) => Time::Finite(t - e),
            Time::Never => Time::Never,
        }
    }

    pub fn min_of(self, other: Time) -> (r: Time)
        ensures
            r == self.min_spec(other),
    {
        if self.le(other) {
            self
        } else {
            other
        }
    }
}

} // verus!
