//! Real-time pacing.
//!
//! In real-time mode the driver stalls the coordinator so that simulated
//! time tracks the wall clock.  The decision — how long to wait before
//! executing the cycle at a given next event time — is computed here from
//! plain values; the driver measures the wall clock, sleeps for the
//! returned span, and then steps.  If processing fell behind, the wait is
//! zero and no catch-up is attempted: pacing is best-effort.

use crate::time::Time;
use vstd::prelude::*;

verus! {

/// A fixed scale between simulated ticks and wall-clock units: the cycle
/// at tick `t` is due `t * num / den` wall-clock units after the start of
/// the run.
pub struct Pacer {
    pub num: u64,
    pub den: u64,
}

impl Pacer {
    /// The wall-clock due point of the event at tick `t`, saturating at
    /// the largest representable instant.
    pub open spec fn due_spec(self, t: u64) -> u64 {
        if t * self.num <= u64::MAX {
            (((t * self.num) as u64) / self.den) as u64
        } else {
            (u64::MAX / self.den) as u64
        }
    }

    /// How long to wait before the event at `next_event`, given the wall
    /// clock already shows `elapsed_wall` since the start of the run: the
    /// remaining span, or zero when the run is behind schedule or nothing
    /// further is scheduled.
    pub open spec fn wait_spec(self, elapsed_wall: u64, next_event: Time) -> u64 {
        match next_event {
            Time::Finite(t) => if self.due_spec(t) > elapsed_wall {
                (self.due_spec(t) - elapsed_wall) as u64
            } else {
                0
            },
            Time::Never => 0,
        }
    }

    pub fn new(num: u64, den: u64) -> (p: Self)
        requires
            den > 0,
        ensures
            p.num == num,
            p.den == den,
    {
        Pacer { num, den }
    }

    pub fn wait_before(&self, elapsed_wall: u64, next_event: Time) -> (w: u64)
        requires
            self.den > 0,
        ensures
            w == self.wait_spec(elapsed_wall, next_event),
    {
        match next_event {
            Time::Finite(t) => {
                let due = match t.checked_mul(self.num) {
                    Some(prod) => prod / self.den,
                    None => u64::MAX / self.den,
                };
                if due > elapsed_wall {
                    due - elapsed_wall
                } else {
                    0
                }
            },
            Time::Never => 0,
        }
    }
}

} // verus!
