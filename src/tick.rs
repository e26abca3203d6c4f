use vstd::prelude::*;

verus! {

/// Number of ticks in one simulated second; one tick is a tenth of a second.
pub const TICKS_PER_SECOND: u64 = 10;

/// Number of ticks in one simulated minute.
pub const TICKS_PER_MINUTE: u64 = 600;

/// The discrete unit of simulated time.
#[derive(Clone, Copy, Debug, PartialEq, Eq, Structural)]
pub struct Tick(pub u64);

impl Tick {
    pub fn zero() -> (r: Tick)
        ensures
            r.0 == 0,
    {
        Tick(0)
    }

    pub fn from_seconds(secs: u64) -> (r: Tick)
        requires
            secs * TICKS_PER_SECOND <= u64::MAX,
        ensures
            r.0 == secs * TICKS_PER_SECOND,
    {
        Tick(secs * TICKS_PER_SECOND)
    }

    pub fn from_minutes(mins: u64) -> (r: Tick)
        requires
            mins * TICKS_PER_MINUTE <= u64::MAX,
        ensures
            r.0 == mins * TICKS_PER_MINUTE,
    {
        Tick(mins * TICKS_PER_MINUTE)
    }

    /// The tick right after this one.
    pub fn next(&self) -> (r: Tick)
        requires
            self.0 < u64::MAX,
        ensures
            r.0 == self.0 + 1,
    {
        Tick(self.0 + 1)
    }

    pub fn is_multiple_of(&self, other: Tick) -> (r: bool)
        requires
            other.0 > 0,
        ensures
            r == (self.0 % other.0 == 0),
    {
        self.0 % other.0 == 0
    }
}

} // verus!
