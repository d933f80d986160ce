//! The difficulty feed: how a series of readings of an outside signal sets
//! the time between two steps of gravity.

use vstd::prelude::*;

verus! {

/// The amount by which one reading changes the interval.
pub const INTERVAL_STEP: u64 = 500;

/// The interval below which a falling step never takes the interval.
pub const INTERVAL_FLOOR: u64 = 500;

/// The interval with which a session starts.
pub const INITIAL_INTERVAL: u64 = 200;

/// The interval after a reading that rose, or did not rise, over the one
/// before. A rise shortens the interval by one step if that leaves it at the
/// floor or above. Else the interval grows by one step, as far as the
/// largest number.
pub open spec fn adjusted(interval: u64, rose: bool) -> u64 {
    if rose && interval >= INTERVAL_FLOOR + INTERVAL_STEP {
        (interval - INTERVAL_STEP) as u64
    } else if interval + INTERVAL_STEP > u64::MAX {
        u64::MAX
    } else {
        (interval + INTERVAL_STEP) as u64
    }
}

/// The state of the feed: the interval in force and the last reading, where
/// 0 stands for no reading yet.
#[derive(Clone, Copy, Debug, PartialEq, Eq, Structural)]
pub struct DifficultyFeed {
    pub interval: u64,
    pub previous: u64,
}

impl DifficultyFeed {
    /// The feed after one poll of the signal. A poll that failed changes
    /// nothing. The first reading, and one that follows a reading of 0, is
    /// only kept; any other reading also adjusts the interval.
    pub open spec fn observed(self, reading: Option<u64>) -> DifficultyFeed {
        match reading {
            None => self,
            Some(value) => DifficultyFeed {
                interval: if self.previous == 0 {
                    self.interval
                } else {
                    adjusted(self.interval, value > self.previous)
                },
                previous: value,
            },
        }
    }

    /// A feed that has seen no reading.
    pub fn new(interval: u64) -> (feed: DifficultyFeed)
        ensures
            feed == (DifficultyFeed { interval, previous: 0 }),
    {
        DifficultyFeed { interval, previous: 0 }
    }

    /// Takes in one poll of the signal, `None` for a poll that failed, and
    /// returns the interval now in force.
    pub fn observe(&mut self, reading: Option<u64>) -> (interval: u64)
        ensures
            *final(self) == old(self).observed(reading),
            interval == final(self).interval,
    {
        match reading {
            None => {},
            Some(value) => {
                if self.previous != 0 {
                    self.interval = next_interval(self.interval, value > self.previous);
                }
                self.previous = value;
            },
        }
        self.interval
    }
}

/// The interval after a reading that rose, or did not rise, over the one before.
pub fn next_interval(interval: u64, rose: bool) -> (next: u64)
    ensures
        next == adjusted(interval, rose),
        rose && next < interval ==> next >= INTERVAL_FLOOR,
{
    if rose && interval >= INTERVAL_FLOOR + INTERVAL_STEP {
        interval - INTERVAL_STEP
    } else if interval > u64::MAX - INTERVAL_STEP {
        u64::MAX
    } else {
        interval + INTERVAL_STEP
    }
}

} // verus!
