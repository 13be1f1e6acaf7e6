//! Instants.
use vstd::arithmetic::div_mod::lemma_mod_multiples_vanish;
use vstd::prelude::*;

verus! {

/// An instant: seconds since the Unix epoch, and nanoseconds behind that second. A leap second
/// belongs to the second before it: its nanoseconds go beyond a billion.
#[derive(Clone, Copy, Debug)]
pub struct Timestamp {
    pub seconds: i64,
    pub nanos: u32,
}

/// Nanoseconds in a second.
pub const SECOND: i128 = 1_000_000_000;

/// Seconds in a day.
pub const DAY: i128 = 86_400;

/// Where a second and nanoseconds stand in the order of instants: by the second first.
pub open spec fn place(seconds: int, nanos: int) -> int {
    seconds * 0x1_0000_0000 + nanos
}

impl Timestamp {
    /// Where an instant stands in the order of instants.
    pub open spec fn at(self) -> int {
        place(self.seconds as int, self.nanos as int)
    }

    /// Where the instant so many seconds before this one stands. Before a leap second, what is
    /// beyond a billion counts as the next second.
    pub open spec fn at_before(self, seconds: int) -> int {
        if self.nanos >= SECOND {
            place(self.seconds + 1 - seconds, self.nanos - SECOND)
        } else {
            place(self.seconds - seconds, self.nanos as int)
        }
    }

    pub fn total(self) -> (r: i128)
        ensures
            r == self.at(),
    {
        (self.seconds as i128) * 0x1_0000_0000 + (self.nanos as i128)
    }

    pub fn total_before(self, seconds: u32) -> (r: i128)
        ensures
            r == self.at_before(seconds as int),
    {
        if self.nanos as i128 >= SECOND {
            (self.seconds as i128 + 1 - seconds as i128) * 0x1_0000_0000 + (self.nanos as i128
                - SECOND)
        } else {
            (self.seconds as i128 - seconds as i128) * 0x1_0000_0000 + (self.nanos as i128)
        }
    }

    /// The second of the day.
    pub open spec fn of_day(self) -> int {
        self.seconds as int % DAY as int
    }

    fn day_second(self) -> (r: i128)
        ensures
            r == self.of_day(),
    {
        let high: i128 = 0x4_0000_0000_0000 * DAY;
        proof {
            lemma_mod_multiples_vanish(0x4_0000_0000_0000, self.seconds as int, DAY as int);
        }
        (high + self.seconds as i128) % DAY
    }
}

/// The second that a leap second at the earlier end adds.
pub open spec fn leap(from: Timestamp, to: Timestamp) -> int {
    if to.of_day() > from.of_day() && from.nanos >= SECOND {
        1
    } else if to.of_day() < from.of_day() && to.nanos >= SECOND {
        -1
    } else {
        0
    }
}

/// The whole seconds from one instant to another, rounded towards zero.
pub open spec fn elapsed(from: Timestamp, to: Timestamp) -> int {
    let gap = (to.seconds - from.seconds + leap(from, to)) * SECOND + to.nanos - from.nanos;
    if gap >= 0 {
        gap / (SECOND as int)
    } else {
        -(-gap / (SECOND as int))
    }
}

pub fn elapsed_seconds(from: Timestamp, to: Timestamp) -> (r: i128)
    ensures
        r == elapsed(from, to),
{
    let start = from.day_second();
    let end = to.day_second();
    let leap: i128 = if end > start && from.nanos as i128 >= SECOND {
        1
    } else if end < start && to.nanos as i128 >= SECOND {
        -1
    } else {
        0
    };
    let gap: i128 = (to.seconds as i128 - from.seconds as i128 + leap) * SECOND + to.nanos as i128
        - from.nanos as i128;
    if gap >= 0 {
        gap / SECOND
    } else {
        -((-gap) / SECOND)
    }
}

} // verus!
