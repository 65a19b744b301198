//! The wall clock: a time of day in hours, minutes and seconds.

use chrono::Timelike;
use vstd::prelude::*;

verus! {

/// Seconds in one hour.
pub const SECONDS_PER_HOUR: u32 = 3600;

/// Seconds in one minute.
pub const SECONDS_PER_MINUTE: u32 = 60;

/// Seconds in one day; every timepoint lies strictly below it.
pub const SECONDS_PER_DAY: u32 = 86400;

/// A reading of a wall clock: an hour below 24, a minute and a second below 60.
#[derive(Clone, Copy, Debug, PartialEq, Eq)]
pub struct WallClock {
    hour: u32,
    minute: u32,
    second: u32,
}

/// Whether three numbers are the hour, minute and second of a time of day.
pub open spec fn is_time_of_day(hour: int, minute: int, second: int) -> bool {
    0 <= hour < 24 && 0 <= minute < 60 && 0 <= second < 60
}

impl WallClock {
    /// Every reading is a time of day.
    #[verifier::type_invariant]
    pub closed spec fn wf(self) -> bool {
        is_time_of_day(self.hour as int, self.minute as int, self.second as int)
    }

    pub closed spec fn spec_hour(self) -> nat {
        self.hour as nat
    }

    pub closed spec fn spec_minute(self) -> nat {
        self.minute as nat
    }

    pub closed spec fn spec_second(self) -> nat {
        self.second as nat
    }

    /// The reading as whole seconds since midnight.
    pub open spec fn seconds(self) -> nat {
        self.spec_hour() * 3600 + self.spec_minute() * 60 + self.spec_second()
    }

    /// A reading from its three fields; `None` unless they are a time of day.
    pub fn new(hour: u32, minute: u32, second: u32) -> (clock: Option<WallClock>)
        ensures
            clock is Some <==> is_time_of_day(hour as int, minute as int, second as int),
            clock matches Some(c) ==> c.wf() && c.spec_hour() == hour && c.spec_minute() == minute
                && c.spec_second() == second,
    {
        if hour < 24 && minute < 60 && second < 60 {
            Some(WallClock { hour, minute, second })
        } else {
            None
        }
    }

    /// The first moment of the day.
    pub fn midnight() -> (clock: WallClock)
        ensures
            clock.wf(),
            clock.seconds() == 0,
    {
        WallClock { hour: 0, minute: 0, second: 0 }
    }

    pub fn hour(&self) -> (h: u32)
        ensures
            h == self.spec_hour(),
            h < 24,
    {
        proof {
            use_type_invariant(self);
        }
        self.hour
    }

    pub fn minute(&self) -> (m: u32)
        ensures
            m == self.spec_minute(),
            m < 60,
    {
        proof {
            use_type_invariant(self);
        }
        self.minute
    }

    pub fn second(&self) -> (s: u32)
        ensures
            s == self.spec_second(),
            s < 60,
    {
        proof {
            use_type_invariant(self);
        }
        self.second
    }

    /// Whole seconds since midnight, always below a day.
    pub fn seconds_since_midnight(&self) -> (s: u32)
        ensures
            s == self.seconds(),
            s < SECONDS_PER_DAY,
    {
        proof {
            use_type_invariant(self);
        }
        self.hour * SECONDS_PER_HOUR + self.minute * SECONDS_PER_MINUTE + self.second
    }

    /// A well-formed reading is below one day.
    pub proof fn lemma_seconds_in_day(self)
        requires
            self.wf(),
        ensures
            self.seconds() < SECONDS_PER_DAY,
    {
    }

    /// Reads the local wall clock of this machine. Nothing is known of the
    /// reading beyond its being a time of day.
    pub fn read_local() -> (clock: WallClock)
        ensures
            clock.wf(),
    {
        let (hour, minute, second) = local_time_fields();
        WallClock { hour, minute, second }
    }
}

/// Calls `chrono::Local::now()` and takes the reading apart with
/// `Timelike::hour`, `Timelike::minute` and `Timelike::second`, which chrono
/// documents as 0 to 23, 0 to 59 and 0 to 59 (a leap second is reported as
/// second 59). The result depends on the clock and the time zone of the
/// machine, so nothing else is claimed. chrono panics if the system clock is
/// set before 1970.
#[verifier::external_body]
fn local_time_fields() -> (fields: (u32, u32, u32))
    ensures
        fields.0 < 24,
        fields.1 < 60,
        fields.2 < 60,
{
    let now = chrono::Local::now();
    (now.hour(), now.minute(), now.second())
}

} // verus!
