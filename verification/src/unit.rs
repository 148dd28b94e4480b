//! The units of time and their lengths.

use vstd::prelude::*;

verus! {

/// Nanoseconds in a microsecond.
pub const NANOS_PER_MICRO: u64 = 1_000;

/// Nanoseconds in a millisecond.
pub const NANOS_PER_MILLI: u64 = 1_000_000;

/// Nanoseconds in a second.
pub const NANOS_PER_SEC: u64 = 1_000_000_000;

/// Seconds in a minute.
pub const SECS_PER_MIN: u64 = 60;

/// Seconds in an hour.
pub const SECS_PER_HOUR: u64 = 3_600;

/// Seconds in a day.
pub const SECS_PER_DAY: u64 = 86_400;

/// Seconds in a week of seven days.
pub const SECS_PER_WEEK: u64 = 604_800;

/// Seconds in the average Gregorian month of 30.436875 days.
pub const SECS_PER_MONTH: u64 = 2_629_746;

/// Seconds in the average Gregorian year of 365.2425 days.
///
/// systemd itself counts 365.25 days, the Julian average, which drifts from
/// the Gregorian calendar by one day in about 133 years.
pub const SECS_PER_YEAR: u64 = 31_556_952;

/// A granularity of time in which a span can be written.
#[derive(Copy, Clone, Debug, PartialEq, Eq, Structural)]
pub enum DurationUnit {
    Year,
    Month,
    Week,
    Day,
    Hour,
    Minute,
    Second,
    Millisecond,
    Microsecond,
    Nanosecond,
}

impl DurationUnit {
    /// Whether the unit is shorter than one second.
    pub open spec fn is_subsecond(self) -> bool {
        self is Millisecond || self is Microsecond || self is Nanosecond
    }

    /// The length of the unit in whole seconds; zero for the units that are
    /// shorter than a second.
    pub open spec fn seconds(self) -> int {
        match self {
            DurationUnit::Year => SECS_PER_YEAR as int,
            DurationUnit::Month => SECS_PER_MONTH as int,
            DurationUnit::Week => SECS_PER_WEEK as int,
            DurationUnit::Day => SECS_PER_DAY as int,
            DurationUnit::Hour => SECS_PER_HOUR as int,
            DurationUnit::Minute => SECS_PER_MIN as int,
            DurationUnit::Second => 1,
            _ => 0,
        }
    }

    /// The length of the unit in nanoseconds.
    pub open spec fn nanos(self) -> int {
        match self {
            DurationUnit::Millisecond => NANOS_PER_MILLI as int,
            DurationUnit::Microsecond => NANOS_PER_MICRO as int,
            DurationUnit::Nanosecond => 1,
            _ => self.seconds() * NANOS_PER_SEC,
        }
    }

    /// Tells whether the unit is shorter than one second.
    pub fn subsecond(self) -> (r: bool)
        ensures
            r == self.is_subsecond(),
    {
        match self {
            DurationUnit::Millisecond | DurationUnit::Microsecond | DurationUnit::Nanosecond => {
                true
            },
            _ => false,
        }
    }

    /// The length of the unit in nanoseconds.
    pub fn nanos_per_unit(self) -> (f: u64)
        ensures
            f == self.nanos(),
            1 <= f <= 31_556_952_000_000_000,
            !self.is_subsecond() ==> f >= NANOS_PER_SEC,
            self.is_subsecond() ==> f <= NANOS_PER_MILLI,
    {
        match self {
            DurationUnit::Year => SECS_PER_YEAR * NANOS_PER_SEC,
            DurationUnit::Month => SECS_PER_MONTH * NANOS_PER_SEC,
            DurationUnit::Week => SECS_PER_WEEK * NANOS_PER_SEC,
            DurationUnit::Day => SECS_PER_DAY * NANOS_PER_SEC,
            DurationUnit::Hour => SECS_PER_HOUR * NANOS_PER_SEC,
            DurationUnit::Minute => SECS_PER_MIN * NANOS_PER_SEC,
            DurationUnit::Second => NANOS_PER_SEC,
            DurationUnit::Millisecond => NANOS_PER_MILLI,
            DurationUnit::Microsecond => NANOS_PER_MICRO,
            DurationUnit::Nanosecond => 1,
        }
    }
}

} // verus!
