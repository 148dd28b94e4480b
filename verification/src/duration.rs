//! Time spans as lists of fragments, and what they amount to in each of the
//! duration types that they can be converted into.

use crate::decimal::{Decimal, Rounding};
use crate::unit::DurationUnit;
use vstd::prelude::*;

pub mod chrono;
pub mod stdtime;
pub mod time;

verus! {

/// A measurement of a span of time in one unit.
///
/// A count of nanoseconds is a whole number; a count of any longer unit may
/// have a fraction.
#[derive(Copy, Clone, Debug, PartialEq, Eq, Structural)]
pub enum Duration {
    Year(Decimal),
    Month(Decimal),
    Week(Decimal),
    Day(Decimal),
    Hour(Decimal),
    Minute(Decimal),
    Second(Decimal),
    Millisecond(Decimal),
    Microsecond(Decimal),
    Nanosecond(i64),
}

/// A list of durations, which when summed give the total duration.
#[derive(Clone, Debug)]
pub struct Container(Vec<Duration>);

impl View for Container {
    type V = Seq<Duration>;

    closed spec fn view(&self) -> Seq<Duration> {
        self.0@
    }
}

impl Container {
    /// Create a new container object from the given durations.
    pub fn new(durations: Vec<Duration>) -> (c: Self)
        ensures
            c@ == durations@,
    {
        Self(durations)
    }

    /// The number of durations in the container.
    pub fn len(&self) -> (n: usize)
        ensures
            n == self@.len(),
    {
        self.0.len()
    }

    /// The duration at `index`, counted from zero.
    pub fn get(&self, index: usize) -> (d: Option<Duration>)
        ensures
            d == if index < self@.len() {
                Some(self@[index as int])
            } else {
                None
            },
    {
        if index < self.0.len() {
            Some(self.0[index])
        } else {
            None
        }
    }
}

/// The duration types that a time span can be converted into.
#[derive(Copy, Clone, Debug, PartialEq, Eq, Structural)]
pub enum Target {
    /// `std::time::Duration`: never negative, up to `u64::MAX` seconds.
    StdTime,
    /// `chrono::TimeDelta`: up to `i64::MAX` milliseconds either way.
    Chrono,
    /// `time::Duration`: whole seconds within `i64`.
    Time,
}

impl Target {
    /// The least number of nanoseconds that the type can hold.
    pub open spec fn min_nanos(self) -> int {
        match self {
            Target::StdTime => 0,
            Target::Chrono => -9_223_372_036_854_775_807_000_000,
            Target::Time => -9_223_372_036_854_775_808_999_999_999,
        }
    }

    /// The greatest number of nanoseconds that the type can hold.
    pub open spec fn max_nanos(self) -> int {
        match self {
            Target::StdTime => 18_446_744_073_709_551_615_999_999_999,
            Target::Chrono => 9_223_372_036_854_775_807_000_000,
            Target::Time => 9_223_372_036_854_775_807_999_999_999,
        }
    }

    /// Whether the type can hold `nanos` nanoseconds.
    pub open spec fn holds(self, nanos: int) -> bool {
        self.min_nanos() <= nanos <= self.max_nanos()
    }

    /// Whether the type takes a fragment that is written with a minus sign.
    pub open spec fn signed(self) -> bool {
        !(self is StdTime)
    }

    /// How the type rounds a fragment of a second or a longer unit to whole
    /// nanoseconds.
    pub open spec fn rounding(self) -> Rounding {
        match self {
            Target::StdTime => Rounding::HalfEven,
            Target::Chrono => Rounding::Truncate,
            Target::Time => Rounding::HalfEven,
        }
    }

    /// The least number of nanoseconds that the type can hold.
    pub fn lower_bound(self) -> (n: i128)
        ensures
            n == self.min_nanos(),
    {
        match self {
            Target::StdTime => 0,
            Target::Chrono => -9_223_372_036_854_775_807_000_000,
            Target::Time => -9_223_372_036_854_775_808_999_999_999,
        }
    }

    /// The greatest number of nanoseconds that the type can hold.
    pub fn upper_bound(self) -> (n: i128)
        ensures
            n == self.max_nanos(),
    {
        match self {
            Target::StdTime => 18_446_744_073_709_551_615_999_999_999,
            Target::Chrono => 9_223_372_036_854_775_807_000_000,
            Target::Time => 9_223_372_036_854_775_807_999_999_999,
        }
    }

    /// How the type rounds a fragment of a second or a longer unit.
    pub fn rounding_mode(self) -> (m: Rounding)
        ensures
            m == self.rounding(),
    {
        match self {
            Target::StdTime => Rounding::HalfEven,
            Target::Chrono => Rounding::Truncate,
            Target::Time => Rounding::HalfEven,
        }
    }
}

impl Duration {
    /// The unit that the duration is measured in.
    pub open spec fn unit(self) -> DurationUnit {
        match self {
            Duration::Year(_) => DurationUnit::Year,
            Duration::Month(_) => DurationUnit::Month,
            Duration::Week(_) => DurationUnit::Week,
            Duration::Day(_) => DurationUnit::Day,
            Duration::Hour(_) => DurationUnit::Hour,
            Duration::Minute(_) => DurationUnit::Minute,
            Duration::Second(_) => DurationUnit::Second,
            Duration::Millisecond(_) => DurationUnit::Millisecond,
            Duration::Microsecond(_) => DurationUnit::Microsecond,
            Duration::Nanosecond(_) => DurationUnit::Nanosecond,
        }
    }

    /// The count of a duration that is not measured in nanoseconds.
    pub open spec fn count(self) -> Decimal {
        match self {
            Duration::Year(x) => x,
            Duration::Month(x) => x,
            Duration::Week(x) => x,
            Duration::Day(x) => x,
            Duration::Hour(x) => x,
            Duration::Minute(x) => x,
            Duration::Second(x) => x,
            Duration::Millisecond(x) => x,
            Duration::Microsecond(x) => x,
            Duration::Nanosecond(_) => arbitrary(),
        }
    }

    /// Whether the duration is written with a minus sign; for a count of
    /// nanoseconds, whether it is below zero.
    pub open spec fn is_negative(self) -> bool {
        match self {
            Duration::Nanosecond(n) => n < 0,
            _ => self.count().negative,
        }
    }

    /// How the count of the duration is rounded to whole nanoseconds for
    /// `target`: a fragment shorter than a second to the nearest nanosecond,
    /// a half going away from zero; a longer one as the type does it.
    pub open spec fn rounding(self, target: Target) -> Rounding {
        if self.unit().is_subsecond() {
            Rounding::HalfUp
        } else {
            target.rounding()
        }
    }

    /// The duration in whole nanoseconds, with its sign, as `target` rounds
    /// it.
    pub open spec fn rounded_nanos(self, target: Target) -> int {
        match self {
            Duration::Nanosecond(n) => n as int,
            _ => {
                let m = self.count().times(self.unit().nanos(), self.rounding(target));
                if self.count().negative {
                    -m
                } else {
                    m
                }
            },
        }
    }

    /// What the duration alone amounts to in `target`, in nanoseconds; `None`
    /// where `target` cannot take it.
    ///
    /// An unsigned type takes no duration of a second or a longer unit that
    /// is written with a minus sign, be it zero. A duration of a shorter unit
    /// has to fit in 64 bits once it is rounded to nanoseconds. Every
    /// duration has to be within the range of the type, so that an unsigned
    /// type takes none that is below zero when rounded.
    pub open spec fn nanos(self, target: Target) -> Option<int> {
        let v = self.rounded_nanos(target);
        if !self.unit().is_subsecond() && self.is_negative() && !target.signed() {
            None
        } else if self.unit().is_subsecond() && !(i64::MIN <= v <= i64::MAX) {
            None
        } else if !target.holds(v) {
            None
        } else {
            Some(v)
        }
    }

    /// The duration of `count` times `unit`; `None` for a count of
    /// nanoseconds that does not fit in 64 bits.
    ///
    /// A count of nanoseconds loses its fraction.
    pub open spec fn of_unit(unit: DurationUnit, count: Decimal) -> Option<Duration> {
        match unit {
            DurationUnit::Year => Some(Duration::Year(count)),
            DurationUnit::Month => Some(Duration::Month(count)),
            DurationUnit::Week => Some(Duration::Week(count)),
            DurationUnit::Day => Some(Duration::Day(count)),
            DurationUnit::Hour => Some(Duration::Hour(count)),
            DurationUnit::Minute => Some(Duration::Minute(count)),
            DurationUnit::Second => Some(Duration::Second(count)),
            DurationUnit::Millisecond => Some(Duration::Millisecond(count)),
            DurationUnit::Microsecond => Some(Duration::Microsecond(count)),
            DurationUnit::Nanosecond => {
                let n = if count.negative {
                    -count.whole()
                } else {
                    count.whole()
                };
                if i64::MIN <= n <= i64::MAX {
                    Some(Duration::Nanosecond(n as i64))
                } else {
                    None
                }
            },
        }
    }

    /// Makes the duration of `count` times `unit`.
    pub fn from_unit(unit: DurationUnit, count: Decimal) -> (r: Option<Duration>)
        ensures
            r == Duration::of_unit(unit, count),
    {
        match unit {
            DurationUnit::Year => Some(Duration::Year(count)),
            DurationUnit::Month => Some(Duration::Month(count)),
            DurationUnit::Week => Some(Duration::Week(count)),
            DurationUnit::Day => Some(Duration::Day(count)),
            DurationUnit::Hour => Some(Duration::Hour(count)),
            DurationUnit::Minute => Some(Duration::Minute(count)),
            DurationUnit::Second => Some(Duration::Second(count)),
            DurationUnit::Millisecond => Some(Duration::Millisecond(count)),
            DurationUnit::Microsecond => Some(Duration::Microsecond(count)),
            DurationUnit::Nanosecond => {
                // The fraction is dropped, and what is left has to fit.
                let whole: i128 = match count.whole_part() {
                    Some(w) => w as i128,
                    None => {
                        return None;
                    },
                };
                let n: i128 = if count.negative {
                    0 - whole
                } else {
                    whole
                };
                if n < i64::MIN as i128 || n > i64::MAX as i128 {
                    return None;
                }
                Some(Duration::Nanosecond(n as i64))
            },
        }
    }

    /// The unit that the duration is measured in.
    pub fn get_unit(&self) -> (u: DurationUnit)
        ensures
            u == self.unit(),
    {
        match self {
            Duration::Year(_) => DurationUnit::Year,
            Duration::Month(_) => DurationUnit::Month,
            Duration::Week(_) => DurationUnit::Week,
            Duration::Day(_) => DurationUnit::Day,
            Duration::Hour(_) => DurationUnit::Hour,
            Duration::Minute(_) => DurationUnit::Minute,
            Duration::Second(_) => DurationUnit::Second,
            Duration::Millisecond(_) => DurationUnit::Millisecond,
            Duration::Microsecond(_) => DurationUnit::Microsecond,
            Duration::Nanosecond(_) => DurationUnit::Nanosecond,
        }
    }

    /// Computes what the duration alone amounts to in `target`.
    pub fn to_nanos(&self, target: Target) -> (r: Option<i128>)
        ensures
            r matches Some(v) ==> self.nanos(target) == Some(v as int),
            r.is_none() ==> self.nanos(target).is_none(),
    {
        let count: Decimal = match self {
            Duration::Nanosecond(n) => {
                let v: i128 = *n as i128;
                if v < target.lower_bound() || v > target.upper_bound() {
                    return None;
                }
                return Some(v);
            },
            Duration::Year(x) => *x,
            Duration::Month(x) => *x,
            Duration::Week(x) => *x,
            Duration::Day(x) => *x,
            Duration::Hour(x) => *x,
            Duration::Minute(x) => *x,
            Duration::Second(x) => *x,
            Duration::Millisecond(x) => *x,
            Duration::Microsecond(x) => *x,
        };
        let unit = self.get_unit();
        let subsecond = unit.subsecond();
        if !subsecond && count.negative && target == Target::StdTime {
            return None;
        }
        let mode = if subsecond {
            Rounding::HalfUp
        } else {
            target.rounding_mode()
        };
        let factor = unit.nanos_per_unit();
        let magnitude: u128 = match count.checked_times(factor, mode) {
            Some(m) => m,
            None => {
                return None;
            },
        };
        // Far beyond every range, and safely within `i128`.
        if magnitude > 0x1_0000_0000_0000_0000_0000_0000 {
            return None;
        }
        let v: i128 = if count.negative {
            0 - magnitude as i128
        } else {
            magnitude as i128
        };
        if subsecond && (v < i64::MIN as i128 || v > i64::MAX as i128) {
            return None;
        }
        if v < target.lower_bound() || v > target.upper_bound() {
            return None;
        }
        Some(v)
    }
}

/// What the durations amount to in `target` when they are summed from the
/// first to the last, in nanoseconds; `None` where `target` cannot take one
/// of them, or cannot hold one of the sums on the way.
pub open spec fn total_nanos(durations: Seq<Duration>, target: Target) -> Option<int>
    decreases durations.len(),
{
    if durations.len() == 0 {
        Some(0)
    } else {
        match (total_nanos(durations.drop_last(), target), durations.last().nanos(target)) {
            (Some(sum), Some(v)) => if target.holds(sum + v) {
                Some(sum + v)
            } else {
                None
            },
            _ => None,
        }
    }
}

/// The sum of the first `i + 1` durations comes from the sum of the first `i`
/// and the duration at `i`; and where no sum of the first `i + 1` exists,
/// none exists of them all.
pub proof fn lemma_total_nanos_step(durations: Seq<Duration>, i: int, target: Target)
    requires
        0 <= i < durations.len(),
    ensures
        total_nanos(durations.take(i + 1), target) == match (
            total_nanos(durations.take(i), target),
            durations[i].nanos(target),
        ) {
            (Some(sum), Some(v)) => if target.holds(sum + v) {
                Some(sum + v)
            } else {
                None
            },
            _ => None,
        },
        total_nanos(durations.take(i + 1), target).is_none() ==> total_nanos(
            durations,
            target,
        ).is_none(),
{
    assert(durations.take(i + 1).drop_last() =~= durations.take(i));
    assert(durations.take(i + 1).last() == durations[i]);
    if total_nanos(durations.take(i + 1), target).is_none() {
        lemma_total_nanos_prefix(durations, i + 1, target);
    }
}

/// Where the first `k` durations have no sum, the whole list has none.
pub proof fn lemma_total_nanos_prefix(durations: Seq<Duration>, k: int, target: Target)
    requires
        0 <= k <= durations.len(),
        total_nanos(durations.take(k), target).is_none(),
    ensures
        total_nanos(durations, target).is_none(),
    decreases durations.len() - k,
{
    if k == durations.len() {
        assert(durations.take(k) =~= durations);
    } else {
        assert(durations.take(k + 1).drop_last() =~= durations.take(k));
        lemma_total_nanos_prefix(durations, k + 1, target);
    }
}

} // verus!
