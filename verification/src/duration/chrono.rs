//! Conversion of time spans into `chrono::TimeDelta`.

use crate::duration::{lemma_total_nanos_step, total_nanos, Container, Target};
use crate::error::Error;
use vstd::prelude::*;
use vstd::std_specs::convert::TryFromSpecImpl;

verus! {

/// `chrono::TimeDelta`, of which the verifier sees nothing but what
/// [`timedelta_nanos`] names.
#[verifier::external_type_specification]
#[verifier::external_body]
pub struct ExTimeDelta(::chrono::TimeDelta);

/// The nanoseconds that a `chrono::TimeDelta` stands for: its whole seconds
/// times `10^9` plus its nanoseconds, which chrono keeps in `0..10^9`.
pub uninterp spec fn timedelta_nanos(d: ::chrono::TimeDelta) -> int;

/// Calls `chrono::TimeDelta::new`, which gives the delta of `secs` seconds
/// and `nanos` nanoseconds where `nanos` is below `10^9` and the whole is
/// within `i64::MAX` milliseconds of zero, and `None` otherwise.
#[verifier::external_body]
fn timedelta_new(secs: i64, nanos: u32) -> (r: Option<::chrono::TimeDelta>)
    ensures
        r.is_some() == (nanos <= 999_999_999 && Target::Chrono.holds(secs * 1_000_000_000 + nanos)),
        r matches Some(d) ==> timedelta_nanos(d) == secs * 1_000_000_000 + nanos,
{
    ::chrono::TimeDelta::new(secs, nanos)
}

/// Calls `chrono::TimeDelta::nanoseconds`, which gives the delta of `nanos`
/// nanoseconds and takes every `i64`.
#[verifier::external_body]
fn timedelta_nanoseconds(nanos: i64) -> (d: ::chrono::TimeDelta)
    ensures
        timedelta_nanos(d) == nanos,
{
    ::chrono::TimeDelta::nanoseconds(nanos)
}

/// Calls `chrono::TimeDelta::checked_add`, which gives the sum of the two
/// deltas where it is within `i64::MAX` milliseconds of zero, and `None`
/// otherwise.
#[verifier::external_body]
fn timedelta_checked_add(a: &::chrono::TimeDelta, b: &::chrono::TimeDelta) -> (r: Option<
    ::chrono::TimeDelta,
>)
    ensures
        r.is_some() == Target::Chrono.holds(timedelta_nanos(*a) + timedelta_nanos(*b)),
        r matches Some(d) ==> timedelta_nanos(d) == timedelta_nanos(*a) + timedelta_nanos(*b),
{
    a.checked_add(b)
}

/// The delta of `nanos` nanoseconds, where chrono can hold it.
pub fn from_nanos(nanos: i128) -> (r: Option<::chrono::TimeDelta>)
    ensures
        r.is_some() == Target::Chrono.holds(nanos as int),
        r matches Some(d) ==> timedelta_nanos(d) == nanos,
{
    if i64::MIN as i128 <= nanos && nanos <= i64::MAX as i128 {
        return Some(timedelta_nanoseconds(nanos as i64));
    }
    if nanos < -10_000_000_000_000_000_000_000_000 || nanos > 10_000_000_000_000_000_000_000_000 {
        return None;
    }
    // Whole seconds rounded down, and what is left of the last second.
    let (secs, rest): (i128, u32) = if nanos >= 0 {
        (nanos / 1_000_000_000, (nanos % 1_000_000_000) as u32)
    } else {
        let m: i128 = 0 - nanos;
        let r: u32 = (m % 1_000_000_000) as u32;
        if r == 0 {
            (0 - m / 1_000_000_000, 0)
        } else {
            (0 - m / 1_000_000_000 - 1, 1_000_000_000 - r)
        }
    };
    assert(secs * 1_000_000_000 + rest == nanos);
    timedelta_new(secs as i64, rest)
}

impl TryFrom<Container> for ::chrono::TimeDelta {
    type Error = Error;

    /// Sums the durations into a `chrono::TimeDelta`.
    ///
    /// Each duration is rounded to whole nanoseconds: what is shorter than a
    /// second to the nearest, the others towards zero. The result is their
    /// sum, and `Error::DurationOverflow` where a duration or a sum on the
    /// way is more than `i64::MAX` milliseconds away from zero.
    fn try_from(durations: Container) -> (r: Result<Self, Error>)
        ensures
            match r {
                Ok(d) => total_nanos(durations@, Target::Chrono) == Some(timedelta_nanos(d)),
                Err(e) => e == Error::DurationOverflow && total_nanos(
                    durations@,
                    Target::Chrono,
                ).is_none(),
            },
    {
        let mut duration_sum = timedelta_nanoseconds(0);
        let n = durations.len();
        let mut i: usize = 0;
        assert(durations@.take(0) =~= Seq::empty());
        while i < n
            invariant
                i <= n,
                n == durations@.len(),
                total_nanos(durations@.take(i as int), Target::Chrono) == Some(
                    timedelta_nanos(duration_sum),
                ),
            decreases n - i,
        {
            proof {
                lemma_total_nanos_step(durations@, i as int, Target::Chrono);
            }
            let part = match durations.0[i].to_nanos(Target::Chrono) {
                Some(v) => from_nanos(v),
                None => None,
            };
            let next = match part {
                Some(p) => timedelta_checked_add(&duration_sum, &p),
                None => None,
            };
            match next {
                Some(d) => {
                    duration_sum = d;
                },
                None => {
                    return Err(Error::DurationOverflow);
                },
            }
            i += 1;
        }
        assert(durations@.take(n as int) =~= durations@);
        Ok(duration_sum)
    }
}

/// What `try_from` returns is stated by its contract alone: no spec function
/// can give it, since none can make a `chrono::TimeDelta`.
impl TryFromSpecImpl<Container> for ::chrono::TimeDelta {
    open spec fn obeys_try_from_spec() -> bool {
        false
    }

    open spec fn try_from_spec(v: Container) -> Result<Self, Error> {
        arbitrary()
    }
}

} // verus!
