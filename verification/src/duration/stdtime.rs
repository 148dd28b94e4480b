//! Conversion of time spans into `std::time::Duration`.

use crate::duration::{lemma_total_nanos_step, total_nanos, Container, Target};
use crate::error::Error;
use vstd::prelude::*;
use vstd::std_specs::convert::TryFromSpecImpl;

verus! {

/// The nanoseconds that a `std::time::Duration` stands for: its whole seconds
/// times `10^9` plus its nanoseconds, which are below `10^9`.
pub uninterp spec fn duration_nanos(d: std::time::Duration) -> int;

/// Calls `std::time::Duration::new`, which gives the duration of `secs`
/// seconds and `nanos` nanoseconds. With a billion nanoseconds or more it
/// carries into the seconds and may panic, so those are left out.
#[verifier::external_body]
fn duration_new(secs: u64, nanos: u32) -> (d: std::time::Duration)
    requires
        nanos <= 999_999_999,
    ensures
        duration_nanos(d) == secs * 1_000_000_000 + nanos,
{
    std::time::Duration::new(secs, nanos)
}

/// Calls `std::time::Duration::checked_add`, which gives the sum of the two
/// durations where its whole seconds fit in `u64`, and `None` otherwise.
#[verifier::external_body]
fn duration_checked_add(a: std::time::Duration, b: std::time::Duration) -> (r: Option<
    std::time::Duration,
>)
    ensures
        r.is_some() == Target::StdTime.holds(duration_nanos(a) + duration_nanos(b)),
        r matches Some(d) ==> duration_nanos(d) == duration_nanos(a) + duration_nanos(b),
{
    a.checked_add(b)
}

/// The duration of `nanos` nanoseconds, where `std::time::Duration` can hold
/// it.
pub fn from_nanos(nanos: i128) -> (r: Option<std::time::Duration>)
    ensures
        r.is_some() == Target::StdTime.holds(nanos as int),
        r matches Some(d) ==> duration_nanos(d) == nanos,
{
    if nanos < 0 || nanos > 18_446_744_073_709_551_615_999_999_999 {
        return None;
    }
    let secs: i128 = nanos / 1_000_000_000;
    let rest: i128 = nanos % 1_000_000_000;
    Some(duration_new(secs as u64, rest as u32))
}

impl TryFrom<Container> for std::time::Duration {
    type Error = Error;

    /// Sums the durations into a `std::time::Duration`.
    ///
    /// Each duration is rounded to the nearest whole nanosecond: a half goes
    /// up in what is shorter than a second, and to the even neighbour in the
    /// others. The result is their sum. It is `Error::DurationOverflow` where
    /// a duration of a second or a longer unit carries a minus sign, where a
    /// shorter one is below zero once rounded, and where the whole seconds of
    /// a duration, or of a sum on the way, do not fit in `u64`.
    fn try_from(durations: Container) -> (r: Result<Self, Error>)
        ensures
            match r {
                Ok(d) => total_nanos(durations@, Target::StdTime) == Some(duration_nanos(d)),
                Err(e) => e == Error::DurationOverflow && total_nanos(
                    durations@,
                    Target::StdTime,
                ).is_none(),
            },
    {
        let mut duration_sum = duration_new(0, 0);
        let n = durations.len();
        let mut i: usize = 0;
        assert(durations@.take(0) =~= Seq::empty());
        while i < n
            invariant
                i <= n,
                n == durations@.len(),
                total_nanos(durations@.take(i as int), Target::StdTime) == Some(
                    duration_nanos(duration_sum),
                ),
            decreases n - i,
        {
            proof {
                lemma_total_nanos_step(durations@, i as int, Target::StdTime);
            }
            let part = match durations.0[i].to_nanos(Target::StdTime) {
                Some(v) => from_nanos(v),
                None => None,
            };
            let next = match part {
                Some(p) => duration_checked_add(duration_sum, p),
                None => None,
            };
            match next {
                Some(d) => {
                    duration_sum = d;
                },
                None => {
                    return Err(Error::DurationOverflow);
                },
            }
            i += 1;
        }
        assert(durations@.take(n as int) =~= durations@);
        Ok(duration_sum)
    }
}

/// What `try_from` returns is stated by its contract alone: no spec function
/// can give it, since none can make a `std::time::Duration`.
impl TryFromSpecImpl<Container> for std::time::Duration {
    open spec fn obeys_try_from_spec() -> bool {
        false
    }

    open spec fn try_from_spec(v: Container) -> Result<Self, Error> {
        arbitrary()
    }
}

} // verus!
