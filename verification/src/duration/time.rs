//! Conversion of time spans into `time::Duration`.

use crate::duration::{lemma_total_nanos_step, total_nanos, Container, Target};
use crate::error::Error;
use vstd::prelude::*;
use vstd::std_specs::convert::TryFromSpecImpl;

verus! {

/// `time::SignedDuration`, which the time crate also offers as
/// `time::Duration`. The verifier sees nothing of it but what
/// [`duration_nanos`] names.
#[verifier::external_type_specification]
#[verifier::external_body]
pub struct ExSignedDuration(::time::SignedDuration);

/// The nanoseconds that a `time::Duration` stands for: its whole seconds
/// times `10^9` plus its nanoseconds, which have the sign of the seconds and
/// are less than `10^9` either way.
pub uninterp spec fn duration_nanos(d: ::time::Duration) -> int;

/// Calls `time::Duration::new`, which gives the duration of `seconds`
/// seconds and `nanoseconds` nanoseconds. With a billion nanoseconds or more
/// it carries into the seconds and may panic, so those are left out.
#[verifier::external_body]
fn duration_new(seconds: i64, nanoseconds: i32) -> (d: ::time::Duration)
    requires
        -1_000_000_000 < nanoseconds < 1_000_000_000,
    ensures
        duration_nanos(d) == seconds * 1_000_000_000 + nanoseconds,
{
    ::time::Duration::new(seconds, nanoseconds)
}

/// Calls `time::Duration::nanoseconds`, which gives the duration of
/// `nanoseconds` nanoseconds and takes every `i64`.
#[verifier::external_body]
fn duration_nanoseconds(nanoseconds: i64) -> (d: ::time::Duration)
    ensures
        duration_nanos(d) == nanoseconds,
{
    ::time::Duration::nanoseconds(nanoseconds)
}

/// Calls `time::Duration::checked_add`, which gives the sum of the two
/// durations where its whole seconds fit in `i64`, and `None` otherwise.
#[verifier::external_body]
fn duration_checked_add(a: ::time::Duration, b: ::time::Duration) -> (r: Option<::time::Duration>)
    ensures
        r.is_some() == Target::Time.holds(duration_nanos(a) + duration_nanos(b)),
        r matches Some(d) ==> duration_nanos(d) == duration_nanos(a) + duration_nanos(b),
{
    a.checked_add(b)
}

/// The duration of `nanos` nanoseconds, where `time::Duration` can hold it.
pub fn from_nanos(nanos: i128) -> (r: Option<::time::Duration>)
    ensures
        r.is_some() == Target::Time.holds(nanos as int),
        r matches Some(d) ==> duration_nanos(d) == nanos,
{
    if i64::MIN as i128 <= nanos && nanos <= i64::MAX as i128 {
        return Some(duration_nanoseconds(nanos as i64));
    }
    if nanos < -9_223_372_036_854_775_808_999_999_999 || nanos
        > 9_223_372_036_854_775_807_999_999_999 {
        return None;
    }
    // Seconds and nanoseconds carry the sign of the whole.
    let (seconds, rest): (i128, i32) = if nanos >= 0 {
        (nanos / 1_000_000_000, (nanos % 1_000_000_000) as i32)
    } else {
        let m: i128 = 0 - nanos;
        (0 - m / 1_000_000_000, 0 - (m % 1_000_000_000) as i32)
    };
    assert(seconds * 1_000_000_000 + rest == nanos);
    Some(duration_new(seconds as i64, rest))
}

impl TryFrom<Container> for ::time::Duration {
    type Error = Error;

    /// Sums the durations into a `time::Duration`.
    ///
    /// Each duration is rounded to the nearest whole nanosecond: a half goes
    /// away from zero in what is shorter than a second, and to the even
    /// neighbour in the others. The result is their sum, and
    /// `Error::DurationOverflow` where the whole seconds of a duration, or of
    /// a sum on the way, do not fit in `i64`.
    fn try_from(durations: Container) -> (r: Result<Self, Error>)
        ensures
            match r {
                Ok(d) => total_nanos(durations@, Target::Time) == Some(duration_nanos(d)),
                Err(e) => e == Error::DurationOverflow && total_nanos(
                    durations@,
                    Target::Time,
                ).is_none(),
            },
    {
        let mut duration_sum = duration_nanoseconds(0);
        let n = durations.len();
        let mut i: usize = 0;
        assert(durations@.take(0) =~= Seq::empty());
        while i < n
            invariant
                i <= n,
                n == durations@.len(),
                total_nanos(durations@.take(i as int), Target::Time) == Some(
                    duration_nanos(duration_sum),
                ),
            decreases n - i,
        {
            proof {
                lemma_total_nanos_step(durations@, i as int, Target::Time);
            }
            let part = match durations.0[i].to_nanos(Target::Time) {
                Some(v) => from_nanos(v),
                None => None,
            };
            let next = match part {
                Some(p) => duration_checked_add(duration_sum, p),
                None => None,
            };
            match next {
                Some(d) => {
                    duration_sum = d;
                },
                None => {
                    return Err(Error::DurationOverflow);
                },
            }
            i += 1;
        }
        assert(durations@.take(n as int) =~= durations@);
        Ok(duration_sum)
    }
}

/// What `try_from` returns is stated by its contract alone: no spec function
/// can give it, since none can make a `time::Duration`.
impl TryFromSpecImpl<Container> for ::time::Duration {
    open spec fn obeys_try_from_spec() -> bool {
        false
    }

    open spec fn try_from_spec(v: Container) -> Result<Self, Error> {
        arbitrary()
    }
}

} // verus!
