//! Exact decimal magnitudes.

use vstd::prelude::*;

verus! {

/// The number of steps of a [`Decimal`] that make up one: ten to the
/// eighteenth.
pub const ATTOS_PER_UNIT: u128 = 1_000_000_000_000_000_000;

/// A signed decimal number with eighteen digits behind the point.
///
/// The magnitude is `attos / 10^18`. The sign is kept apart from it, so that
/// a zero written with a minus sign stays negative. A magnitude too large to
/// be held is kept as `u128::MAX`, which no duration type can take in any
/// unit.
#[derive(Copy, Clone, Debug, PartialEq, Eq, Structural)]
pub struct Decimal {
    pub negative: bool,
    pub attos: u128,
}

/// How a magnitude that falls between two integers is made an integer.
#[derive(Copy, Clone, Debug, PartialEq, Eq, Structural)]
pub enum Rounding {
    /// Drop the fraction.
    Truncate,
    /// To the nearest integer; a half goes up.
    HalfUp,
    /// To the nearest integer; a half goes to the even neighbour.
    HalfEven,
}

/// `n / d` made an integer by `mode`, for `n >= 0` and `d > 0`.
pub open spec fn round_div(n: int, d: int, mode: Rounding) -> int {
    let q = n / d;
    let r = n % d;
    match mode {
        Rounding::Truncate => q,
        Rounding::HalfUp => if 2 * r >= d {
            q + 1
        } else {
            q
        },
        Rounding::HalfEven => if 2 * r > d || (2 * r == d && q % 2 == 1) {
            q + 1
        } else {
            q
        },
    }
}

impl Decimal {
    /// The integer part of the magnitude.
    pub open spec fn whole(self) -> int {
        self.attos as int / ATTOS_PER_UNIT as int
    }

    /// The magnitude times `factor`, made an integer by `mode`.
    pub open spec fn times(self, factor: int, mode: Rounding) -> int {
        round_div(self.attos * factor, ATTOS_PER_UNIT as int, mode)
    }

    /// The number with the given sign, integer part and fraction, the
    /// fraction counted in steps of `10^-18`. A fraction of `10^18` steps or
    /// more carries into the integer part.
    pub fn new(negative: bool, whole: u64, fraction: u64) -> (d: Decimal)
        ensures
            d.negative == negative,
            d.attos == whole * ATTOS_PER_UNIT + fraction,
    {
        let w: u128 = whole as u128;
        Decimal { negative, attos: w * ATTOS_PER_UNIT + fraction as u128 }
    }

    /// The integer part of the magnitude, if it fits in 64 bits.
    pub fn whole_part(&self) -> (r: Option<u64>)
        ensures
            r == if self.whole() <= u64::MAX {
                Some(self.whole() as u64)
            } else {
                None
            },
    {
        let w: u128 = self.attos / ATTOS_PER_UNIT;
        if w <= u64::MAX as u128 {
            Some(w as u64)
        } else {
            None
        }
    }

    /// Multiplies the magnitude by `factor` and rounds the product by `mode`.
    ///
    /// Returns `None` when the integer part of the magnitude needs more than
    /// 64 bits: the product is then `2^64 * factor` or more.
    pub fn checked_times(&self, factor: u64, mode: Rounding) -> (r: Option<u128>)
        ensures
            r.is_some() <==> self.whole() <= u64::MAX,
            r matches Some(m) ==> m == self.times(factor as int, mode),
            r.is_none() ==> self.times(factor as int, mode) >= 0x1_0000_0000_0000_0000 * factor,
    {
        let unit: u128 = ATTOS_PER_UNIT;
        let whole: u128 = self.attos / unit;
        let frac: u128 = self.attos % unit;
        let f: u128 = factor as u128;
        proof {
            lemma_split_product(self.attos as int, factor as int);
        }
        if whole > u64::MAX as u128 {
            proof {
                assert(whole * f >= 0x1_0000_0000_0000_0000 * f) by (nonlinear_arith)
                    requires
                        whole >= 0x1_0000_0000_0000_0000,
                        f >= 0,
                ;
            }
            return None;
        }
        assert(whole * f <= 0xffff_ffff_ffff_ffff * 0xffff_ffff_ffff_ffff) by (nonlinear_arith)
            requires
                whole <= 0xffff_ffff_ffff_ffff,
                f <= 0xffff_ffff_ffff_ffff,
        ;
        assert(frac * f <= 999_999_999_999_999_999 * 0xffff_ffff_ffff_ffff) by (nonlinear_arith)
            requires
                frac <= 999_999_999_999_999_999,
                f <= 0xffff_ffff_ffff_ffff,
        ;
        let part: u128 = frac * f;
        let q: u128 = whole * f + part / unit;
        let r: u128 = part % unit;
        let up: bool = match mode {
            Rounding::Truncate => false,
            Rounding::HalfUp => 2 * r >= unit,
            Rounding::HalfEven => 2 * r > unit || (2 * r == unit && q % 2 == 1),
        };
        if up {
            Some(q + 1)
        } else {
            Some(q)
        }
    }
}

/// A product with a multiple of `10^18` splits at the point: the integer part
/// of the one factor contributes whole multiples of the other.
pub proof fn lemma_split_product(attos: int, factor: int)
    requires
        attos >= 0,
        factor >= 0,
    ensures
        ({
            let unit = ATTOS_PER_UNIT as int;
            let whole = attos / unit;
            let frac = attos % unit;
            &&& (attos * factor) / unit == whole * factor + (frac * factor) / unit
            &&& (attos * factor) % unit == (frac * factor) % unit
            &&& attos * factor >= 0
            &&& (attos * factor) / unit >= whole * factor
        }),
{
    let unit = ATTOS_PER_UNIT as int;
    let whole = attos / unit;
    let frac = attos % unit;
    let x = whole * factor;
    let p = frac * factor;
    assert(attos == whole * unit + frac);
    assert(attos * factor == x * unit + p) by (nonlinear_arith)
        requires
            attos == whole * unit + frac,
            x == whole * factor,
            p == frac * factor,
    ;
    assert(p >= 0) by (nonlinear_arith)
        requires
            p == frac * factor,
            frac >= 0,
            factor >= 0,
    ;
    assert(x >= 0) by (nonlinear_arith)
        requires
            x == whole * factor,
            whole >= 0,
            factor >= 0,
    ;
    assert((x * unit + p) / unit == x + p / unit && (x * unit + p) % unit == p % unit);
}

} // verus!
