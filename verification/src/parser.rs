//! The grammar of time spans.
//!
//! A time span is one or more fragments, each a number followed by the
//! spelling of a unit, or else a single number without a unit, which counts
//! seconds. Spaces and tabs may stand before a number and between a number
//! and its unit; a line break is no whitespace here. The whole text has to
//! be used up.
//!
//! The grammar is defined on the bytes of the text by the `spec` functions of
//! this module, and the executable functions are proved to follow it.

use crate::decimal::{Decimal, ATTOS_PER_UNIT};
use crate::duration::{total_nanos, Container, Duration, Target};
use crate::error::{Error, ParseError, ParseErrorKind};
use crate::unit::DurationUnit;
use vstd::prelude::*;
use vstd::slice::slice_subrange;
use vstd::string::StringSliceAdditionalSpecFns;

pub mod chrono;
pub mod context;
pub mod stdtime;
pub mod time;
pub mod words;

verus! {

/// The kinds of byte that the grammar reads in runs.
#[derive(Copy, Clone, Debug, PartialEq, Eq, Structural)]
pub enum ByteClass {
    /// Space and tab: the whitespace within a line.
    Space,
    /// The decimal digits.
    Digit,
    /// The bytes that the spellings of the units are made of: the letters of
    /// `Macdehiklmnorstuwy` and the two bytes of the micro sign, `0xc2` and
    /// `0xb5`.
    Word,
}

impl ByteClass {
    /// Whether `b` is a byte of the class.
    pub open spec fn has(self, b: u8) -> bool {
        match self {
            ByteClass::Space => b == 0x20 || b == 0x09,
            ByteClass::Digit => 0x30 <= b <= 0x39,
            ByteClass::Word => b == 'M' as u8 || b == 'a' as u8 || b == 'c' as u8 || b == 'd' as u8
                || b == 'e' as u8 || b == 'h' as u8 || b == 'i' as u8 || b == 'k' as u8 || b
                == 'l' as u8 || b == 'm' as u8 || b == 'n' as u8 || b == 'o' as u8 || b
                == 'r' as u8 || b == 's' as u8 || b == 't' as u8 || b == 'u' as u8 || b
                == 'w' as u8 || b == 'y' as u8 || b == 0xc2 || b == 0xb5,
        }
    }

    /// Tells whether `b` is a byte of the class.
    pub fn contains(self, b: u8) -> (r: bool)
        ensures
            r == self.has(b),
    {
        match self {
            ByteClass::Space => b == 0x20 || b == 0x09,
            ByteClass::Digit => 0x30 <= b && b <= 0x39,
            ByteClass::Word => b == 'M' as u8 || b == 'a' as u8 || b == 'c' as u8 || b == 'd' as u8
                || b == 'e' as u8 || b == 'h' as u8 || b == 'i' as u8 || b == 'k' as u8 || b
                == 'l' as u8 || b == 'm' as u8 || b == 'n' as u8 || b == 'o' as u8 || b
                == 'r' as u8 || b == 's' as u8 || b == 't' as u8 || b == 'u' as u8 || b
                == 'w' as u8 || b == 'y' as u8 || b == 0xc2 || b == 0xb5,
        }
    }
}

/// Where the run of bytes of `class` that starts at `i` ends: the first
/// position from `i` on that holds no byte of the class.
pub open spec fn run_end(s: Seq<u8>, i: int, class: ByteClass) -> int
    decreases s.len() - i,
{
    if 0 <= i < s.len() && class.has(s[i]) {
        run_end(s, i + 1, class)
    } else {
        i
    }
}

/// A run ends at or after its start and within the text, holds bytes of its
/// class only, and is followed by none.
pub proof fn lemma_run_end(s: Seq<u8>, i: int, class: ByteClass)
    requires
        0 <= i <= s.len(),
    ensures
        i <= run_end(s, i, class) <= s.len(),
        forall|k: int| i <= k < run_end(s, i, class) ==> class.has(#[trigger] s[k]),
        run_end(s, i, class) < s.len() ==> !class.has(s[run_end(s, i, class)]),
    decreases s.len() - i,
{
    if i < s.len() && class.has(s[i]) {
        lemma_run_end(s, i + 1, class);
    }
}

/// Finds the end of the run of bytes of `class` that starts at `start`.
pub fn scan(input: &[u8], start: usize, class: ByteClass) -> (end: usize)
    ensures
        end == run_end(input@, start as int, class),
{
    let mut i: usize = start;
    while i < input.len() && class.contains(input[i])
        invariant
            start <= i,
            run_end(input@, i as int, class) == run_end(input@, start as int, class),
        decreases input.len() - i,
    {
        i += 1;
    }
    i
}

/// The value of the decimal digit `b`.
pub open spec fn digit(b: u8) -> int {
    b - 0x30
}

/// The number that the digits from `from` up to `to` spell.
pub open spec fn digits_value(s: Seq<u8>, from: int, to: int) -> int
    decreases to - from,
{
    if to <= from {
        0
    } else {
        digits_value(s, from, to - 1) * 10 + digit(s[to - 1])
    }
}

/// What the digits from `from` up to `to` are worth behind the point, in
/// steps of `10^-18`, where the first of them is worth `place` steps each.
/// Digits beyond the eighteenth are worth nothing.
pub open spec fn fraction_value(s: Seq<u8>, from: int, to: int, place: int) -> int
    decreases place,
{
    if place <= 0 || from >= to {
        0
    } else {
        digit(s[from]) * place + fraction_value(s, from + 1, to, place / 10)
    }
}

/// What the first digit behind the point is worth, in steps of `10^-18`.
pub const FIRST_PLACE: u64 = 100_000_000_000_000_000;

/// The magnitude that a literal stands for, in steps of `10^-18`: its exact
/// value where that fits in 128 bits, and `u128::MAX` where it does not.
pub open spec fn saturated(attos: int) -> u128 {
    if attos > u128::MAX {
        u128::MAX
    } else {
        attos as u128
    }
}

/// The position behind the sign at `i`, or `i` where no sign stands there.
pub open spec fn after_sign(s: Seq<u8>, i: int) -> int {
    if 0 <= i < s.len() && (s[i] == '+' as u8 || s[i] == '-' as u8) {
        i + 1
    } else {
        i
    }
}

/// Whether a point stands at `i` with a digit behind it.
pub open spec fn has_fraction(s: Seq<u8>, i: int) -> bool {
    0 <= i && i + 1 < s.len() && s[i] == '.' as u8 && ByteClass::Digit.has(s[i + 1])
}

/// Where the numeric literal that starts at `i` ends, if one starts there.
///
/// A literal is an optional sign, digits, and an optional point with digits
/// behind it. It has at least one digit, and a point only where a digit
/// follows it. There is no exponent.
pub open spec fn literal_end(s: Seq<u8>, i: int) -> Option<int> {
    let a = after_sign(s, i);
    let b = run_end(s, a, ByteClass::Digit);
    if has_fraction(s, b) {
        Some(run_end(s, b + 1, ByteClass::Digit))
    } else if b > a {
        Some(b)
    } else {
        None
    }
}

/// The number that the literal at `i` stands for.
///
/// The digits behind the point are read up to the eighteenth.
pub open spec fn literal_value(s: Seq<u8>, i: int) -> Decimal {
    let a = after_sign(s, i);
    let b = run_end(s, a, ByteClass::Digit);
    let whole = digits_value(s, a, b);
    let fraction = if has_fraction(s, b) {
        fraction_value(s, b + 1, run_end(s, b + 1, ByteClass::Digit), FIRST_PLACE as int)
    } else {
        0
    };
    Decimal {
        negative: 0 <= i < s.len() && s[i] == '-' as u8,
        attos: saturated(whole * ATTOS_PER_UNIT + fraction),
    }
}

/// From this on the integer part of a literal cannot be held in steps of
/// `10^-18`.
const WHOLE_LIMIT: u128 = 340_282_366_920_938_463_464;

/// Reads the digits from `from` up to `to` as a number, stopping at
/// `WHOLE_LIMIT`.
fn read_digits(input: &[u8], from: usize, to: usize) -> (r: u128)
    requires
        from <= to <= input.len(),
        forall|k: int| from <= k < to ==> ByteClass::Digit.has(#[trigger] input@[k]),
    ensures
        r <= WHOLE_LIMIT,
        r < WHOLE_LIMIT ==> r == digits_value(input@, from as int, to as int),
        r == WHOLE_LIMIT ==> digits_value(input@, from as int, to as int) >= WHOLE_LIMIT,
{
    let mut acc: u128 = 0;
    let mut k: usize = from;
    while k < to
        invariant
            from <= k <= to <= input.len(),
            forall|j: int| from <= j < to ==> ByteClass::Digit.has(#[trigger] input@[j]),
            acc <= WHOLE_LIMIT,
            acc < WHOLE_LIMIT ==> acc == digits_value(input@, from as int, k as int),
            acc == WHOLE_LIMIT ==> digits_value(input@, from as int, k as int) >= WHOLE_LIMIT,
        decreases to - k,
    {
        let d: u128 = (input[k] - 0x30) as u128;
        let next: u128 = acc * 10 + d;
        acc = if next > WHOLE_LIMIT {
            WHOLE_LIMIT
        } else {
            next
        };
        k += 1;
    }
    acc
}

/// Reads the digits from `from` up to `to` as the part of a number behind
/// the point, in steps of `10^-18`.
fn read_fraction(input: &[u8], from: usize, to: usize) -> (r: u64)
    requires
        from <= to <= input.len(),
        forall|k: int| from <= k < to ==> ByteClass::Digit.has(#[trigger] input@[k]),
    ensures
        r == fraction_value(input@, from as int, to as int, FIRST_PLACE as int),
        r < ATTOS_PER_UNIT,
{
    let mut acc: u64 = 0;
    let mut place: u64 = FIRST_PLACE;
    let mut k: usize = from;
    while place > 0 && k < to
        invariant
            from <= k <= to <= input.len(),
            forall|j: int| from <= j < to ==> ByteClass::Digit.has(#[trigger] input@[j]),
            acc + 10 * place <= ATTOS_PER_UNIT,
            acc < ATTOS_PER_UNIT,
            acc + fraction_value(input@, k as int, to as int, place as int) == fraction_value(
                input@,
                from as int,
                to as int,
                FIRST_PLACE as int,
            ),
        decreases place,
    {
        let d: u64 = (input[k] - 0x30) as u64;
        assert(d * place <= 9 * place) by (nonlinear_arith)
            requires
                d <= 9,
        ;
        acc = acc + d * place;
        place = place / 10;
        k += 1;
    }
    proof {
        lemma_fraction_value_bound(input@, k as int, to as int, place as int);
    }
    acc
}

/// What is read behind the point is less than ten times the worth of the
/// first place.
pub proof fn lemma_fraction_value_bound(s: Seq<u8>, from: int, to: int, place: int)
    requires
        0 <= from,
        to <= s.len(),
        forall|k: int| from <= k < to ==> ByteClass::Digit.has(#[trigger] s[k]),
    ensures
        0 <= fraction_value(s, from, to, place),
        place > 0 ==> fraction_value(s, from, to, place) < 10 * place,
        place <= 0 ==> fraction_value(s, from, to, place) == 0,
    decreases place,
{
    if place > 0 && from < to {
        lemma_fraction_value_bound(s, from + 1, to, place / 10);
        assert(ByteClass::Digit.has(s[from]));
        let d = digit(s[from]);
        assert(d * place <= 9 * place) by (nonlinear_arith)
            requires
                d <= 9,
                place > 0,
        ;
        assert(d * place >= 0) by (nonlinear_arith)
            requires
                d >= 0,
                place > 0,
        ;
    }
}

/// Recognises the numeric literal that starts at `start`, and gives its end
/// and the number that it stands for.
///
/// Not the whole syntax of floating-point literals is taken: systemd takes no
/// exponent either.
pub fn float(input: &[u8], start: usize) -> (r: Option<(usize, Decimal)>)
    ensures
        match r {
            Some((end, value)) => literal_end(input@, start as int) == Some(end as int) && value
                == literal_value(input@, start as int),
            None => literal_end(input@, start as int).is_none(),
        },
{
    let len = input.len();
    if start >= len {
        return None;
    }
    let negative = input[start] == '-' as u8;
    let a: usize = if negative || input[start] == '+' as u8 {
        start + 1
    } else {
        start
    };
    let b = scan(input, a, ByteClass::Digit);
    proof {
        lemma_run_end(input@, a as int, ByteClass::Digit);
    }
    let whole = read_digits(input, a, b);
    let fraction_follows = b < len && input[b] == '.' as u8 && b + 1 < len
        && ByteClass::Digit.contains(input[b + 1]);
    if !fraction_follows && b == a {
        return None;
    }
    let (end, fraction): (usize, u64) = if fraction_follows {
        let end = scan(input, b + 1, ByteClass::Digit);
        proof {
            lemma_run_end(input@, b + 1, ByteClass::Digit);
        }
        (end, read_fraction(input, b + 1, end))
    } else {
        (b, 0)
    };
    let attos: u128 = if whole >= WHOLE_LIMIT {
        u128::MAX
    } else {
        match whole.checked_mul(ATTOS_PER_UNIT) {
            Some(w) => match w.checked_add(fraction as u128) {
                Some(n) => n,
                None => u128::MAX,
            },
            None => u128::MAX,
        }
    };
    Some((end, Decimal { negative, attos }))
}

/// Whether `word` is one of the spellings of `unit`.
///
/// The spellings are matched by case: `M` is a month and `m` a minute. The
/// micro sign is U+00B5.
pub open spec fn is_spelling(unit: DurationUnit, word: Seq<u8>) -> bool {
    match unit {
        DurationUnit::Year => {
            ||| word == "years".spec_bytes()
            ||| word == "year".spec_bytes()
            ||| word == "yrs".spec_bytes()
            ||| word == "yr".spec_bytes()
            ||| word == "y".spec_bytes()
        },
        DurationUnit::Month => {
            ||| word == "months".spec_bytes()
            ||| word == "month".spec_bytes()
            ||| word == "mos".spec_bytes()
            ||| word == "mo".spec_bytes()
            ||| word == "M".spec_bytes()
        },
        DurationUnit::Week => {
            ||| word == "weeks".spec_bytes()
            ||| word == "week".spec_bytes()
            ||| word == "wks".spec_bytes()
            ||| word == "wk".spec_bytes()
            ||| word == "w".spec_bytes()
        },
        DurationUnit::Day => {
            ||| word == "days".spec_bytes()
            ||| word == "day".spec_bytes()
            ||| word == "d".spec_bytes()
        },
        DurationUnit::Hour => {
            ||| word == "hours".spec_bytes()
            ||| word == "hour".spec_bytes()
            ||| word == "hrs".spec_bytes()
            ||| word == "hr".spec_bytes()
            ||| word == "h".spec_bytes()
        },
        DurationUnit::Minute => {
            ||| word == "minutes".spec_bytes()
            ||| word == "minute".spec_bytes()
            ||| word == "mins".spec_bytes()
            ||| word == "min".spec_bytes()
            ||| word == "m".spec_bytes()
        },
        DurationUnit::Second => {
            ||| word == "seconds".spec_bytes()
            ||| word == "second".spec_bytes()
            ||| word == "secs".spec_bytes()
            ||| word == "sec".spec_bytes()
            ||| word == "s".spec_bytes()
        },
        DurationUnit::Millisecond => {
            ||| word == "milliseconds".spec_bytes()
            ||| word == "millisecond".spec_bytes()
            ||| word == "msecs".spec_bytes()
            ||| word == "msec".spec_bytes()
            ||| word == "ms".spec_bytes()
        },
        DurationUnit::Microsecond => {
            ||| word == "microseconds".spec_bytes()
            ||| word == "microsecond".spec_bytes()
            ||| word == "\u{b5}secs".spec_bytes()
            ||| word == "\u{b5}sec".spec_bytes()
            ||| word == "\u{b5}s".spec_bytes()
            ||| word == "\u{b5}".spec_bytes()
            ||| word == "usecs".spec_bytes()
            ||| word == "usec".spec_bytes()
            ||| word == "us".spec_bytes()
        },
        DurationUnit::Nanosecond => {
            ||| word == "nanoseconds".spec_bytes()
            ||| word == "nanosecond".spec_bytes()
            ||| word == "nsecs".spec_bytes()
            ||| word == "nsec".spec_bytes()
            ||| word == "ns".spec_bytes()
        },
    }
}

/// The unit that `word` spells, if it spells one.
///
/// The units are tried from the longest to the shortest, and the whole word
/// has to be a spelling: `mo` is a month, not a minute with something behind
/// it.
pub open spec fn unit_of_word(word: Seq<u8>) -> Option<DurationUnit> {
    if is_spelling(DurationUnit::Year, word) {
        Some(DurationUnit::Year)
    } else if is_spelling(DurationUnit::Month, word) {
        Some(DurationUnit::Month)
    } else if is_spelling(DurationUnit::Week, word) {
        Some(DurationUnit::Week)
    } else if is_spelling(DurationUnit::Day, word) {
        Some(DurationUnit::Day)
    } else if is_spelling(DurationUnit::Hour, word) {
        Some(DurationUnit::Hour)
    } else if is_spelling(DurationUnit::Minute, word) {
        Some(DurationUnit::Minute)
    } else if is_spelling(DurationUnit::Second, word) {
        Some(DurationUnit::Second)
    } else if is_spelling(DurationUnit::Millisecond, word) {
        Some(DurationUnit::Millisecond)
    } else if is_spelling(DurationUnit::Microsecond, word) {
        Some(DurationUnit::Microsecond)
    } else if is_spelling(DurationUnit::Nanosecond, word) {
        Some(DurationUnit::Nanosecond)
    } else {
        None
    }
}

/// How many bytes the character at `i` takes, where it is one that the
/// spellings of the units hold: one for a letter, two for the micro sign,
/// which is `0xc2` with `0xb5` behind it. It is zero for any other character,
/// and so for either byte of the micro sign without the other.
pub open spec fn word_step(s: Seq<u8>, i: int) -> int {
    if 0 <= i < s.len() && ByteClass::Word.has(s[i]) && s[i] != 0xc2 && s[i] != 0xb5 {
        1
    } else if 0 <= i && i + 1 < s.len() && s[i] == 0xc2 && s[i + 1] == 0xb5 {
        2
    } else {
        0
    }
}

/// Where the word that starts at `i` ends: the first position from `i` on, a
/// whole character at a time, at which no character of a spelling stands.
pub open spec fn word_end(s: Seq<u8>, i: int) -> int
    decreases s.len() - i,
{
    if word_step(s, i) > 0 {
        word_end(s, i + word_step(s, i))
    } else {
        i
    }
}

/// A word ends at or after its start and within the text, holds word bytes
/// only, and is followed by no character of a spelling.
pub proof fn lemma_word_end(s: Seq<u8>, i: int)
    requires
        0 <= i <= s.len(),
    ensures
        i <= word_end(s, i) <= s.len(),
        forall|k: int| i <= k < word_end(s, i) ==> ByteClass::Word.has(#[trigger] s[k]),
        word_step(s, word_end(s, i)) == 0,
        word_end(s, i) > i <==> word_step(s, i) > 0,
    decreases s.len() - i,
{
    if word_step(s, i) > 0 {
        lemma_word_end(s, i + word_step(s, i));
    }
}

/// Finds the end of the word that starts at `start`.
pub fn timespan_word(input: &[u8], start: usize) -> (end: usize)
    ensures
        end == word_end(input@, start as int),
{
    let mut i: usize = start;
    while i < input.len()
        invariant
            start <= i,
            word_end(input@, i as int) == word_end(input@, start as int),
        decreases input.len() - i,
    {
        let b = input[i];
        if b == 0xc2 {
            if i + 1 < input.len() && input[i + 1] == 0xb5 {
                i += 2;
            } else {
                return i;
            }
        } else if b != 0xb5 && ByteClass::Word.contains(b) {
            i += 1;
        } else {
            return i;
        }
    }
    i
}

/// Tells whether `word` is `t` from its first byte to its last, so that the
/// longest spelling that fits is the only one that matches.
pub fn all_consuming_tag(word: &[u8], t: &str) -> (r: bool)
    ensures
        r == (word@ == t.spec_bytes()),
{
    let tag = t.as_bytes();
    if word.len() != tag.len() {
        return false;
    }
    let mut i: usize = 0;
    while i < word.len()
        invariant
            i <= word.len(),
            word.len() == tag.len(),
            tag@ == t.spec_bytes(),
            forall|k: int| 0 <= k < i ==> word@[k] == tag@[k],
        decreases word.len() - i,
    {
        if word[i] != tag[i] {
            return false;
        }
        i += 1;
    }
    assert(word@ =~= tag@);
    true
}

/// Matches the spellings of `DurationUnit::Year`.
pub fn timespan_period_years(word: &[u8]) -> (r: Option<DurationUnit>)
    ensures
        r == if is_spelling(DurationUnit::Year, word@) {
            Some(DurationUnit::Year)
        } else {
            None
        },
{
    if all_consuming_tag(word, "years")
        || all_consuming_tag(word, "year")
        || all_consuming_tag(word, "yrs")
        || all_consuming_tag(word, "yr")
        || all_consuming_tag(word, "y") {
        Some(DurationUnit::Year)
    } else {
        None
    }
}

/// Matches the spellings of `DurationUnit::Month`.
pub fn timespan_period_months(word: &[u8]) -> (r: Option<DurationUnit>)
    ensures
        r == if is_spelling(DurationUnit::Month, word@) {
            Some(DurationUnit::Month)
        } else {
            None
        },
{
    if all_consuming_tag(word, "months")
        || all_consuming_tag(word, "month")
        || all_consuming_tag(word, "mos")
        || all_consuming_tag(word, "mo")
        || all_consuming_tag(word, "M") {
        Some(DurationUnit::Month)
    } else {
        None
    }
}

/// Matches the spellings of `DurationUnit::Week`.
pub fn timespan_period_weeks(word: &[u8]) -> (r: Option<DurationUnit>)
    ensures
        r == if is_spelling(DurationUnit::Week, word@) {
            Some(DurationUnit::Week)
        } else {
            None
        },
{
    if all_consuming_tag(word, "weeks")
        || all_consuming_tag(word, "week")
        || all_consuming_tag(word, "wks")
        || all_consuming_tag(word, "wk")
        || all_consuming_tag(word, "w") {
        Some(DurationUnit::Week)
    } else {
        None
    }
}

/// Matches the spellings of `DurationUnit::Day`.
pub fn timespan_period_days(word: &[u8]) -> (r: Option<DurationUnit>)
    ensures
        r == if is_spelling(DurationUnit::Day, word@) {
            Some(DurationUnit::Day)
        } else {
            None
        },
{
    if all_consuming_tag(word, "days")
        || all_consuming_tag(word, "day")
        || all_consuming_tag(word, "d") {
        Some(DurationUnit::Day)
    } else {
        None
    }
}

/// Matches the spellings of `DurationUnit::Hour`.
pub fn timespan_period_hours(word: &[u8]) -> (r: Option<DurationUnit>)
    ensures
        r == if is_spelling(DurationUnit::Hour, word@) {
            Some(DurationUnit::Hour)
        } else {
            None
        },
{
    if all_consuming_tag(word, "hours")
        || all_consuming_tag(word, "hour")
        || all_consuming_tag(word, "hrs")
        || all_consuming_tag(word, "hr")
        || all_consuming_tag(word, "h") {
        Some(DurationUnit::Hour)
    } else {
        None
    }
}

/// Matches the spellings of `DurationUnit::Minute`.
pub fn timespan_period_minutes(word: &[u8]) -> (r: Option<DurationUnit>)
    ensures
        r == if is_spelling(DurationUnit::Minute, word@) {
            Some(DurationUnit::Minute)
        } else {
            None
        },
{
    if all_consuming_tag(word, "minutes")
        || all_consuming_tag(word, "minute")
        || all_consuming_tag(word, "mins")
        || all_consuming_tag(word, "min")
        || all_consuming_tag(word, "m") {
        Some(DurationUnit::Minute)
    } else {
        None
    }
}

/// Matches the spellings of `DurationUnit::Second`.
pub fn timespan_period_seconds(word: &[u8]) -> (r: Option<DurationUnit>)
    ensures
        r == if is_spelling(DurationUnit::Second, word@) {
            Some(DurationUnit::Second)
        } else {
            None
        },
{
    if all_consuming_tag(word, "seconds")
        || all_consuming_tag(word, "second")
        || all_consuming_tag(word, "secs")
        || all_consuming_tag(word, "sec")
        || all_consuming_tag(word, "s") {
        Some(DurationUnit::Second)
    } else {
        None
    }
}

/// Matches the spellings of `DurationUnit::Millisecond`.
pub fn timespan_period_milliseconds(word: &[u8]) -> (r: Option<DurationUnit>)
    ensures
        r == if is_spelling(DurationUnit::Millisecond, word@) {
            Some(DurationUnit::Millisecond)
        } else {
            None
        },
{
    if all_consuming_tag(word, "milliseconds")
        || all_consuming_tag(word, "millisecond")
        || all_consuming_tag(word, "msecs")
        || all_consuming_tag(word, "msec")
        || all_consuming_tag(word, "ms") {
        Some(DurationUnit::Millisecond)
    } else {
        None
    }
}

/// Matches the spellings of `DurationUnit::Microsecond`.
pub fn timespan_period_microseconds(word: &[u8]) -> (r: Option<DurationUnit>)
    ensures
        r == if is_spelling(DurationUnit::Microsecond, word@) {
            Some(DurationUnit::Microsecond)
        } else {
            None
        },
{
    if all_consuming_tag(word, "microseconds")
        || all_consuming_tag(word, "microsecond")
        || all_consuming_tag(word, "\u{b5}secs")
        || all_consuming_tag(word, "\u{b5}sec")
        || all_consuming_tag(word, "\u{b5}s")
        || all_consuming_tag(word, "\u{b5}")
        || all_consuming_tag(word, "usecs")
        || all_consuming_tag(word, "usec")
        || all_consuming_tag(word, "us") {
        Some(DurationUnit::Microsecond)
    } else {
        None
    }
}

/// Matches the spellings of `DurationUnit::Nanosecond`.
pub fn timespan_period_nanoseconds(word: &[u8]) -> (r: Option<DurationUnit>)
    ensures
        r == if is_spelling(DurationUnit::Nanosecond, word@) {
            Some(DurationUnit::Nanosecond)
        } else {
            None
        },
{
    if all_consuming_tag(word, "nanoseconds")
        || all_consuming_tag(word, "nanosecond")
        || all_consuming_tag(word, "nsecs")
        || all_consuming_tag(word, "nsec")
        || all_consuming_tag(word, "ns") {
        Some(DurationUnit::Nanosecond)
    } else {
        None
    }
}

/// The unit whose spelling stands at `i`, with the position behind it.
///
/// The word at `i` is the whole run of letters and micro signs from there
/// on, and it has to spell a unit at full length.
pub open spec fn unit_at(s: Seq<u8>, i: int) -> Result<(int, DurationUnit), ParseError> {
    let end = word_end(s, i);
    if 0 <= i <= s.len() {
        match unit_of_word(s.subrange(i, end)) {
            Some(unit) => Ok((end, unit)),
            None => Err(ParseError { position: i as usize, kind: ParseErrorKind::Unit }),
        }
    } else {
        Err(ParseError { position: i as usize, kind: ParseErrorKind::Unit })
    }
}

/// Matches a timespan period, consisting of an entire word. If the word is
/// not the spelling of a unit from end to end, this fails.
pub fn timespan_period(input: &[u8], start: usize) -> (r: Result<(usize, DurationUnit), ParseError>)
    ensures
        match r {
            Ok((end, unit)) => unit_at(input@, start as int) == Ok::<_, ParseError>(
                (end as int, unit),
            ),
            Err(e) => unit_at(input@, start as int) == Err::<(int, DurationUnit), _>(e),
        },
{
    let failure = ParseError { position: start, kind: ParseErrorKind::Unit };
    if start > input.len() {
        return Err(failure);
    }
    let end = timespan_word(input, start);
    proof {
        lemma_word_end(input@, start as int);
    }
    let word = slice_subrange(input, start, end);
    let found = match timespan_period_years(word) {
        Some(unit) => Some(unit),
        None => match timespan_period_months(word) {
            Some(unit) => Some(unit),
            None => match timespan_period_weeks(word) {
                Some(unit) => Some(unit),
                None => match timespan_period_days(word) {
                    Some(unit) => Some(unit),
                    None => match timespan_period_hours(word) {
                        Some(unit) => Some(unit),
                        None => match timespan_period_minutes(word) {
                            Some(unit) => Some(unit),
                            None => match timespan_period_seconds(word) {
                                Some(unit) => Some(unit),
                                None => match timespan_period_milliseconds(word) {
                                    Some(unit) => Some(unit),
                                    None => match timespan_period_microseconds(word) {
                                        Some(unit) => Some(unit),
                                        None => timespan_period_nanoseconds(word),
                                    },
                                },
                            },
                        },
                    },
                },
            },
        },
    };
    match found {
        Some(unit) => Ok((end, unit)),
        None => Err(failure),
    }
}

/// The fragment that starts at `i`, with the position behind it.
///
/// A fragment is whitespace, a number, whitespace and the spelling of a
/// unit; the whitespace is spaces and tabs, and may be missing.
pub open spec fn fragment_at(s: Seq<u8>, i: int) -> Result<(int, Duration), ParseError> {
    let a = run_end(s, i, ByteClass::Space);
    match literal_end(s, a) {
        None => Err(ParseError { position: a as usize, kind: ParseErrorKind::Number }),
        Some(b) => match unit_at(s, run_end(s, b, ByteClass::Space)) {
            Err(e) => Err(e),
            Ok((end, unit)) => match Duration::of_unit(unit, literal_value(s, a)) {
                Some(d) => Ok((end, d)),
                None => Err(ParseError { position: a as usize, kind: ParseErrorKind::TooLarge }),
            },
        },
    }
}

/// Reads one fragment of a time span.
pub fn duration_fragment(input: &[u8], start: usize) -> (r: Result<(usize, Duration), ParseError>)
    ensures
        match r {
            Ok((end, d)) => fragment_at(input@, start as int) == Ok::<_, ParseError>(
                (end as int, d),
            ),
            Err(e) => fragment_at(input@, start as int) == Err::<(int, Duration), _>(e),
        },
{
    let a = scan(input, start, ByteClass::Space);
    let (b, count) = match float(input, a) {
        Some(found) => found,
        None => {
            return Err(ParseError { position: a, kind: ParseErrorKind::Number });
        },
    };
    let c = scan(input, b, ByteClass::Space);
    let (end, unit) = match timespan_period(input, c) {
        Ok(found) => found,
        Err(e) => {
            return Err(e);
        },
    };
    match Duration::from_unit(unit, count) {
        Some(d) => Ok((end, d)),
        None => Err(ParseError { position: a, kind: ParseErrorKind::TooLarge }),
    }
}

/// The number that the whole text is, where it is nothing but a number with
/// whitespace around it.
pub open spec fn bare_number(s: Seq<u8>) -> Option<Decimal> {
    let a = run_end(s, 0, ByteClass::Space);
    match literal_end(s, a) {
        Some(b) => if run_end(s, b, ByteClass::Space) >= s.len() {
            Some(literal_value(s, a))
        } else {
            None
        },
        None => None,
    }
}

/// If nothing else is input, just interpret it as seconds.
pub fn raw_seconds(input: &[u8]) -> (r: Option<Duration>)
    ensures
        r == match bare_number(input@) {
            Some(seconds) => Some(Duration::Second(seconds)),
            None => None,
        },
{
    let a = scan(input, 0, ByteClass::Space);
    match float(input, a) {
        Some((b, seconds)) => {
            if scan(input, b, ByteClass::Space) >= input.len() {
                Some(Duration::Second(seconds))
            } else {
                None
            }
        },
        None => None,
    }
}

/// The fragments that the text from `i` on is made of.
pub open spec fn fragments_from(s: Seq<u8>, i: int) -> Result<Seq<Duration>, ParseError>
    decreases s.len() - i,
{
    match fragment_at(s, i) {
        Err(e) => Err(e),
        Ok((end, d)) => if i < end < s.len() {
            match fragments_from(s, end) {
                Ok(rest) => Ok(seq![d] + rest),
                Err(e) => Err(e),
            }
        } else {
            Ok(seq![d])
        },
    }
}

/// `rest` with `first` before it, or the failure that `rest` is.
pub open spec fn prepend(first: Seq<Duration>, rest: Result<Seq<Duration>, ParseError>) -> Result<
    Seq<Duration>,
    ParseError,
> {
    match rest {
        Ok(r) => Ok(first + r),
        Err(e) => Err(e),
    }
}

/// A literal has at least one byte, and ends within the text.
pub proof fn lemma_literal_end(s: Seq<u8>, i: int)
    requires
        0 <= i,
    ensures
        literal_end(s, i) matches Some(end) ==> i < end <= s.len(),
{
    let a = after_sign(s, i);
    if a <= s.len() {
        lemma_run_end(s, a, ByteClass::Digit);
        let b = run_end(s, a, ByteClass::Digit);
        if has_fraction(s, b) {
            lemma_run_end(s, b + 1, ByteClass::Digit);
        }
    }
}

/// A fragment has at least one byte, and ends within the text.
pub proof fn lemma_fragment_at(s: Seq<u8>, i: int)
    requires
        0 <= i <= s.len(),
    ensures
        fragment_at(s, i) matches Ok((end, _)) ==> i < end <= s.len(),
{
    lemma_run_end(s, i, ByteClass::Space);
    let a = run_end(s, i, ByteClass::Space);
    lemma_literal_end(s, a);
    if let Some(b) = literal_end(s, a) {
        lemma_run_end(s, b, ByteClass::Space);
        let c = run_end(s, b, ByteClass::Space);
        lemma_word_end(s, c);
    }
}

/// Reads fragments until the text is used up.
pub fn full_duration(input: &[u8]) -> (r: Result<Vec<Duration>, ParseError>)
    ensures
        match r {
            Ok(v) => fragments_from(input@, 0) == Ok::<_, ParseError>(v@),
            Err(e) => fragments_from(input@, 0) == Err::<Seq<Duration>, _>(e),
        },
{
    let mut found: Vec<Duration> = Vec::new();
    let mut pos: usize = 0;
    loop
        invariant
            pos <= input.len(),
            fragments_from(input@, 0) == prepend(found@, fragments_from(input@, pos as int)),
        decreases input.len() - pos,
    {
        proof {
            lemma_fragment_at(input@, pos as int);
        }
        match duration_fragment(input, pos) {
            Err(e) => {
                return Err(e);
            },
            Ok((end, d)) => {
                let ghost before = found@;
                found.push(d);
                if end >= input.len() {
                    assert(before + seq![d] =~= found@);
                    return Ok(found);
                }
                assert(forall|rest: Seq<Duration>| before + (seq![d] + rest) =~= found@ + rest);
                pos = end;
            },
        }
    }
}

/// The fragments that a text is made of.
///
/// A text that is nothing but a number counts seconds. Any other text has to
/// be fragments from its first byte to its last.
pub open spec fn parsed(s: Seq<u8>) -> Result<Seq<Duration>, ParseError> {
    match bare_number(s) {
        Some(seconds) => Ok(seq![Duration::Second(seconds)]),
        None => fragments_from(s, 0),
    }
}

/// Parse a duration.
pub fn duration(input: &[u8]) -> (r: Result<Container, ParseError>)
    ensures
        match r {
            Ok(c) => parsed(input@) == Ok::<_, ParseError>(c@),
            Err(e) => parsed(input@) == Err::<Seq<Duration>, _>(e),
        },
{
    match raw_seconds(input) {
        Some(v) => {
            let mut one: Vec<Duration> = Vec::new();
            one.push(v);
            Ok(Container::new(one))
        },
        None => match full_duration(input) {
            Ok(v) => Ok(Container::new(v)),
            Err(e) => Err(e),
        },
    }
}

/// What a text amounts to in `target`, in nanoseconds, or the error that
/// parsing it ends in: that of the grammar where the text is no time span,
/// and `Error::DurationOverflow` where `target` cannot hold the time span.
pub open spec fn parsed_nanos(s: Seq<u8>, target: Target) -> Result<int, Error> {
    match parsed(s) {
        Err(e) => Err(Error::ParserError(e)),
        Ok(durations) => match total_nanos(durations, target) {
            Some(nanos) => Ok(nanos),
            None => Err(Error::DurationOverflow),
        },
    }
}

} // verus!
