//! What the spellings of the units are made of.

use crate::parser::{is_spelling, unit_of_word, word_end, word_step, ByteClass};
use crate::unit::DurationUnit;
use vstd::prelude::*;
use vstd::string::{is_ascii_spec_bytes, StringSliceAdditionalSpecFns};
use vstd::utf8::{
    encode_scalar, encode_utf8, is_ascii_chars, is_ascii_chars_encode_utf8, last_continuation_byte,
    leading_byte_width_2,
};

verus! {

/// How a word begins that spells `unit`. No word begins as the words of two
/// units do.
pub open spec fn begins_as(unit: DurationUnit, word: Seq<u8>) -> bool {
    let one = word.len() >= 1;
    let two = word.len() >= 2;
    let three = word.len() >= 3;
    match unit {
        DurationUnit::Year => one && word[0] == 'y' as u8,
        DurationUnit::Month => {
            ||| one && word[0] == 'M' as u8
            ||| two && word[0] == 'm' as u8 && word[1] == 'o' as u8
        },
        DurationUnit::Week => one && word[0] == 'w' as u8,
        DurationUnit::Day => one && word[0] == 'd' as u8,
        DurationUnit::Hour => one && word[0] == 'h' as u8,
        DurationUnit::Minute => {
            ||| word.len() == 1 && word[0] == 'm' as u8
            ||| three && word[0] == 'm' as u8 && word[1] == 'i' as u8 && word[2] == 'n' as u8
        },
        DurationUnit::Second => one && word[0] == 's' as u8,
        DurationUnit::Millisecond => {
            ||| two && word[0] == 'm' as u8 && word[1] == 's' as u8
            ||| three && word[0] == 'm' as u8 && word[1] == 'i' as u8 && word[2] == 'l' as u8
        },
        DurationUnit::Microsecond => {
            ||| one && word[0] == 0xc2
            ||| one && word[0] == 'u' as u8
            ||| three && word[0] == 'm' as u8 && word[1] == 'i' as u8 && word[2] == 'c' as u8
        },
        DurationUnit::Nanosecond => one && word[0] == 'n' as u8,
    }
}

/// Whether `word` is made of letters of the spellings and of whole micro
/// signs: every byte is a word byte, `0xc2` has `0xb5` behind it, and `0xb5`
/// stands behind `0xc2`.
pub open spec fn is_word_text(word: Seq<u8>) -> bool {
    forall|k: int|
        0 <= k < word.len() ==> {
            &&& ByteClass::Word.has(#[trigger] word[k])
            &&& (word[k] == 0xc2 ==> k + 1 < word.len() && word[k + 1] == 0xb5)
            &&& (word[k] == 0xb5 ==> k >= 1 && word[k - 1] == 0xc2)
        }
}

/// What is made of letters and whole micro signs is one word to its end,
/// from the start of any of its characters.
pub proof fn lemma_word_text_is_one_word(word: Seq<u8>, i: int)
    requires
        is_word_text(word),
        0 <= i <= word.len(),
        i == 0 || word[i - 1] != 0xc2,
    ensures
        word_end(word, i) == word.len(),
    decreases word.len() - i,
{
    if i < word.len() {
        assert(ByteClass::Word.has(word[i]));
        let n = word_step(word, i);
        assert(n > 0);
        assert(word[i + n - 1] != 0xc2);
        lemma_word_text_is_one_word(word, i + n);
    }
}

/// The bytes of a text that is the micro sign with ASCII characters behind
/// it: `0xc2`, `0xb5`, and one byte for each of the characters.
proof fn lemma_micro_sign_bytes(chars: Seq<char>)
    requires
        chars.len() >= 1,
        chars[0] == '\u{b5}',
        is_ascii_chars(chars.drop_first()),
    ensures
        encode_utf8(chars).len() == chars.len() + 1,
        encode_utf8(chars)[0] == 0xc2,
        encode_utf8(chars)[1] == 0xb5,
        forall|k: int|
            2 <= k <= chars.len() ==> #[trigger] encode_utf8(chars)[k] == chars[k - 1] as u8,
{
    let rest = chars.drop_first();
    is_ascii_chars_encode_utf8(rest);
    assert(('\u{b5}' as u32) == 0xb5u32);
    assert(encode_scalar(0xb5u32) =~= seq![0xc2u8, 0xb5u8]) by {
        assert(leading_byte_width_2(0xb5u32) == 0xc2u8) by (bit_vector);
        assert(last_continuation_byte(0xb5u32) == 0xb5u8) by (bit_vector);
    }
    assert(encode_utf8(chars) == encode_scalar(chars[0] as u32) + encode_utf8(rest));
    assert forall|k: int| 2 <= k <= chars.len() implies #[trigger] encode_utf8(chars)[k]
        == chars[k - 1] as u8 by {
        assert(encode_utf8(chars)[k] == encode_utf8(rest)[k - 2]);
        assert(rest[k - 2] == chars[k - 1]);
    }
}

proof fn lemma_years(word: Seq<u8>)
    requires
        is_spelling(DurationUnit::Year, word),
    ensures
        word.len() >= 1,
        is_word_text(word),
        begins_as(DurationUnit::Year, word),
{
    if word == "years".spec_bytes() {
        reveal_strlit("years");
        is_ascii_spec_bytes("years");
    }
    if word == "year".spec_bytes() {
        reveal_strlit("year");
        is_ascii_spec_bytes("year");
    }
    if word == "yrs".spec_bytes() {
        reveal_strlit("yrs");
        is_ascii_spec_bytes("yrs");
    }
    if word == "yr".spec_bytes() {
        reveal_strlit("yr");
        is_ascii_spec_bytes("yr");
    }
    if word == "y".spec_bytes() {
        reveal_strlit("y");
        is_ascii_spec_bytes("y");
    }
}

proof fn lemma_months(word: Seq<u8>)
    requires
        is_spelling(DurationUnit::Month, word),
    ensures
        word.len() >= 1,
        is_word_text(word),
        begins_as(DurationUnit::Month, word),
{
    if word == "months".spec_bytes() {
        reveal_strlit("months");
        is_ascii_spec_bytes("months");
    }
    if word == "month".spec_bytes() {
        reveal_strlit("month");
        is_ascii_spec_bytes("month");
    }
    if word == "mos".spec_bytes() {
        reveal_strlit("mos");
        is_ascii_spec_bytes("mos");
    }
    if word == "mo".spec_bytes() {
        reveal_strlit("mo");
        is_ascii_spec_bytes("mo");
    }
    if word == "M".spec_bytes() {
        reveal_strlit("M");
        is_ascii_spec_bytes("M");
    }
}

proof fn lemma_weeks(word: Seq<u8>)
    requires
        is_spelling(DurationUnit::Week, word),
    ensures
        word.len() >= 1,
        is_word_text(word),
        begins_as(DurationUnit::Week, word),
{
    if word == "weeks".spec_bytes() {
        reveal_strlit("weeks");
        is_ascii_spec_bytes("weeks");
    }
    if word == "week".spec_bytes() {
        reveal_strlit("week");
        is_ascii_spec_bytes("week");
    }
    if word == "wks".spec_bytes() {
        reveal_strlit("wks");
        is_ascii_spec_bytes("wks");
    }
    if word == "wk".spec_bytes() {
        reveal_strlit("wk");
        is_ascii_spec_bytes("wk");
    }
    if word == "w".spec_bytes() {
        reveal_strlit("w");
        is_ascii_spec_bytes("w");
    }
}

proof fn lemma_days(word: Seq<u8>)
    requires
        is_spelling(DurationUnit::Day, word),
    ensures
        word.len() >= 1,
        is_word_text(word),
        begins_as(DurationUnit::Day, word),
{
    if word == "days".spec_bytes() {
        reveal_strlit("days");
        is_ascii_spec_bytes("days");
    }
    if word == "day".spec_bytes() {
        reveal_strlit("day");
        is_ascii_spec_bytes("day");
    }
    if word == "d".spec_bytes() {
        reveal_strlit("d");
        is_ascii_spec_bytes("d");
    }
}

proof fn lemma_hours(word: Seq<u8>)
    requires
        is_spelling(DurationUnit::Hour, word),
    ensures
        word.len() >= 1,
        is_word_text(word),
        begins_as(DurationUnit::Hour, word),
{
    if word == "hours".spec_bytes() {
        reveal_strlit("hours");
        is_ascii_spec_bytes("hours");
    }
    if word == "hour".spec_bytes() {
        reveal_strlit("hour");
        is_ascii_spec_bytes("hour");
    }
    if word == "hrs".spec_bytes() {
        reveal_strlit("hrs");
        is_ascii_spec_bytes("hrs");
    }
    if word == "hr".spec_bytes() {
        reveal_strlit("hr");
        is_ascii_spec_bytes("hr");
    }
    if word == "h".spec_bytes() {
        reveal_strlit("h");
        is_ascii_spec_bytes("h");
    }
}

proof fn lemma_minutes(word: Seq<u8>)
    requires
        is_spelling(DurationUnit::Minute, word),
    ensures
        word.len() >= 1,
        is_word_text(word),
        begins_as(DurationUnit::Minute, word),
{
    if word == "minutes".spec_bytes() {
        reveal_strlit("minutes");
        is_ascii_spec_bytes("minutes");
    }
    if word == "minute".spec_bytes() {
        reveal_strlit("minute");
        is_ascii_spec_bytes("minute");
    }
    if word == "mins".spec_bytes() {
        reveal_strlit("mins");
        is_ascii_spec_bytes("mins");
    }
    if word == "min".spec_bytes() {
        reveal_strlit("min");
        is_ascii_spec_bytes("min");
    }
    if word == "m".spec_bytes() {
        reveal_strlit("m");
        is_ascii_spec_bytes("m");
    }
}

proof fn lemma_seconds(word: Seq<u8>)
    requires
        is_spelling(DurationUnit::Second, word),
    ensures
        word.len() >= 1,
        is_word_text(word),
        begins_as(DurationUnit::Second, word),
{
    if word == "seconds".spec_bytes() {
        reveal_strlit("seconds");
        is_ascii_spec_bytes("seconds");
    }
    if word == "second".spec_bytes() {
        reveal_strlit("second");
        is_ascii_spec_bytes("second");
    }
    if word == "secs".spec_bytes() {
        reveal_strlit("secs");
        is_ascii_spec_bytes("secs");
    }
    if word == "sec".spec_bytes() {
        reveal_strlit("sec");
        is_ascii_spec_bytes("sec");
    }
    if word == "s".spec_bytes() {
        reveal_strlit("s");
        is_ascii_spec_bytes("s");
    }
}

proof fn lemma_milliseconds(word: Seq<u8>)
    requires
        is_spelling(DurationUnit::Millisecond, word),
    ensures
        word.len() >= 1,
        is_word_text(word),
        begins_as(DurationUnit::Millisecond, word),
{
    if word == "milliseconds".spec_bytes() {
        reveal_strlit("milliseconds");
        is_ascii_spec_bytes("milliseconds");
    }
    if word == "millisecond".spec_bytes() {
        reveal_strlit("millisecond");
        is_ascii_spec_bytes("millisecond");
    }
    if word == "msecs".spec_bytes() {
        reveal_strlit("msecs");
        is_ascii_spec_bytes("msecs");
    }
    if word == "msec".spec_bytes() {
        reveal_strlit("msec");
        is_ascii_spec_bytes("msec");
    }
    if word == "ms".spec_bytes() {
        reveal_strlit("ms");
        is_ascii_spec_bytes("ms");
    }
}

proof fn lemma_microseconds(word: Seq<u8>)
    requires
        is_spelling(DurationUnit::Microsecond, word),
    ensures
        word.len() >= 1,
        is_word_text(word),
        begins_as(DurationUnit::Microsecond, word),
{
    if word == "microseconds".spec_bytes() {
        reveal_strlit("microseconds");
        is_ascii_spec_bytes("microseconds");
    }
    if word == "microsecond".spec_bytes() {
        reveal_strlit("microsecond");
        is_ascii_spec_bytes("microsecond");
    }
    if word == "\u{b5}secs".spec_bytes() {
        reveal_strlit("\u{b5}secs");
        assert(is_ascii_chars("\u{b5}secs"@.drop_first()));
        lemma_micro_sign_bytes("\u{b5}secs"@);
    }
    if word == "\u{b5}sec".spec_bytes() {
        reveal_strlit("\u{b5}sec");
        assert(is_ascii_chars("\u{b5}sec"@.drop_first()));
        lemma_micro_sign_bytes("\u{b5}sec"@);
    }
    if word == "\u{b5}s".spec_bytes() {
        reveal_strlit("\u{b5}s");
        assert(is_ascii_chars("\u{b5}s"@.drop_first()));
        lemma_micro_sign_bytes("\u{b5}s"@);
    }
    if word == "\u{b5}".spec_bytes() {
        reveal_strlit("\u{b5}");
        assert(is_ascii_chars("\u{b5}"@.drop_first()));
        lemma_micro_sign_bytes("\u{b5}"@);
    }
    if word == "usecs".spec_bytes() {
        reveal_strlit("usecs");
        is_ascii_spec_bytes("usecs");
    }
    if word == "usec".spec_bytes() {
        reveal_strlit("usec");
        is_ascii_spec_bytes("usec");
    }
    if word == "us".spec_bytes() {
        reveal_strlit("us");
        is_ascii_spec_bytes("us");
    }
}

proof fn lemma_nanoseconds(word: Seq<u8>)
    requires
        is_spelling(DurationUnit::Nanosecond, word),
    ensures
        word.len() >= 1,
        is_word_text(word),
        begins_as(DurationUnit::Nanosecond, word),
{
    if word == "nanoseconds".spec_bytes() {
        reveal_strlit("nanoseconds");
        is_ascii_spec_bytes("nanoseconds");
    }
    if word == "nanosecond".spec_bytes() {
        reveal_strlit("nanosecond");
        is_ascii_spec_bytes("nanosecond");
    }
    if word == "nsecs".spec_bytes() {
        reveal_strlit("nsecs");
        is_ascii_spec_bytes("nsecs");
    }
    if word == "nsec".spec_bytes() {
        reveal_strlit("nsec");
        is_ascii_spec_bytes("nsec");
    }
    if word == "ns".spec_bytes() {
        reveal_strlit("ns");
        is_ascii_spec_bytes("ns");
    }
}

/// A spelling has at least one byte, is made of word bytes only, is one
/// word from its first byte to its last, and begins as the words of its unit
/// do.
pub proof fn lemma_spelling_bytes(unit: DurationUnit, word: Seq<u8>)
    requires
        is_spelling(unit, word),
    ensures
        word.len() >= 1,
        forall|k: int| 0 <= k < word.len() ==> ByteClass::Word.has(#[trigger] word[k]),
        is_word_text(word),
        word_end(word, 0) == word.len(),
        begins_as(unit, word),
{
    match unit {
        DurationUnit::Year => lemma_years(word),
        DurationUnit::Month => lemma_months(word),
        DurationUnit::Week => lemma_weeks(word),
        DurationUnit::Day => lemma_days(word),
        DurationUnit::Hour => lemma_hours(word),
        DurationUnit::Minute => lemma_minutes(word),
        DurationUnit::Second => lemma_seconds(word),
        DurationUnit::Millisecond => lemma_milliseconds(word),
        DurationUnit::Microsecond => lemma_microseconds(word),
        DurationUnit::Nanosecond => lemma_nanoseconds(word),
    }
    lemma_word_text_is_one_word(word, 0);
}

/// No word spells two units.
pub proof fn lemma_spelling_unique(a: DurationUnit, b: DurationUnit, word: Seq<u8>)
    requires
        is_spelling(a, word),
        is_spelling(b, word),
    ensures
        a == b,
{
    lemma_spelling_bytes(a, word);
    lemma_spelling_bytes(b, word);
}

/// A word that spells a unit is found to spell it, and a word that is found
/// to spell a unit does spell it.
pub proof fn lemma_unit_of_word(word: Seq<u8>)
    ensures
        forall|unit: DurationUnit| #[trigger]
            is_spelling(unit, word) <==> unit_of_word(word) == Some(unit),
{
    assert forall|unit: DurationUnit| #[trigger]
        is_spelling(unit, word) <==> unit_of_word(word) == Some(unit) by {
        if is_spelling(unit, word) {
            if let Some(found) = unit_of_word(word) {
                lemma_spelling_unique(unit, found, word);
            }
        }
    }
}

} // verus!
