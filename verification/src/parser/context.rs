//! How the grammar reads a text that stands within a longer one.
//!
//! Every function of the grammar reads forward from a position and stops at
//! the first byte that does not belong to what it reads. So it reads a text
//! that is part of a longer one as it reads the text alone, as long as the
//! byte behind the part does not continue it.

use crate::duration::Duration;
use crate::error::ParseError;
use crate::parser::words::{lemma_spelling_bytes, lemma_unit_of_word};
use crate::parser::{
    after_sign, digits_value, fraction_value, fragment_at, fragments_from, has_fraction,
    is_spelling, lemma_fragment_at, lemma_literal_end, lemma_run_end, lemma_word_end, literal_end,
    literal_value, run_end, unit_at, unit_of_word, word_end, word_step, ByteClass, FIRST_PLACE,
};
use vstd::prelude::*;

verus! {

/// Whether `part` stands in `text` from position `at` on.
pub open spec fn occurs_at(text: Seq<u8>, at: int, part: Seq<u8>) -> bool {
    &&& 0 <= at
    &&& at + part.len() <= text.len()
    &&& forall|k: int| 0 <= k < part.len() ==> text[at + k] == #[trigger] part[k]
}

/// Whether `text` ends behind the part of length `len` at `at`, or goes on
/// with a byte that is not of `class`.
pub open spec fn stops(text: Seq<u8>, at: int, len: nat, class: ByteClass) -> bool {
    at + len >= text.len() || !class.has(text[at + len])
}

/// A text stands at the front of what it is the first part of, and behind
/// the first part of what it is the second part of.
pub proof fn lemma_occurs_in_concat(first: Seq<u8>, second: Seq<u8>)
    ensures
        occurs_at(first + second, 0, first),
        occurs_at(first + second, first.len() as int, second),
{
    assert forall|k: int| 0 <= k < second.len() implies (first + second)[first.len() + k]
        == #[trigger] second[k] by {}
}

/// A run within a part is the same run in the whole, unless it reaches the
/// end of the part and the whole goes on with a byte of its class.
pub proof fn lemma_run_within(text: Seq<u8>, at: int, part: Seq<u8>, i: int, class: ByteClass)
    requires
        occurs_at(text, at, part),
        0 <= i <= part.len(),
        run_end(part, i, class) < part.len() || stops(text, at, part.len(), class),
    ensures
        run_end(text, at + i, class) == at + run_end(part, i, class),
    decreases part.len() - i,
{
    if i < part.len() {
        assert(text[at + i] == part[i]);
        if class.has(part[i]) {
            lemma_run_within(text, at, part, i + 1, class);
        }
    }
}

/// Digits within a part spell the same number in the whole.
pub proof fn lemma_digits_within(text: Seq<u8>, at: int, part: Seq<u8>, from: int, to: int)
    requires
        occurs_at(text, at, part),
        0 <= from,
        to <= part.len(),
    ensures
        digits_value(text, at + from, at + to) == digits_value(part, from, to),
    decreases to - from,
{
    if to > from {
        lemma_digits_within(text, at, part, from, to - 1);
        assert(text[at + (to - 1)] == part[to - 1]);
    }
}

/// Digits behind the point within a part are worth the same in the whole.
pub proof fn lemma_fraction_within(
    text: Seq<u8>,
    at: int,
    part: Seq<u8>,
    from: int,
    to: int,
    place: int,
)
    requires
        occurs_at(text, at, part),
        0 <= from,
        to <= part.len(),
    ensures
        fraction_value(text, at + from, at + to, place) == fraction_value(part, from, to, place),
    decreases place,
{
    if place > 0 && from < to {
        lemma_fraction_within(text, at, part, from + 1, to, place / 10);
        assert(text[at + from] == part[from]);
    }
}

/// Whether the literal that ends at `end` in `part` ends there in `text`
/// too: something other than a digit or a point follows it, in the part or
/// behind it.
pub open spec fn literal_stops(text: Seq<u8>, at: int, part: Seq<u8>, end: int) -> bool {
    ||| (end < part.len() && part[end] != '.' as u8)
    ||| at + part.len() >= text.len()
    ||| (!ByteClass::Digit.has(text[at + part.len()]) && text[at + part.len()] != '.' as u8)
}

/// A literal within a part is the same literal in the whole, unless the
/// whole continues it.
pub proof fn lemma_literal_within(text: Seq<u8>, at: int, part: Seq<u8>, i: int)
    requires
        occurs_at(text, at, part),
        0 <= i <= part.len(),
        literal_end(part, i) matches Some(end) && literal_stops(text, at, part, end),
    ensures
        literal_end(text, at + i) == Some(at + literal_end(part, i).unwrap()),
        literal_value(text, at + i) == literal_value(part, i),
{
    let digits = ByteClass::Digit;
    let a = after_sign(part, i);
    assert(i < part.len());
    assert(text[at + i] == part[i]);
    assert(after_sign(text, at + i) == at + a);
    lemma_run_end(part, a, digits);
    let b = run_end(part, a, digits);
    let end = literal_end(part, i).unwrap();
    lemma_run_within(text, at, part, a, digits);
    if b < part.len() {
        assert(text[at + b] == part[b]);
        if b + 1 < part.len() {
            assert(text[at + (b + 1)] == part[b + 1]);
        }
    }
    assert(has_fraction(text, at + b) == has_fraction(part, b));
    lemma_digits_within(text, at, part, a, b);
    if has_fraction(part, b) {
        lemma_run_end(part, b + 1, digits);
        lemma_run_within(text, at, part, b + 1, digits);
        lemma_fraction_within(text, at, part, b + 1, end, FIRST_PLACE as int);
    }
}

/// A word within a part is the same word in the whole, where the whole ends
/// behind the part or goes on with something that is no word byte.
pub proof fn lemma_word_within(text: Seq<u8>, at: int, part: Seq<u8>, i: int)
    requires
        occurs_at(text, at, part),
        0 <= i <= part.len(),
        stops(text, at, part.len(), ByteClass::Word),
    ensures
        word_end(text, at + i) == at + word_end(part, i),
    decreases part.len() - i,
{
    let n = word_step(part, i);
    if i < part.len() {
        assert(text[at + i] == part[i]);
        if i + 1 < part.len() {
            assert(text[at + (i + 1)] == part[i + 1]);
        }
    }
    assert(word_step(text, at + i) == n);
    if n > 0 {
        lemma_word_within(text, at, part, i + n);
    }
}

/// The spelling of a unit within a part is read in the whole as in the
/// part, unless the whole goes on with a word byte.
pub proof fn lemma_unit_within(text: Seq<u8>, at: int, part: Seq<u8>, i: int)
    requires
        occurs_at(text, at, part),
        0 <= i <= part.len(),
        unit_at(part, i).is_ok(),
        stops(text, at, part.len(), ByteClass::Word),
    ensures
        unit_at(text, at + i) == Ok::<_, ParseError>(
            (at + unit_at(part, i).unwrap().0, unit_at(part, i).unwrap().1),
        ),
{
    let end = word_end(part, i);
    lemma_word_end(part, i);
    lemma_word_within(text, at, part, i);
    assert(text.subrange(at + i, at + end) =~= part.subrange(i, end));
}

/// A unit is spelled with at least one byte, and all its bytes are word
/// bytes.
pub proof fn lemma_unit_at(s: Seq<u8>, i: int)
    requires
        0 <= i <= s.len(),
    ensures
        unit_at(s, i) matches Ok((end, unit)) ==> i < end <= s.len() && ByteClass::Word.has(s[i])
            && is_spelling(unit, s.subrange(i, end)),
{
    let end = word_end(s, i);
    lemma_word_end(s, i);
    let word = s.subrange(i, end);
    lemma_unit_of_word(word);
    if let Some(unit) = unit_of_word(word) {
        lemma_spelling_bytes(unit, word);
        assert(word[0] == s[i]);
    }
}

/// What a fragment is made of: whitespace up to `a`, a literal up to `b`,
/// whitespace up to `c`, and the spelling of a unit from there to the end of
/// the fragment.
pub proof fn lemma_fragment_parts(s: Seq<u8>, i: int) -> (parts: (int, int, int))
    requires
        0 <= i <= s.len(),
        fragment_at(s, i).is_ok(),
    ensures
        ({
            let (a, b, c) = parts;
            let (end, d) = fragment_at(s, i).unwrap();
            &&& i <= a < b <= c < end <= s.len()
            &&& a == run_end(s, i, ByteClass::Space)
            &&& literal_end(s, a) == Some(b)
            &&& c == run_end(s, b, ByteClass::Space)
            &&& unit_at(s, c).is_ok()
            &&& unit_at(s, c).unwrap().0 == end
            &&& Duration::of_unit(unit_at(s, c).unwrap().1, literal_value(s, a)) == Some(d)
            &&& ByteClass::Word.has(s[c])
            &&& !ByteClass::Word.has(s[a])
        }),
{
    lemma_run_end(s, i, ByteClass::Space);
    let a = run_end(s, i, ByteClass::Space);
    lemma_literal_end(s, a);
    let b = literal_end(s, a).unwrap();
    lemma_run_end(s, b, ByteClass::Space);
    let c = run_end(s, b, ByteClass::Space);
    lemma_unit_at(s, c);
    lemma_literal_start(s, a);
    (a, b, c)
}

/// A literal starts with a sign, a digit or a point.
pub proof fn lemma_literal_start(s: Seq<u8>, i: int)
    requires
        0 <= i,
        literal_end(s, i).is_some(),
    ensures
        i < s.len(),
        s[i] == '+' as u8 || s[i] == '-' as u8 || s[i] == '.' as u8 || ByteClass::Digit.has(s[i]),
{
    let a = after_sign(s, i);
    if a <= s.len() {
        lemma_run_end(s, a, ByteClass::Digit);
    }
}

/// A fragment within a part is the same fragment in the whole, unless the
/// whole goes on with a word byte.
pub proof fn lemma_fragment_within(text: Seq<u8>, at: int, part: Seq<u8>, i: int)
    requires
        occurs_at(text, at, part),
        0 <= i <= part.len(),
        fragment_at(part, i).is_ok(),
        stops(text, at, part.len(), ByteClass::Word),
    ensures
        fragment_at(text, at + i) == Ok::<_, ParseError>(
            (at + fragment_at(part, i).unwrap().0, fragment_at(part, i).unwrap().1),
        ),
{
    let (a, b, c) = lemma_fragment_parts(part, i);
    lemma_run_within(text, at, part, i, ByteClass::Space);
    assert(part[b] != '.' as u8) by {
        lemma_run_end(part, b, ByteClass::Space);
    }
    lemma_literal_within(text, at, part, a);
    lemma_run_within(text, at, part, b, ByteClass::Space);
    lemma_unit_within(text, at, part, c);
}

/// Fragments that make up the end of a text are read there as they are
/// read alone.
pub proof fn lemma_fragments_within(text: Seq<u8>, at: int, part: Seq<u8>, i: int)
    requires
        occurs_at(text, at, part),
        at + part.len() == text.len(),
        0 <= i <= part.len(),
        fragments_from(part, i).is_ok(),
    ensures
        fragments_from(text, at + i) == fragments_from(part, i),
    decreases part.len() - i,
{
    lemma_fragment_at(part, i);
    lemma_fragment_within(text, at, part, i);
    let (end, d) = fragment_at(part, i).unwrap();
    if end < part.len() {
        lemma_fragments_within(text, at, part, end);
    }
}

/// A time span does not begin with a word byte, and is not empty.
pub proof fn lemma_fragments_start(s: Seq<u8>)
    requires
        fragments_from(s, 0).is_ok(),
    ensures
        s.len() > 0,
        !ByteClass::Word.has(s[0]),
{
    let (a, _, _) = lemma_fragment_parts(s, 0);
    lemma_run_end(s, 0, ByteClass::Space);
}

/// Two time spans written one behind the other are read as the fragments of
/// the first followed by those of the second.
pub proof fn lemma_fragments_concat(first: Seq<u8>, second: Seq<u8>, i: int)
    requires
        0 <= i <= first.len(),
        fragments_from(first, i).is_ok(),
        fragments_from(second, 0).is_ok(),
    ensures
        fragments_from(first + second, i) == Ok::<_, ParseError>(
            fragments_from(first, i).unwrap() + fragments_from(second, 0).unwrap(),
        ),
    decreases first.len() - i,
{
    let text = first + second;
    let tail = fragments_from(second, 0).unwrap();
    let (end, d) = fragment_at(first, i).unwrap();
    assert(i < end <= first.len()) by {
        lemma_fragment_at(first, i);
    }
    assert(fragment_at(text, i) == Ok::<_, ParseError>((end, d)) && end
        < text.len()) by {
        lemma_occurs_in_concat(first, second);
        lemma_fragments_start(second);
        assert(text[first.len() as int] == second[0]);
        lemma_fragment_within(text, 0, first, i);
    }
    if end < first.len() {
        lemma_fragments_concat(first, second, end);
        let rest = fragments_from(first, end).unwrap();
        assert(seq![d] + (rest + tail) =~= (seq![d] + rest) + tail);
    } else {
        assert(fragments_from(text, end) == Ok::<_, ParseError>(tail)) by {
            lemma_occurs_in_concat(first, second);
            lemma_fragments_within(text, first.len() as int, second, 0);
        }
    }
}

} // verus!
