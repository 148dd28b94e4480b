//! What holds of every time span: laws of the grammar and of the sums, each
//! proved from the definitions that the contracts of the library use.

use crate::decimal::{lemma_split_product, round_div, Decimal, Rounding, ATTOS_PER_UNIT};
use crate::duration::{lemma_total_nanos_prefix, total_nanos, Duration, Target};
use crate::error::{ParseError, ParseErrorKind};
use crate::parser::context::{
    lemma_fragment_parts, lemma_fragment_within, lemma_fragments_concat, lemma_fragments_within,
    lemma_literal_start, lemma_literal_within, lemma_occurs_in_concat, lemma_run_within,
    lemma_unit_at, lemma_word_within, occurs_at,
};
use crate::parser::words::{lemma_spelling_bytes, lemma_unit_of_word};
use crate::parser::{
    after_sign, bare_number, fragment_at, fragments_from, has_fraction, is_spelling,
    lemma_fragment_at, lemma_literal_end, lemma_run_end, lemma_word_end, literal_end,
    literal_value, parsed, parsed_nanos, run_end, unit_at, unit_of_word, word_end, ByteClass,
};
use crate::unit::{DurationUnit, SECS_PER_DAY, SECS_PER_MONTH, SECS_PER_YEAR};
use vstd::prelude::*;
use vstd::string::StringSliceAdditionalSpecFns;

verus! {

/// Whether every byte of `s` is of `class`.
pub open spec fn all_of(s: Seq<u8>, class: ByteClass) -> bool {
    forall|k: int| 0 <= k < s.len() ==> class.has(#[trigger] s[k])
}

/// Whether `s` is a numeric literal from its first byte to its last.
pub open spec fn is_literal(s: Seq<u8>) -> bool {
    literal_end(s, 0) == Some(s.len() as int)
}

/// What a number followed by the spelling of `unit` is read as: one
/// duration, unless it is a count of nanoseconds beyond 64 bits, which is
/// reported at the position `at` of the number.
pub open spec fn one_fragment(unit: DurationUnit, count: Decimal, at: int) -> Result<
    Seq<Duration>,
    ParseError,
> {
    match Duration::of_unit(unit, count) {
        Some(d) => Ok(seq![d]),
        None => Err(ParseError { position: at as usize, kind: ParseErrorKind::TooLarge }),
    }
}

/// The durations that a text is read as, or the kind of its failure.
pub open spec fn outcome(r: Result<Seq<Duration>, ParseError>) -> Result<
    Seq<Duration>,
    ParseErrorKind,
> {
    match r {
        Ok(durations) => Ok(durations),
        Err(e) => Err(e.kind),
    }
}

/// A run that is made of bytes of its class up to `j` ends where the run
/// from `j` ends.
proof fn lemma_run_continues(s: Seq<u8>, i: int, j: int, class: ByteClass)
    requires
        0 <= i <= j <= s.len(),
        forall|k: int| i <= k < j ==> class.has(#[trigger] s[k]),
    ensures
        run_end(s, i, class) == run_end(s, j, class),
    decreases j - i,
{
    if i < j {
        lemma_run_continues(s, i + 1, j, class);
    }
}

/// The parts of a text of three parts stand in it one behind the other.
proof fn lemma_occurs_in_three(a: Seq<u8>, b: Seq<u8>, c: Seq<u8>)
    ensures
        occurs_at(a + b + c, 0, a),
        occurs_at(a + b + c, a.len() as int, b),
        occurs_at(a + b + c, (a.len() + b.len()) as int, c),
{
    let t = a + b + c;
    assert forall|k: int| 0 <= k < b.len() implies t[a.len() + k] == #[trigger] b[k] by {}
    assert forall|k: int| 0 <= k < c.len() implies t[a.len() + b.len() + k] == #[trigger] c[k] by {}
}

/// A number with whitespace around it is that number, whatever the
/// whitespace.
pub proof fn law_bare_number(before: Seq<u8>, number: Seq<u8>, after: Seq<u8>)
    requires
        all_of(before, ByteClass::Space),
        is_literal(number),
        all_of(after, ByteClass::Space),
    ensures
        bare_number(before + number + after) == Some(literal_value(number, 0)),
        run_end(before + number + after, 0, ByteClass::Space) == before.len(),
        parsed(before + number + after) == Ok::<_, ParseError>(
            seq![Duration::Second(literal_value(number, 0))],
        ),
{
    let space = ByteClass::Space;
    let t = before + number + after;
    let n = before.len() as int;
    let m = n + number.len();
    lemma_occurs_in_three(before, number, after);
    lemma_literal_start(number, 0);
    assert(t[n] == number[0]);
    assert(run_end(t, 0, space) == n) by {
        lemma_run_continues(before, 0, n, space);
        lemma_run_within(t, 0, before, 0, space);
    }
    assert(literal_end(t, n) == Some(m) && literal_value(t, n) == literal_value(number, 0)) by {
        if after.len() > 0 {
            assert(t[m] == after[0]);
        }
        lemma_literal_within(t, n, number, 0);
    }
    assert(run_end(t, m, space) == t.len()) by {
        lemma_run_continues(after, 0, after.len() as int, space);
        lemma_run_within(t, m, after, 0, space);
    }
}

/// A number followed by the spelling of a unit is read as one duration of
/// that unit.
pub proof fn law_number_with_unit(head: Seq<u8>, unit: DurationUnit, word: Seq<u8>)
    requires
        bare_number(head).is_some(),
        is_spelling(unit, word),
    ensures
        parsed(head + word) == one_fragment(
            unit,
            bare_number(head).unwrap(),
            run_end(head, 0, ByteClass::Space),
        ),
{
    let space = ByteClass::Space;
    let t = head + word;
    let n = head.len() as int;
    lemma_occurs_in_concat(head, word);
    lemma_spelling_bytes(unit, word);
    lemma_unit_of_word(word);
    assert(t[n] == word[0]);
    lemma_run_end(head, 0, space);
    let a = run_end(head, 0, space);
    lemma_literal_end(head, a);
    let b = literal_end(head, a).unwrap();
    lemma_run_end(head, b, space);
    assert(run_end(t, 0, space) == a) by {
        lemma_run_within(t, 0, head, 0, space);
    }
    assert(literal_end(t, a) == Some(b) && literal_value(t, a) == literal_value(head, a)) by {
        lemma_literal_within(t, 0, head, a);
    }
    assert(run_end(t, b, space) == n) by {
        lemma_run_within(t, 0, head, b, space);
    }
    assert(word_end(t, n) == t.len()) by {
        lemma_word_within(t, n, word, 0);
    }
    assert(t.subrange(n, t.len() as int) =~= word);
    assert(unit_at(t, n) == Ok::<_, ParseError>((t.len() as int, unit)));
}

/// Every spelling of a unit gives the same: behind a number, one spelling of
/// a unit is read as any other spelling of it.
pub proof fn law_spellings_agree(
    head: Seq<u8>,
    unit: DurationUnit,
    first: Seq<u8>,
    second: Seq<u8>,
)
    requires
        bare_number(head).is_some(),
        is_spelling(unit, first),
        is_spelling(unit, second),
    ensures
        parsed(head + first) == parsed(head + second),
        forall|target: Target|
            parsed_nanos(head + first, target) == parsed_nanos(head + second, target),
{
    law_number_with_unit(head, unit, first);
    law_number_with_unit(head, unit, second);
}

/// Whitespace before a number, and between a number and its unit, changes
/// nothing but the position at which a failure is reported.
pub proof fn law_whitespace_is_ignored(
    before: Seq<u8>,
    number: Seq<u8>,
    between: Seq<u8>,
    unit: DurationUnit,
    word: Seq<u8>,
)
    requires
        all_of(before, ByteClass::Space),
        is_literal(number),
        all_of(between, ByteClass::Space),
        is_spelling(unit, word),
    ensures
        outcome(parsed(before + number + between + word)) == outcome(parsed(number + word)),
        parsed(number + word) == one_fragment(unit, literal_value(number, 0), 0),
{
    law_bare_number(before, number, between);
    law_number_with_unit(before + number + between, unit, word);
    let none = Seq::<u8>::empty();
    law_bare_number(none, number, none);
    assert(none + number + none =~= number);
    law_number_with_unit(number, unit, word);
}

/// A number without a unit counts seconds: it is read as the same number
/// with an `s` behind it.
pub proof fn law_bare_number_counts_seconds(text: Seq<u8>)
    requires
        bare_number(text).is_some(),
    ensures
        parsed(text) == parsed(text + "s".spec_bytes()),
        forall|target: Target|
            parsed_nanos(text, target) == parsed_nanos(text + "s".spec_bytes(), target),
{
    law_number_with_unit(text, DurationUnit::Second, "s".spec_bytes());
}

/// A text that begins with a fragment is no bare number.
pub proof fn lemma_fragment_is_no_number(s: Seq<u8>)
    requires
        fragment_at(s, 0).is_ok(),
    ensures
        bare_number(s).is_none(),
{
    let _ = lemma_fragment_parts(s, 0);
}

/// Whitespace before a time span with units changes nothing.
pub proof fn law_whitespace_before_fragments(space: Seq<u8>, text: Seq<u8>)
    requires
        all_of(space, ByteClass::Space),
        bare_number(text).is_none(),
        parsed(text).is_ok(),
    ensures
        parsed(space + text) == parsed(text),
{
    let t = space + text;
    let n = space.len() as int;
    lemma_occurs_in_concat(space, text);
    assert(run_end(t, 0, ByteClass::Space) == run_end(t, n, ByteClass::Space)) by {
        assert forall|k: int| 0 <= k < n implies ByteClass::Space.has(#[trigger] t[k]) by {
            assert(t[k] == space[k]);
        }
        lemma_run_continues(t, 0, n, ByteClass::Space);
    }
    assert(fragment_at(t, 0) == fragment_at(t, n));
    lemma_fragment_at(text, 0);
    lemma_fragment_within(t, n, text, 0);
    let end = fragment_at(text, 0).unwrap().0;
    if end < text.len() {
        lemma_fragments_within(t, n, text, end);
    }
    lemma_fragment_is_no_number(t);
}

/// Two time spans with units, written one behind the other, are read as the
/// durations of the first followed by those of the second.
pub proof fn law_concatenation(first: Seq<u8>, second: Seq<u8>)
    requires
        bare_number(first).is_none(),
        bare_number(second).is_none(),
        parsed(first).is_ok(),
        parsed(second).is_ok(),
    ensures
        parsed(first + second) == Ok::<_, ParseError>(
            parsed(first).unwrap() + parsed(second).unwrap(),
        ),
{
    lemma_fragments_concat(first, second, 0);
    lemma_fragment_is_no_number(first + second);
}

/// The sum of two lists of durations written one behind the other is the
/// sum of their sums, where all three can be held. In a signed type the
/// joined list may have a sum where a part has none, and the other way
/// round.
pub proof fn law_sums_add_up(first: Seq<Duration>, second: Seq<Duration>, target: Target)
    requires
        total_nanos(first, target).is_some(),
        total_nanos(second, target).is_some(),
        total_nanos(first + second, target).is_some(),
    ensures
        total_nanos(first + second, target).unwrap() == total_nanos(first, target).unwrap()
            + total_nanos(second, target).unwrap(),
    decreases second.len(),
{
    if second.len() == 0 {
        assert(first + second =~= first);
    } else {
        let all = first + second;
        assert(all.drop_last() =~= first + second.drop_last());
        assert(all.last() == second.last());
        law_sums_add_up(first, second.drop_last(), target);
    }
}

/// Parsing is additive: a time span made of two amounts to the sum of what
/// the two amount to, where all three can be held.
pub proof fn law_parsing_is_additive(first: Seq<u8>, second: Seq<u8>, target: Target)
    requires
        bare_number(first).is_none(),
        bare_number(second).is_none(),
        parsed_nanos(first, target).is_ok(),
        parsed_nanos(second, target).is_ok(),
        parsed_nanos(first + second, target).is_ok(),
    ensures
        parsed_nanos(first + second, target).unwrap() == parsed_nanos(first, target).unwrap()
            + parsed_nanos(second, target).unwrap(),
{
    law_concatenation(first, second);
    law_sums_add_up(parsed(first).unwrap(), parsed(second).unwrap(), target);
}

/// A bare number cannot be mixed with fragments: a number, whitespace and a
/// time span with units behind it are no time span.
pub proof fn law_number_before_fragments_fails(number: Seq<u8>, rest: Seq<u8>)
    requires
        bare_number(number).is_some(),
        rest.len() > 0,
        ByteClass::Space.has(rest[0]),
        fragments_from(rest, 0).is_ok(),
    ensures
        parsed(number + rest).is_err(),
{
    let space = ByteClass::Space;
    let t = number + rest;
    let n = number.len() as int;
    lemma_occurs_in_concat(number, rest);
    assert(t[n] == rest[0]);
    lemma_run_end(number, 0, space);
    let a = run_end(number, 0, space);
    lemma_literal_end(number, a);
    let b = literal_end(number, a).unwrap();
    lemma_run_end(number, b, space);
    assert(run_end(t, 0, space) == a) by {
        lemma_run_within(t, 0, number, 0, space);
    }
    assert(literal_end(t, a) == Some(b)) by {
        lemma_literal_within(t, 0, number, a);
    }
    let (ra, _, _) = lemma_fragment_parts(rest, 0);
    assert(run_end(t, b, space) == n + ra) by {
        assert forall|k: int| b <= k < n implies space.has(#[trigger] t[k]) by {
            assert(t[k] == number[k]);
        }
        lemma_run_continues(t, b, n, space);
        lemma_run_within(t, n, rest, 0, space);
    }
    assert(t[n + ra] == rest[ra]);
    lemma_unit_at(t, n + ra);
}

/// Whether `b` is a letter of the Latin alphabet or a byte of the micro
/// sign.
pub open spec fn is_letter(b: u8) -> bool {
    ('A' as u8 <= b <= 'Z' as u8) || ('a' as u8 <= b <= 'z' as u8) || b == 0xc2 || b == 0xb5
}

/// No fragment begins with a letter.
proof fn lemma_no_fragment_at_letter(s: Seq<u8>, i: int)
    requires
        0 <= i < s.len(),
        is_letter(s[i]),
    ensures
        fragment_at(s, i).is_err(),
{
    assert(run_end(s, i, ByteClass::Space) == i);
    assert(after_sign(s, i) == i);
    assert(run_end(s, i, ByteClass::Digit) == i);
    assert(!has_fraction(s, i));
    assert(literal_end(s, i).is_none());
}

/// How a text is read that is a number with something behind it that does
/// not begin with whitespace, a digit or a point: it is no bare number, and
/// its first fragment is the number with the unit that is spelled behind it.
proof fn lemma_number_then(number: Seq<u8>, rest: Seq<u8>)
    requires
        bare_number(number).is_some(),
        rest.len() > 0,
        !ByteClass::Space.has(rest[0]),
        !ByteClass::Digit.has(rest[0]),
        rest[0] != '.' as u8,
    ensures
        bare_number(number + rest).is_none(),
        fragment_at(number + rest, 0).is_ok() ==> {
            &&& unit_at(number + rest, number.len() as int).is_ok()
            &&& fragment_at(number + rest, 0).unwrap().0 == unit_at(
                number + rest,
                number.len() as int,
            ).unwrap().0
        },
{
    let space = ByteClass::Space;
    let t = number + rest;
    let n = number.len() as int;
    lemma_occurs_in_concat(number, rest);
    assert(t[n] == rest[0]);
    lemma_run_end(number, 0, space);
    let a = run_end(number, 0, space);
    lemma_literal_end(number, a);
    let b = literal_end(number, a).unwrap();
    lemma_run_end(number, b, space);
    assert(run_end(t, 0, space) == a) by {
        lemma_run_within(t, 0, number, 0, space);
    }
    assert(literal_end(t, a) == Some(b)) by {
        lemma_literal_within(t, 0, number, a);
    }
    assert(run_end(t, b, space) == n) by {
        lemma_run_within(t, 0, number, b, space);
    }
}

/// Where letters that spell no unit end a text, a unit that is read at
/// their start is cut short by one of them.
proof fn lemma_unit_in_letters(text: Seq<u8>, at: int, suffix: Seq<u8>)
    requires
        occurs_at(text, at, suffix),
        at + suffix.len() == text.len(),
        forall|k: int| 0 <= k < suffix.len() ==> is_letter(#[trigger] suffix[k]),
        unit_of_word(suffix).is_none(),
        unit_at(text, at).is_ok(),
    ensures
        at <= unit_at(text, at).unwrap().0 < text.len(),
        is_letter(text[unit_at(text, at).unwrap().0]),
{
    lemma_word_end(suffix, 0);
    let r = word_end(suffix, 0);
    lemma_word_within(text, at, suffix, 0);
    if r == suffix.len() {
        assert(text.subrange(at, at + r) =~= suffix);
    } else {
        assert(text[at + r] == suffix[r]);
    }
}

/// A text is no time span where it is no bare number and its first
/// fragment, if it has one, is followed by something that is no fragment.
proof fn lemma_fails_behind_first(text: Seq<u8>)
    requires
        bare_number(text).is_none(),
        fragment_at(text, 0) matches Ok((end, _)) ==> end < text.len() && fragment_at(
            text,
            end,
        ).is_err(),
    ensures
        parsed(text).is_err(),
{
    reveal_with_fuel(fragments_from, 2);
    lemma_fragment_at(text, 0);
}

/// A text is no time span where it is no bare number, ends in letters that
/// spell no unit, and has no first fragment that ends before them.
proof fn lemma_fails_in_letters(text: Seq<u8>, at: int, suffix: Seq<u8>)
    requires
        occurs_at(text, at, suffix),
        at + suffix.len() == text.len(),
        forall|k: int| 0 <= k < suffix.len() ==> is_letter(#[trigger] suffix[k]),
        unit_of_word(suffix).is_none(),
        bare_number(text).is_none(),
        fragment_at(text, 0).is_ok() ==> unit_at(text, at).is_ok() && fragment_at(
            text,
            0,
        ).unwrap().0 == unit_at(text, at).unwrap().0,
    ensures
        parsed(text).is_err(),
{
    if fragment_at(text, 0).is_ok() {
        // The word is cut short by a letter that no unit is spelled with,
        // and no fragment begins with a letter.
        lemma_unit_in_letters(text, at, suffix);
        lemma_no_fragment_at_letter(text, fragment_at(text, 0).unwrap().0);
    }
    lemma_fails_behind_first(text);
}

/// A number followed by letters that spell no unit is no time span.
pub proof fn law_unknown_unit_fails(number: Seq<u8>, suffix: Seq<u8>)
    requires
        bare_number(number).is_some(),
        suffix.len() > 0,
        forall|k: int| 0 <= k < suffix.len() ==> is_letter(#[trigger] suffix[k]),
        unit_of_word(suffix).is_none(),
    ensures
        parsed(number + suffix).is_err(),
{
    assert(is_letter(suffix[0]));
    lemma_number_then(number, suffix);
    lemma_occurs_in_concat(number, suffix);
    lemma_fails_in_letters(number + suffix, number.len() as int, suffix);
}

/// The unsigned type takes no time span that holds a negative duration: one
/// of a second or a longer unit that is written with a minus sign, or one of
/// a shorter unit that is below zero when rounded to nanoseconds.
pub proof fn law_unsigned_takes_no_negative(durations: Seq<Duration>, k: int)
    requires
        0 <= k < durations.len(),
        durations[k].is_negative(),
        durations[k].unit().is_subsecond() ==> durations[k].rounded_nanos(Target::StdTime) != 0,
    ensures
        total_nanos(durations, Target::StdTime).is_none(),
{
    let d = durations[k];
    if !(d is Nanosecond) {
        lemma_split_product(d.count().attos as int, d.unit().nanos());
    }
    assert(d.nanos(Target::StdTime).is_none());
    assert(durations.take(k + 1).last() == durations[k]);
    lemma_total_nanos_prefix(durations, k + 1, Target::StdTime);
}

/// The sum of what the durations amount to one by one, with nothing left
/// out and nothing cut short.
pub open spec fn plain_sum(durations: Seq<Duration>, target: Target) -> int
    decreases durations.len(),
{
    if durations.len() == 0 {
        0
    } else {
        plain_sum(durations.drop_last(), target) + durations.last().rounded_nanos(target)
    }
}

/// A sum is never wrapped or clamped: where a time span can be held at all,
/// every duration of it can be held, and the result is their plain sum.
pub proof fn law_sum_is_exact(durations: Seq<Duration>, target: Target)
    requires
        total_nanos(durations, target).is_some(),
    ensures
        total_nanos(durations, target) == Some(plain_sum(durations, target)),
        target.holds(plain_sum(durations, target)),
        forall|k: int|
            0 <= k < durations.len() ==> (#[trigger] durations[k]).nanos(target) == Some(
                durations[k].rounded_nanos(target),
            ),
    decreases durations.len(),
{
    if durations.len() > 0 {
        law_sum_is_exact(durations.drop_last(), target);
        assert forall|k: int| 0 <= k < durations.len() implies (#[trigger] durations[k]).nanos(
            target,
        ) == Some(durations[k].rounded_nanos(target)) by {
            if k < durations.len() - 1 {
                assert(durations.drop_last()[k] == durations[k]);
            }
        }
    }
}

/// The plain sum of a list is that of the list without one duration, plus
/// that duration.
proof fn lemma_plain_sum_remove(durations: Seq<Duration>, i: int, target: Target)
    requires
        0 <= i < durations.len(),
    ensures
        plain_sum(durations, target) == plain_sum(durations.remove(i), target)
            + durations[i].rounded_nanos(target),
    decreases durations.len(),
{
    if i == durations.len() - 1 {
        assert(durations.remove(i) =~= durations.drop_last());
    } else {
        assert(durations.remove(i).drop_last() =~= durations.drop_last().remove(i));
        assert(durations.remove(i).last() == durations.last());
        lemma_plain_sum_remove(durations.drop_last(), i, target);
    }
}

/// Two lists of the same durations have the same plain sum.
proof fn lemma_plain_sum_of_permutation(
    first: Seq<Duration>,
    second: Seq<Duration>,
    target: Target,
)
    requires
        first.to_multiset() == second.to_multiset(),
    ensures
        plain_sum(first, target) == plain_sum(second, target),
    decreases first.len(),
{
    first.to_multiset_ensures();
    second.to_multiset_ensures();
    if first.len() > 0 {
        let x = first.last();
        let rest = first.drop_last();
        rest.to_multiset_ensures();
        assert(rest.push(x) =~= first);
        assert(first[first.len() - 1] == x);
        assert(first.contains(x));
        assert(second.to_multiset().count(x) > 0);
        assert(second.contains(x));
        let i = choose|i: int| 0 <= i < second.len() && second[i] == x;
        assert(second.remove(i).to_multiset() =~= rest.to_multiset());
        lemma_plain_sum_of_permutation(rest, second.remove(i), target);
        lemma_plain_sum_remove(second, i, target);
    }
}

/// The order of the durations does not matter to their sum: two lists of
/// the same durations amount to the same, where both can be held. In a signed
/// type a sum on the way can leave the range in one order and not in the
/// other, so that one of the two lists may have no sum.
pub proof fn law_order_does_not_matter(
    first: Seq<Duration>,
    second: Seq<Duration>,
    target: Target,
)
    requires
        first.to_multiset() == second.to_multiset(),
        total_nanos(first, target).is_some(),
        total_nanos(second, target).is_some(),
    ensures
        total_nanos(first, target) == total_nanos(second, target),
{
    law_sum_is_exact(first, target);
    law_sum_is_exact(second, target);
    lemma_plain_sum_of_permutation(first, second, target);
}

/// In the unsigned type no sum on the way can fail where the last does not,
/// since nothing is ever taken away: a list has a sum there exactly where
/// each of its durations can be taken and their plain sum can be held.
pub proof fn law_unsigned_sum_exists(durations: Seq<Duration>)
    ensures
        total_nanos(durations, Target::StdTime).is_some() <==> ({
            &&& forall|k: int|
                0 <= k < durations.len() ==> (#[trigger] durations[k]).nanos(
                    Target::StdTime,
                ).is_some()
            &&& Target::StdTime.holds(plain_sum(durations, Target::StdTime))
        }),
        (forall|k: int|
            0 <= k < durations.len() ==> (#[trigger] durations[k]).nanos(
                Target::StdTime,
            ).is_some()) ==> plain_sum(durations, Target::StdTime) >= 0,
    decreases durations.len(),
{
    let target = Target::StdTime;
    if durations.len() > 0 {
        let rest = durations.drop_last();
        law_unsigned_sum_exists(rest);
        if total_nanos(durations, target).is_some() {
            law_sum_is_exact(durations, target);
        }
        if forall|k: int|
            0 <= k < durations.len() ==> (#[trigger] durations[k]).nanos(target).is_some() {
            assert forall|k: int| 0 <= k < rest.len() implies (#[trigger] rest[k]).nanos(
                target,
            ).is_some() by {
                assert(rest[k] == durations[k]);
            }
            assert(durations[durations.len() - 1].nanos(target).is_some());
            if target.holds(plain_sum(durations, target)) {
                law_sum_is_exact(rest, target);
            }
        }
    }
}

/// In the unsigned type the order of the durations does not matter at all:
/// two lists of the same durations have the same sum, or neither has one.
pub proof fn law_unsigned_order_does_not_matter(first: Seq<Duration>, second: Seq<Duration>)
    requires
        first.to_multiset() == second.to_multiset(),
    ensures
        total_nanos(first, Target::StdTime) == total_nanos(second, Target::StdTime),
{
    let target = Target::StdTime;
    law_unsigned_sum_exists(first);
    law_unsigned_sum_exists(second);
    lemma_plain_sum_of_permutation(first, second, target);
    first.to_multiset_ensures();
    second.to_multiset_ensures();
    if total_nanos(first, target).is_some() {
        assert forall|k: int| 0 <= k < second.len() implies (#[trigger] second[k]).nanos(
            target,
        ).is_some() by {
            let x = second[k];
            assert(second.contains(x));
            assert(second.to_multiset().count(x) > 0);
            assert(first.contains(x));
            let j = choose|j: int| 0 <= j < first.len() && first[j] == x;
            assert(first[j].nanos(target).is_some());
        }
        law_sum_is_exact(first, target);
        law_sum_is_exact(second, target);
    }
    if total_nanos(second, target).is_some() {
        assert forall|k: int| 0 <= k < first.len() implies (#[trigger] first[k]).nanos(
            target,
        ).is_some() by {
            let x = first[k];
            assert(first.contains(x));
            assert(first.to_multiset().count(x) > 0);
            assert(second.contains(x));
            let j = choose|j: int| 0 <= j < second.len() && second[j] == x;
            assert(second[j].nanos(target).is_some());
        }
        law_sum_is_exact(first, target);
        law_sum_is_exact(second, target);
    }
}

/// A time span that holds a duration beyond the range of the type fails
/// with an overflow: so does one whose whole units alone are further from
/// zero than the type reaches on either side.
pub proof fn law_large_duration_overflows(durations: Seq<Duration>, k: int, target: Target)
    requires
        0 <= k < durations.len(),
        !(durations[k] is Nanosecond),
        durations[k].count().whole() * durations[k].unit().nanos() > target.max_nanos(),
        durations[k].count().whole() * durations[k].unit().nanos() > -target.min_nanos(),
    ensures
        total_nanos(durations, target).is_none(),
{
    let d = durations[k];
    let factor = d.unit().nanos();
    lemma_split_product(d.count().attos as int, factor);
    assert(d.count().times(factor, d.rounding(target)) >= d.count().whole() * factor);
    assert(d.nanos(target).is_none());
    assert(durations.take(k + 1).last() == durations[k]);
    lemma_total_nanos_prefix(durations, k + 1, target);
}

/// A duration that is a whole number of nanoseconds is kept as it is: no
/// type rounds it, so all types that can hold it agree on it.
pub proof fn law_whole_nanoseconds_are_kept(d: Duration, target: Target)
    requires
        !(d is Nanosecond),
        (d.count().attos * d.unit().nanos()) % (ATTOS_PER_UNIT as int) == 0,
    ensures
        d.rounded_nanos(target) * ATTOS_PER_UNIT == if d.count().negative {
            -(d.count().attos * d.unit().nanos())
        } else {
            d.count().attos * d.unit().nanos()
        },
{
    lemma_split_product(d.count().attos as int, d.unit().nanos());
}

/// No duration is off by a nanosecond: what a type makes of a duration is
/// less than one nanosecond away from its exact length.
pub proof fn law_rounding_is_within_a_nanosecond(d: Duration, target: Target)
    requires
        !(d is Nanosecond),
    ensures
        ({
            let exact = if d.count().negative {
                -(d.count().attos * d.unit().nanos())
            } else {
                d.count().attos * d.unit().nanos()
            };
            -ATTOS_PER_UNIT < d.rounded_nanos(target) * ATTOS_PER_UNIT - exact < ATTOS_PER_UNIT
        }),
{
    lemma_split_product(d.count().attos as int, d.unit().nanos());
}

/// However a count is rounded, the results are less than one apart.
pub proof fn lemma_roundings_agree(n: int, first: Rounding, second: Rounding)
    requires
        n >= 0,
    ensures
        -1 <= round_div(n, ATTOS_PER_UNIT as int, first) - round_div(
            n,
            ATTOS_PER_UNIT as int,
            second,
        ) <= 1,
{
}

/// The types agree up to rounding: what two of them make of the same time
/// span differs by no more than a nanosecond for each of its durations.
pub proof fn law_targets_agree(durations: Seq<Duration>, first: Target, second: Target)
    requires
        total_nanos(durations, first).is_some(),
        total_nanos(durations, second).is_some(),
    ensures
        -durations.len() <= total_nanos(durations, first).unwrap() - total_nanos(
            durations,
            second,
        ).unwrap() <= durations.len(),
    decreases durations.len(),
{
    if durations.len() > 0 {
        law_targets_agree(durations.drop_last(), first, second);
        let d = durations.last();
        if !(d is Nanosecond) {
            let n = d.count().attos * d.unit().nanos();
            lemma_split_product(d.count().attos as int, d.unit().nanos());
            lemma_roundings_agree(n, d.rounding(first), d.rounding(second));
        }
    }
}

/// The month and the year are the averages of the Gregorian calendar, for
/// every type: a year is 365.2425 days and a month 30.436875 days.
pub proof fn law_gregorian_averages()
    ensures
        DurationUnit::Year.nanos() * 10_000 == 3_652_425 * DurationUnit::Day.nanos(),
        DurationUnit::Month.nanos() * 1_000_000 == 30_436_875 * DurationUnit::Day.nanos(),
        DurationUnit::Year.nanos() == 12 * DurationUnit::Month.nanos(),
        SECS_PER_YEAR * 10_000 == 3_652_425 * SECS_PER_DAY,
        SECS_PER_MONTH * 1_000_000 == 30_436_875 * SECS_PER_DAY,
{
}

} // verus!
