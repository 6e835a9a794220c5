//! What the durations of a configuration amount to.

use crate::config::binary64::{lemma_pow10, nearest_double, whole_numbers_are_exact, TWO_53};
use crate::config::duration::{
    number_of, number_parts, parsed_duration, point, unit_of, DurationProblem, NumberParts,
};
use crate::text::{
    all_digits, digits_value, first_alphabetic, is_ascii_letter, is_digit, trimmed, whitespace,
};
use vstd::prelude::*;

verus! {

/// A number, as it is written.
pub open spec fn is_number(s: Seq<char>) -> bool {
    s.len() > 0 && all_digits(s)
}

/// A unit and the milliseconds that it has.
pub open spec fn has_millis(unit: Seq<char>, ms: nat) -> bool {
    ||| unit == seq!['m', 's'] && ms == 1
    ||| unit == seq!['s'] && ms == 1000
    ||| unit == seq!['s', 'e', 'c'] && ms == 1000
    ||| unit == seq!['s', 'e', 'c', 's'] && ms == 1000
    ||| unit == seq!['m'] && ms == 60 * 1000
    ||| unit == seq!['m', 'i', 'n'] && ms == 60 * 1000
    ||| unit == seq!['m', 'i', 'n', 's'] && ms == 60 * 1000
    ||| unit == seq!['h'] && ms == 60 * 60 * 1000
    ||| unit == seq!['h', 'r'] && ms == 60 * 60 * 1000
    ||| unit == seq!['h', 'r', 's'] && ms == 60 * 60 * 1000
}

proof fn lemma_not_trimmed(s: Seq<char>)
    requires
        s.len() > 0,
        !whitespace(s[0]),
        !whitespace(s.last()),
    ensures
        trimmed(s) == s,
{
}

proof fn lemma_point(s: Seq<char>)
    requires
        all_digits(s),
    ensures
        point(s) == s.len(),
    decreases s.len(),
{
    if s.len() > 0 {
        assert(is_digit(s[0]));
        let t = s.skip(1);
        assert forall|i: int| 0 <= i < t.len() implies is_digit(#[trigger] t[i]) by {
            assert(is_digit(s[i + 1]));
        }
        lemma_point(t);
    }
}

proof fn lemma_parts(s: Seq<char>)
    requires
        is_number(s),
    ensures
        number_parts(s) == Some(
            NumberParts { negative: false, whole: s, fraction: Seq::empty() },
        ),
        trimmed(s) == s,
{
    lemma_point(s);
    assert(is_digit(s[0]));
    assert(is_digit(s.last()));
    lemma_not_trimmed(s);
    assert(s.take(s.len() as int) =~= s);
}

proof fn lemma_first_letter(number: Seq<char>, unit: Seq<char>)
    requires
        all_digits(number),
        unit.len() > 0 ==> is_ascii_letter(unit[0]),
    ensures
        first_alphabetic(number + unit) == number.len(),
    decreases number.len(),
{
    let s = number + unit;
    if number.len() == 0 {
        if unit.len() > 0 {
            assert(s[0] == unit[0]);
        }
    } else {
        let t = number.skip(1);
        assert(is_digit(number[0]));
        assert(s[0] == number[0]);
        assert forall|i: int| 0 <= i < t.len() implies is_digit(#[trigger] t[i]) by {
            assert(is_digit(number[i + 1]));
        }
        assert(s.skip(1) =~= t + unit);
        lemma_first_letter(t, unit);
    }
}

proof fn lemma_magnitude(number: Seq<char>, ms: nat)
    requires
        is_number(number),
        ms > 0,
        digits_value(number) * ms < TWO_53,
    ensures
        ({
            let parts = NumberParts { negative: false, whole: number, fraction: Seq::empty() };
            let n = digits_value(number);
            &&& parts.magnitude() == nearest_double(n, 1)
            &&& crate::config::binary64::scaled_floor(parts.magnitude(), ms) == n * ms
        }),
{
    let n = digits_value(number);
    assert(number + Seq::<char>::empty() =~= number);
    lemma_pow10(0);
    assert(n <= n * ms) by (nonlinear_arith)
        requires
            ms > 0,
    ;
    whole_numbers_are_exact(n, ms);
}

/// A whole number of units is that number times the milliseconds of the unit.
/// The statement leaves out numbers whose milliseconds need more than 53 bits.
pub proof fn number_of_units_is_a_product(number: Seq<char>, unit: Seq<char>, ms: nat)
    requires
        is_number(number),
        has_millis(unit, ms),
        digits_value(number) * ms < TWO_53,
    ensures
        parsed_duration(number + unit) == Ok::<u64, DurationProblem>(
            (digits_value(number) * ms) as u64,
        ),
{
    reveal_strlit("ms");
    reveal_strlit("s");
    reveal_strlit("sec");
    reveal_strlit("secs");
    reveal_strlit("m");
    reveal_strlit("min");
    reveal_strlit("mins");
    reveal_strlit("h");
    reveal_strlit("hr");
    reveal_strlit("hrs");
    assert("ms"@ =~= seq!['m', 's']);
    assert("s"@ =~= seq!['s']);
    assert("sec"@ =~= seq!['s', 'e', 'c']);
    assert("secs"@ =~= seq!['s', 'e', 'c', 's']);
    assert("m"@ =~= seq!['m']);
    assert("min"@ =~= seq!['m', 'i', 'n']);
    assert("mins"@ =~= seq!['m', 'i', 'n', 's']);
    assert("h"@ =~= seq!['h']);
    assert("hr"@ =~= seq!['h', 'r']);
    assert("hrs"@ =~= seq!['h', 'r', 's']);
    assert(seq!['m'].len() == 1 && seq!['s'].len() == 1 && seq!['h'].len() == 1);
    assert(seq!['m'][0] == 'm' && seq!['s'][0] == 's' && seq!['h'][0] == 'h');
    assert(seq!['m', 's'][1] == 's' && seq!['h', 'r'][1] == 'r');
    assert(seq!['s', 'e', 'c'][0] == 's' && seq!['m', 'i', 'n'][0] == 'm');
    assert(seq!['h', 'r', 's'][0] == 'h');
    assert(seq!['s', 'e', 'c', 's'][0] == 's' && seq!['m', 'i', 'n', 's'][0] == 'm');
    let text = number + unit;
    assert(is_digit(number[0]));
    assert(text[0] == number[0]);
    assert(text.last() == unit.last());
    lemma_not_trimmed(text);
    lemma_first_letter(number, unit);
    assert(number_of(text) =~= number);
    assert(unit_of(text) =~= unit);
    lemma_parts(number);
    lemma_magnitude(number, ms);
}

/// A number without a unit is a number of seconds.
pub proof fn bare_number_is_seconds(number: Seq<char>)
    requires
        is_number(number),
        digits_value(number) * 1000 < TWO_53,
    ensures
        parsed_duration(number) == Ok::<u64, DurationProblem>(
            (digits_value(number) * 1000) as u64,
        ),
{
    reveal_strlit("ms");
    reveal_strlit("s");
    assert("s"@.len() != "ms"@.len());
    lemma_parts(number);
    lemma_first_letter(number, Seq::empty());
    assert(number + Seq::<char>::empty() =~= number);
    assert(number_of(number) =~= number);
    lemma_magnitude(number, 1000);
}

/// A unit that is none is refused by its name, and so is a duration without a
/// number, an empty one and a negative one.
pub proof fn other_durations_are_refused(number: Seq<char>, unit: Seq<char>)
    ensures
        is_number(number) && unit.len() > 0 && is_ascii_letter(unit[0]) && !whitespace(unit.last())
            && (forall|ms: nat| !#[trigger] has_millis(unit, ms)) ==> parsed_duration(
            number + unit,
        ) == Err::<u64, DurationProblem>(DurationProblem::UnknownUnit(unit)),
        unit.len() > 0 && is_ascii_letter(unit[0]) && !whitespace(unit.last())
            ==> parsed_duration(unit) == Err::<u64, DurationProblem>(
            DurationProblem::InvalidNumber(unit),
        ),
        parsed_duration(Seq::empty()) == Err::<u64, DurationProblem>(DurationProblem::Empty),
        is_number(number) && 0 < digits_value(number) < TWO_53 ==> parsed_duration(
            seq!['-'] + number,
        ) == Err::<u64, DurationProblem>(DurationProblem::Negative),
{
    if unit.len() > 0 && is_ascii_letter(unit[0]) && !whitespace(unit.last()) {
        lemma_not_trimmed(unit);
        lemma_first_letter(Seq::empty(), unit);
        assert(Seq::<char>::empty() + unit =~= unit);
        assert(number_of(unit) =~= Seq::empty());
        assert(trimmed(number_of(unit)) =~= Seq::empty());
        assert(number_parts(Seq::<char>::empty()) is None);
        if is_number(number) && (forall|ms: nat| !#[trigger] has_millis(unit, ms)) {
            lemma_no_unit(unit);
            let text = number + unit;
            assert(is_digit(number[0]));
            assert(text[0] == number[0]);
            assert(text.last() == unit.last());
            lemma_not_trimmed(text);
            lemma_first_letter(number, unit);
            assert(number_of(text) =~= number);
            assert(unit_of(text) =~= unit);
            lemma_parts(number);
        }
    }
    if is_number(number) && 0 < digits_value(number) < TWO_53 {
        let text = seq!['-'] + number;
        assert(is_digit(number.last()));
        assert(is_digit(number[0]));
        assert(text[0] == '-');
        assert(text.last() == number.last());
        lemma_not_trimmed(text);
        lemma_first_letter(number, Seq::empty());
        assert(number + Seq::<char>::empty() =~= number);
        assert(text.skip(1) =~= number);
        assert(first_alphabetic(text) == text.len());
        assert(number_of(text) =~= text);
        lemma_point(number);
        assert(number.take(number.len() as int) =~= number);
        let parts = NumberParts { negative: true, whole: number, fraction: Seq::empty() };
        assert(number_parts(text) == Some(parts));
        lemma_pow10(0);
        whole_numbers_are_exact(digits_value(number), 1);
        assert(parts.magnitude() == nearest_double(digits_value(number), 1));
    }
}

proof fn lemma_no_unit(unit: Seq<char>)
    requires
        forall|ms: nat| !#[trigger] has_millis(unit, ms),
    ensures
        crate::config::duration::unit_factor(unit) is None,
{
    reveal_strlit("ms");
    reveal_strlit("s");
    reveal_strlit("sec");
    reveal_strlit("secs");
    reveal_strlit("m");
    reveal_strlit("min");
    reveal_strlit("mins");
    reveal_strlit("h");
    reveal_strlit("hr");
    reveal_strlit("hrs");
    assert("ms"@ =~= seq!['m', 's']);
    assert("s"@ =~= seq!['s']);
    assert("sec"@ =~= seq!['s', 'e', 'c']);
    assert("secs"@ =~= seq!['s', 'e', 'c', 's']);
    assert("m"@ =~= seq!['m']);
    assert("min"@ =~= seq!['m', 'i', 'n']);
    assert("mins"@ =~= seq!['m', 'i', 'n', 's']);
    assert("h"@ =~= seq!['h']);
    assert("hr"@ =~= seq!['h', 'r']);
    assert("hrs"@ =~= seq!['h', 'r', 's']);
    assert(!has_millis(unit, 1));
    assert(!has_millis(unit, 1000));
    assert(!has_millis(unit, 60_000));
    assert(!has_millis(unit, 3_600_000));
}

} // verus!
