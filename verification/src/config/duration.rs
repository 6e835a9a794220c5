//! Durations such as `10s`, `500ms` or `2m`.

use crate::config::binary64::{
    are_digits, lemma_pow10, lemma_round_bound, low_first, nearest_double, pow10, round53,
    round_decimal, scale, scaled_floor, SMALLEST_EXPONENT, TWO_66,
};
use crate::text::{
    all_digits, chars_are, digits_value, find_alphabetic, first_alphabetic, from_chars, is_digit,
    sub_chars, to_chars, trim, trimmed,
};
use vstd::arithmetic::div_mod::*;
use vstd::arithmetic::power2::*;
use vstd::prelude::*;

verus! {

/// Why a text is no duration.
#[derive(Debug)]
pub enum DurationError {
    Empty,
    /// The text whose number is none.
    InvalidNumber(String),
    Negative,
    UnknownUnit(String),
}

/// A duration error, by its characters.
pub enum DurationProblem {
    Empty,
    InvalidNumber(Seq<char>),
    Negative,
    UnknownUnit(Seq<char>),
}

impl View for DurationError {
    type V = DurationProblem;

    open spec fn view(&self) -> DurationProblem {
        match self {
            DurationError::Empty => DurationProblem::Empty,
            DurationError::InvalidNumber(text) => DurationProblem::InvalidNumber(text@),
            DurationError::Negative => DurationProblem::Negative,
            DurationError::UnknownUnit(unit) => DurationProblem::UnknownUnit(unit@),
        }
    }
}

impl DurationProblem {
    pub open spec fn described(self) -> Seq<char> {
        match self {
            DurationProblem::Empty => "empty duration"@,
            DurationProblem::InvalidNumber(text) => "invalid number in duration: `"@ + text + "`"@,
            DurationProblem::Negative => "duration cannot be negative"@,
            DurationProblem::UnknownUnit(unit) => "unknown duration unit `"@ + unit + "`"@,
        }
    }
}

impl DurationError {
    pub fn message(&self) -> (r: String)
        ensures
            r@ == self@.described(),
    {
        let mut s = String::new();
        match self {
            DurationError::Empty => {
                s.append("empty duration");
            },
            DurationError::InvalidNumber(text) => {
                s.append("invalid number in duration: `");
                s.append(text.as_str());
                s.append("`");
            },
            DurationError::Negative => {
                s.append("duration cannot be negative");
            },
            DurationError::UnknownUnit(unit) => {
                s.append("unknown duration unit `");
                s.append(unit.as_str());
                s.append("`");
            },
        }
        proof {
            assert(s@ =~= self@.described());
        }
        s
    }
}

/// The digits before and after the point, and whether a minus sign leads.
pub struct NumberParts {
    pub negative: bool,
    pub whole: Seq<char>,
    pub fraction: Seq<char>,
}

/// The position of the first point, or the length.
pub open spec fn point(s: Seq<char>) -> int
    decreases s.len(),
{
    if s.len() == 0 || s[0] == '.' {
        0
    } else {
        1 + point(s.skip(1))
    }
}

/// An optional sign, digits, and optionally a point and digits; at least one
/// digit in all.
pub open spec fn number_parts(s: Seq<char>) -> Option<NumberParts> {
    let body = if s.len() > 0 && (s[0] == '+' || s[0] == '-') {
        s.skip(1)
    } else {
        s
    };
    let k = point(body);
    let whole = body.take(k);
    let fraction = if k < body.len() {
        body.skip(k + 1)
    } else {
        Seq::empty()
    };
    if all_digits(whole) && all_digits(fraction) && whole.len() + fraction.len() > 0 {
        Some(NumberParts { negative: s.len() > 0 && s[0] == '-', whole, fraction })
    } else {
        None
    }
}

impl NumberParts {
    /// The number as a double, without its sign.
    pub open spec fn magnitude(self) -> nat {
        nearest_double(digits_value(self.whole + self.fraction), pow10(self.fraction.len()))
    }
}

/// How many milliseconds a unit has.
pub open spec fn unit_factor(unit: Seq<char>) -> Option<u64> {
    if unit == "ms"@ {
        Some(1)
    } else if unit == "s"@ || unit == "sec"@ || unit == "secs"@ {
        Some(1000)
    } else if unit == "m"@ || unit == "min"@ || unit == "mins"@ {
        Some(60_000)
    } else if unit == "h"@ || unit == "hr"@ || unit == "hrs"@ {
        Some(3_600_000)
    } else {
        None
    }
}

/// What a number with a unit amounts to.
pub enum Amount {
    /// A duration in milliseconds.
    Millis(u64),
    NoNumber,
    Negative,
    NoUnit,
}

/// The milliseconds of a number of units: the product is taken in
/// double-precision arithmetic and its whole part is kept, up to the largest
/// `u64`.
pub open spec fn amount(number: Seq<char>, unit: Seq<char>) -> Amount {
    match number_parts(trimmed(number)) {
        None => Amount::NoNumber,
        Some(parts) => if parts.negative && parts.magnitude() > 0 {
            Amount::Negative
        } else {
            match unit_factor(unit) {
                None => Amount::NoUnit,
                Some(m) => {
                    let ms = scaled_floor(parts.magnitude(), m as nat);
                    if ms <= u64::MAX {
                        Amount::Millis(ms as u64)
                    } else {
                        Amount::Millis(u64::MAX)
                    }
                },
            }
        },
    }
}

/// The number in front of the first letter.
pub open spec fn number_of(text: Seq<char>) -> Seq<char> {
    text.take(first_alphabetic(text))
}

/// What follows the number; seconds if nothing does.
pub open spec fn unit_of(text: Seq<char>) -> Seq<char> {
    if first_alphabetic(text) < text.len() {
        text.skip(first_alphabetic(text))
    } else {
        "s"@
    }
}

proof fn lemma_digits_concat(a: Seq<char>, b: Seq<char>)
    ensures
        digits_value(a + b) == digits_value(a) * pow10(b.len()) + digits_value(b),
    decreases b.len(),
{
    if b.len() == 0 {
        assert(a + b =~= a);
        lemma_pow10(0);
        assert(digits_value(a) * 1 == digits_value(a));
    } else {
        let t = b.drop_last();
        lemma_digits_concat(a, t);
        lemma_pow10(t.len());
        assert((a + b).drop_last() =~= a + t);
        assert((a + b).last() == b.last());
        let x = digits_value(a);
        let y = digits_value(t);
        let p = pow10(t.len());
        assert((x * p + y) * 10 == x * (10 * p) + y * 10) by (nonlinear_arith);
    }
}

/// The last digits of a text as numbers, the lowest first.
fn fraction_digits(cs: &Vec<char>, from: usize) -> (r: Vec<u8>)
    requires
        from <= cs@.len(),
        all_digits(cs@.skip(from as int)),
    ensures
        r@.len() == cs@.len() - from,
        are_digits(r@),
        low_first(r@, r@.len()) == digits_value(cs@.skip(from as int)),
{
    let mut out: Vec<u8> = Vec::new();
    let mut i: usize = cs.len();
    let ghost all = cs@.skip(from as int);
    proof {
        assert(cs@.skip(i as int) =~= Seq::empty());
    }
    while i > from
        invariant
            from <= i <= cs@.len(),
            all == cs@.skip(from as int),
            all_digits(all),
            out@.len() == cs@.len() - i,
            are_digits(out@),
            low_first(out@, out@.len()) == digits_value(cs@.skip(i as int)),
        decreases i,
    {
        i -= 1;
        let c = cs[i];
        let ghost before = out@;
        proof {
            assert(all[i - from] == c);
            assert(is_digit(all[i - from]));
            let tail = cs@.skip(i as int + 1);
            assert(cs@.skip(i as int) =~= seq![c] + tail);
            lemma_digits_concat(seq![c], tail);
            assert(seq![c].drop_last() =~= Seq::empty());
            assert(digits_value(Seq::<char>::empty()) == 0);
            assert(digits_value(seq![c]) == c as int - '0' as int);
        }
        let d: u8 = (c as u32 - 48) as u8;
        out.push(d);
        proof {
            lemma_low_first_prefix(before, out@, before.len());
        }
    }
    out
}

proof fn lemma_low_first_prefix(a: Seq<u8>, b: Seq<u8>, n: nat)
    requires
        n <= a.len(),
        n <= b.len(),
        forall|i: int| 0 <= i < n ==> a[i] == b[i],
    ensures
        low_first(a, n) == low_first(b, n),
    decreases n,
{
    if n > 0 {
        lemma_low_first_prefix(a, b, (n - 1) as nat);
    }
}

proof fn lemma_digits_prefix(s: Seq<char>, i: int)
    requires
        0 <= i <= s.len(),
    ensures
        digits_value(s.take(i)) <= digits_value(s),
    decreases s.len() - i,
{
    if i < s.len() {
        lemma_digits_prefix(s, i + 1);
        assert(s.take(i + 1).drop_last() =~= s.take(i));
    } else {
        assert(s.take(i) =~= s);
    }
}

/// The whole part, unless it is too large to matter.
fn whole_value(cs: &Vec<char>, from: usize, to: usize) -> (r: Option<u128>)
    requires
        from <= to <= cs@.len(),
        all_digits(cs@.subrange(from as int, to as int)),
    ensures
        match r {
            Some(n) => n == digits_value(cs@.subrange(from as int, to as int)) && n < TWO_66,
            None => digits_value(cs@.subrange(from as int, to as int)) >= TWO_66,
        },
{
    let ghost s = cs@.subrange(from as int, to as int);
    let mut n: u128 = 0;
    let mut i: usize = from;
    proof {
        assert(s.take(0) =~= Seq::empty());
    }
    while i < to
        invariant
            from <= i <= to <= cs@.len(),
            s == cs@.subrange(from as int, to as int),
            all_digits(s),
            n == digits_value(s.take(i - from)),
            n < TWO_66,
        decreases to - i,
    {
        let c = cs[i];
        proof {
            assert(s[i - from] == c);
            assert(is_digit(s[i - from]));
            assert(s.take(i - from + 1).drop_last() =~= s.take(i - from));
            assert(s.take(i - from + 1).last() == c);
            lemma_digits_prefix(s, i - from + 1);
        }
        n = n * 10 + (c as u32 - 48) as u128;
        i += 1;
        if n >= TWO_66 {
            return None;
        }
    }
    proof {
        assert(s.take(i - from) =~= s);
    }
    Some(n)
}

/// A number of at least 2^66 is beyond the range of the result in any unit.
proof fn lemma_large(whole: nat, rest: nat, q: nat, m: nat)
    requires
        q > 0,
        whole >= TWO_66,
        m > 0,
    ensures
        nearest_double(whole * q + rest, q) > 0,
        scaled_floor(nearest_double(whole * q + rest, q), m) > u64::MAX,
{
    let e = pow2(SMALLEST_EXPONENT as nat);
    lemma_pow2_pos(SMALLEST_EXPONENT as nat);
    let p = (whole * q + rest) * e;
    let f = nearest_double(whole * q + rest, q);
    lemma_round_bound(p, q);
    assert(p >= (TWO_66 * e) * q) by (nonlinear_arith)
        requires
            p == (whole * q + rest) * e,
            whole >= TWO_66,
    ;
    lemma_div_is_ordered(((TWO_66 * e) * q) as int, p as int, q as int);
    lemma_div_by_multiple((TWO_66 * e) as int, q as int);
    assert(2 * f >= TWO_66 * e);
    assert(TWO_66 * e > 0) by (nonlinear_arith)
        requires
            e > 0,
    ;
    lemma_round_bound(f * m, 1);
    assert(f * m >= f) by (nonlinear_arith)
        requires
            m >= 1,
    ;
    let g = round53(f * m, 1);
    assert(4 * g >= TWO_66 * e);
    assert(g >= 18446744073709551616 * e) by (nonlinear_arith)
        requires
            4 * g >= TWO_66 * e,
    ;
    lemma_div_is_ordered((18446744073709551616 * e) as int, g as int, e as int);
    lemma_div_by_multiple(18446744073709551616, e as int);
}

/// The milliseconds of a unit.
fn factor_of(unit: &Vec<char>) -> (r: Option<u64>)
    ensures
        r == unit_factor(unit@),
{
    if chars_are(unit, "ms") {
        Some(1)
    } else if chars_are(unit, "s") || chars_are(unit, "sec") || chars_are(unit, "secs") {
        Some(1000)
    } else if chars_are(unit, "m") || chars_are(unit, "min") || chars_are(unit, "mins") {
        Some(60_000)
    } else if chars_are(unit, "h") || chars_are(unit, "hr") || chars_are(unit, "hrs") {
        Some(3_600_000)
    } else {
        None
    }
}

/// Computes what a number with a unit amounts to.
pub fn compute_amount(number: &Vec<char>, unit: &Vec<char>) -> (r: Amount)
    ensures
        r == amount(number@, unit@),
{
    let cs = trim(number);
    let ghost s = trimmed(number@);
    let mut start: usize = 0;
    let mut negative = false;
    if cs.len() > 0 && (cs[0] == '+' || cs[0] == '-') {
        negative = cs[0] == '-';
        start = 1;
    }
    let ghost body = cs@.skip(start as int);
    proof {
        if start == 0 {
            assert(body =~= cs@);
        }
    }
    let mut end: usize = start;
    proof {
        assert(cs@.skip(end as int) =~= body);
        assert(body.skip(0) =~= body);
    }
    while end < cs.len() && cs[end] != '.'
        invariant
            start <= end <= cs@.len(),
            body == cs@.skip(start as int),
            point(body) == end - start + point(cs@.skip(end as int)),
        decreases cs@.len() - end,
    {
        proof {
            assert(cs@.skip(end as int).skip(1) =~= cs@.skip(end + 1));
        }
        end += 1;
    }
    let tail: usize = if end < cs.len() {
        end + 1
    } else {
        end
    };
    let ghost whole = cs@.subrange(start as int, end as int);
    let ghost fraction = cs@.skip(tail as int);
    proof {
        assert(point(cs@.skip(end as int)) == 0);
        assert(body.take(end - start) =~= whole);
        if end < cs@.len() {
            assert(body.skip(end - start + 1) =~= fraction);
        } else {
            assert(fraction =~= Seq::empty());
        }
    }
    let mut i: usize = start;
    while i < cs.len()
        invariant
            start <= i <= cs@.len(),
            start <= end <= tail <= cs@.len(),
            tail <= end + 1,
            whole == cs@.subrange(start as int, end as int),
            fraction == cs@.skip(tail as int),
            s == trimmed(number@),
            number_parts(s) is Some ==> all_digits(whole) && all_digits(fraction),
            forall|k: int| start <= k < i && (k < end || k >= tail) ==> is_digit(#[trigger] cs@[k]),
        decreases cs@.len() - i,
    {
        let c = cs[i];
        if (i < end || i >= tail) && !('0' <= c && c <= '9') {
            proof {
                if i < end {
                    assert(!is_digit(whole[i - start]));
                } else {
                    assert(!is_digit(fraction[i - tail]));
                }
                assert(!(all_digits(whole) && all_digits(fraction)));
                assert(number_parts(s) is None);
            }
            return Amount::NoNumber;
        }
        i += 1;
    }
    proof {
        assert(all_digits(whole)) by {
            assert forall|k: int| 0 <= k < whole.len() implies is_digit(#[trigger] whole[k]) by {
                assert(is_digit(cs@[k + start]));
            }
        }
        assert(all_digits(fraction)) by {
            assert forall|k: int| 0 <= k < fraction.len() implies is_digit(
                #[trigger] fraction[k],
            ) by {
                assert(is_digit(cs@[k + tail]));
            }
        }
    }
    if end - start + (cs.len() - tail) == 0 {
        return Amount::NoNumber;
    }
    let ghost parts = NumberParts { negative, whole, fraction };
    proof {
        assert(number_parts(s) == Some(parts));
        lemma_digits_concat(whole, fraction);
        lemma_pow10(fraction.len());
    }
    let factor = factor_of(unit);
    match whole_value(&cs, start, end) {
        Some(n) => {
            let mut digits = fraction_digits(&cs, tail);
            let x = round_decimal(n, &mut digits);
            proof {
                assert(x.value() == parts.magnitude());
                lemma_pow2_pos(x.exponent as nat);
                assert(x.value() > 0 <==> x.mantissa > 0) by (nonlinear_arith)
                    requires
                        x.value() == x.mantissa as nat * pow2(x.exponent as nat),
                        pow2(x.exponent as nat) > 0,
                ;
            }
            if negative && x.mantissa > 0 {
                return Amount::Negative;
            }
            match factor {
                Some(m) => Amount::Millis(scale(x, m)),
                None => Amount::NoUnit,
            }
        },
        None => {
            proof {
                lemma_large(
                    digits_value(whole),
                    digits_value(fraction),
                    pow10(fraction.len()),
                    match factor {
                        Some(m) => m as nat,
                        None => 1,
                    },
                );
            }
            if negative {
                return Amount::Negative;
            }
            match factor {
                Some(_) => Amount::Millis(u64::MAX),
                None => Amount::NoUnit,
            }
        },
    }
}

/// The milliseconds that a text denotes.
pub open spec fn parsed_duration(s: Seq<char>) -> Result<u64, DurationProblem> {
    let text = trimmed(s);
    if text.len() == 0 {
        Err(DurationProblem::Empty)
    } else {
        match amount(number_of(text), unit_of(text)) {
            Amount::Millis(ms) => Ok(ms),
            Amount::NoNumber => Err(DurationProblem::InvalidNumber(text)),
            Amount::Negative => Err(DurationProblem::Negative),
            Amount::NoUnit => Err(DurationProblem::UnknownUnit(unit_of(text))),
        }
    }
}

/// Reads a duration, in milliseconds. A bare number is a number of seconds.
pub fn parse_duration(s: &str) -> (r: Result<u64, DurationError>)
    ensures
        match r {
            Ok(ms) => parsed_duration(s@) == Ok::<u64, DurationProblem>(ms),
            Err(e) => parsed_duration(s@) == Err::<u64, DurationProblem>(e@),
        },
{
    let cs = trim(&to_chars(s));
    if cs.len() == 0 {
        return Err(DurationError::Empty);
    }
    let k = find_alphabetic(&cs);
    let number = sub_chars(&cs, 0, k);
    let unit = if k < cs.len() {
        sub_chars(&cs, k, cs.len())
    } else {
        to_chars("s")
    };
    proof {
        assert(number@ =~= number_of(cs@));
        assert(unit@ =~= unit_of(cs@));
    }
    match compute_amount(&number, &unit) {
        Amount::Millis(ms) => Ok(ms),
        Amount::NoNumber => {
            let text = from_chars(&cs, 0, cs.len());
            proof {
                assert(text@ =~= cs@);
            }
            Err(DurationError::InvalidNumber(text))
        },
        Amount::Negative => Err(DurationError::Negative),
        Amount::NoUnit => {
            let text = from_chars(&unit, 0, unit.len());
            proof {
                assert(text@ =~= unit@);
            }
            Err(DurationError::UnknownUnit(text))
        },
    }
}

} // verus!
