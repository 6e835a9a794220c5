//! Decimal numbers rounded to 53 significant bits, as double-precision
//! arithmetic rounds them, computed on integers.

use vstd::arithmetic::div_mod::*;
use vstd::arithmetic::mul::*;
use vstd::arithmetic::power2::*;
use vstd::arithmetic::power::pow;
use vstd::arithmetic::power::lemma_pow_positive;
use vstd::arithmetic::power::lemma_pow0;
use vstd::arithmetic::power::lemma_pow_adds;
use vstd::arithmetic::power::lemma_pow1;
use vstd::prelude::*;

verus! {

/// 2 to the power of 53.
pub const TWO_53: u128 = 9007199254740992;

/// 2 to the power of 66.
pub const TWO_66: u128 = 73786976294838206464;

/// The power of two by which the smallest positive number is smaller than one.
pub const SMALLEST_EXPONENT: u32 = 1074;

/// `a / b` rounded to an integer, ties to the even one.
pub open spec fn half_even(a: nat, b: nat) -> nat {
    let d = a / b;
    let r = a % b;
    if 2 * r < b {
        d
    } else if 2 * r > b {
        d + 1
    } else {
        d + d % 2
    }
}

/// The distance between neighbouring numbers of 53 significant bits at `f`.
pub open spec fn spacing(f: nat) -> nat
    decreases f,
{
    if f < TWO_53 {
        1
    } else {
        2 * spacing(f / 2)
    }
}

/// `p / q` rounded to an integer of 53 significant bits.
pub open spec fn round53(p: nat, q: nat) -> nat {
    let u = spacing(p / q);
    half_even(p, q * u) * u
}

/// The double nearest to `p / q`, as a multiple of the smallest positive one.
pub open spec fn nearest_double(p: nat, q: nat) -> nat {
    round53(p * pow2(SMALLEST_EXPONENT as nat), q)
}

/// The whole part of the product of a double and a small integer, which is
/// itself rounded to a double first.
pub open spec fn scaled_floor(double: nat, m: nat) -> nat {
    round53(double * m, 1) / pow2(SMALLEST_EXPONENT as nat)
}

pub open spec fn pow10(k: nat) -> nat {
    pow(10, k) as nat
}

pub proof fn lemma_pow10(k: nat)
    ensures
        pow10(k) > 0,
        pow10(0) == 1,
        pow10(k + 1) == 10 * pow10(k),
{
    lemma_pow_positive(10, k);
    lemma_pow0(10);
    lemma_pow_adds(10, 1, k);
    lemma_pow1(10);
    lemma_pow_positive(10, k + 1);
}

proof fn lemma_spacing_positive(f: nat)
    ensures
        spacing(f) > 0,
        f >= TWO_53 ==> spacing(f) % 2 == 0,
        f >= TWO_53 ==> spacing(f) <= f,
        f < TWO_53 ==> spacing(f) == 1,
        f >= TWO_53 ==> 2 * spacing(f) <= f,
    decreases f,
{
    if f >= TWO_53 {
        lemma_spacing_positive(f / 2);
    }
}

proof fn lemma_half_even_double(a: nat, b: nat)
    requires
        b > 0,
    ensures
        half_even(2 * a, 2 * b) == half_even(a, b),
{
    lemma_fundamental_div_mod(a as int, b as int);
    let d = a / b;
    let r = a % b;
    lemma_mod_bound(a as int, b as int);
    assert(2 * a == d * (2 * b) + 2 * r) by (nonlinear_arith)
        requires
            a == b * d + r,
    ;
    lemma_fundamental_div_mod_converse(2 * a as int, 2 * b as int, d as int, 2 * r as int);
}

proof fn lemma_round_double(x: nat, q: nat)
    requires
        q > 0,
        2 * (x / q) >= TWO_53 || q == 1,
    ensures
        round53(2 * x, q) == 2 * round53(x, q),
{
    let f = x / q;
    let u = spacing(f);
    lemma_spacing_positive(f);
    lemma_div_denominator(2 * x as int, q as int, 2);
    lemma_div_denominator(2 * x as int, 2, q as int);
    assert((2 * x) / q / 2 == f) by {
        assert(q * 2 == 2 * q);
        assert((2 * x) / 2 == x);
    }
    lemma_fundamental_div_mod((2 * x) as int, q as int);
    lemma_fundamental_div_mod(x as int, q as int);
    assert((2 * x) / q >= 2 * f) by {
        lemma_div_is_ordered(2 * (f * q) as int, 2 * x as int, q as int);
        assert(2 * (f * q) <= 2 * x) by (nonlinear_arith)
            requires
                x == q * f + x % q,
                x % q >= 0,
        ;
        assert(2 * (f * q) == (2 * f) * q) by (nonlinear_arith);
        lemma_div_by_multiple((2 * f) as int, q as int);
    }
    if (2 * x) / q >= TWO_53 {
        assert(spacing((2 * x) / q) == 2 * u);
        assert(q * (2 * u) == 2 * (q * u)) by (nonlinear_arith);
        assert(q * u > 0) by (nonlinear_arith)
            requires
                q > 0,
                u > 0,
        ;
        lemma_half_even_double(x, q * u);
        assert(half_even(x, q * u) * (2 * u) == 2 * (half_even(x, q * u) * u))
            by (nonlinear_arith);
    } else {
        assert(q == 1);
        assert(u == 1);
        assert(half_even(x, 1) == x);
        assert(half_even(2 * x, 1) == 2 * x);
    }
}

/// Rounding commutes with multiplying by a power of two.
proof fn lemma_round_shift(x: nat, q: nat, s: nat)
    requires
        q > 0,
        2 * (x / q) >= TWO_53 || q == 1,
    ensures
        round53(x * pow2(s), q) == round53(x, q) * pow2(s),
    decreases s,
{
    if s == 0 {
        lemma2_to64();
        assert(x * pow2(0) == x);
        assert(round53(x, q) * pow2(0) == round53(x, q));
    } else {
        let t = (s - 1) as nat;
        lemma_pow2_unfold(s);
        lemma_pow2_pos(t);
        lemma_round_shift(x, q, t);
        let y = x * pow2(t);
        assert(x * pow2(s) == 2 * y) by (nonlinear_arith)
            requires
                pow2(s) == 2 * pow2(t),
                y == x * pow2(t),
        ;
        assert(x / q <= y / q) by {
            assert(x <= y) by (nonlinear_arith)
                requires
                    y == x * pow2(t),
                    pow2(t) >= 1,
            ;
            lemma_div_is_ordered(x as int, y as int, q as int);
        }
        lemma_round_double(y, q);
        assert(2 * (round53(x, q) * pow2(t)) == round53(x, q) * pow2(s)) by (nonlinear_arith)
            requires
                pow2(s) == 2 * pow2(t),
        ;
    }
}

proof fn lemma_round_whole(n: nat)
    requires
        n < TWO_53,
    ensures
        round53(n, 1) == n,
{
    assert(n / 1 == n) by (nonlinear_arith);
    assert(n % 1 == 0) by (nonlinear_arith);
    assert(spacing(n / 1) == 1);
    assert(1nat * 1nat == 1nat) by (nonlinear_arith);
    assert(half_even(n, 1 * spacing(n / 1)) == n);
    assert(n * 1nat == n) by (nonlinear_arith);
}

/// Whole numbers that have no more than 53 bits are kept, and so are their
/// products.
pub proof fn whole_numbers_are_exact(n: nat, m: nat)
    requires
        n < TWO_53,
        n * m < TWO_53,
    ensures
        scaled_floor(nearest_double(n, 1), m) == n * m,
        nearest_double(n, 1) > 0 <==> n > 0,
{
    let e = pow2(SMALLEST_EXPONENT as nat);
    lemma_pow2_pos(SMALLEST_EXPONENT as nat);
    lemma_round_shift(n, 1, SMALLEST_EXPONENT as nat);
    lemma_round_shift(n * m, 1, SMALLEST_EXPONENT as nat);
    lemma_div_by_multiple((n * m) as int, e as int);
    lemma_round_whole(n);
    lemma_round_whole(n * m);
    assert((n * e) * m == (n * m) * e) by (nonlinear_arith);
    assert(n * e > 0 <==> n > 0) by (nonlinear_arith)
        requires
            e > 0,
    ;
}

/// Rounding loses less than half.
pub proof fn lemma_round_bound(p: nat, q: nat)
    requires
        q > 0,
    ensures
        2 * round53(p, q) >= p / q,
        round53(p, q) <= 2 * (p / q) + 1,
{
    let f = p / q;
    let u = spacing(f);
    lemma_spacing_positive(f);
    assert(q * u > 0) by (nonlinear_arith)
        requires
            q > 0,
            u > 0,
    ;
    let d = p / (q * u);
    lemma_div_denominator(p as int, q as int, u as int);
    assert(d == f / u);
    lemma_fundamental_div_mod(f as int, u as int);
    lemma_mod_bound(f as int, u as int);
    let h = half_even(p, q * u);
    assert(d <= h <= d + 1);
    assert(h * u >= d * u) by (nonlinear_arith)
        requires
            h >= d,
    ;
    assert(h * u <= d * u + u) by (nonlinear_arith)
        requires
            h <= d + 1,
    ;
    assert(f == d * u + f % u) by (nonlinear_arith)
        requires
            f == u * (f / u) + f % u,
            d == f / u,
    ;
    if f < TWO_53 {
        assert(u == 1);
        assert(h * u == h) by (nonlinear_arith)
            requires
                u == 1,
        ;
        assert(d == f) by (nonlinear_arith)
            requires
                u == 1,
                f == d * u + f % u,
                f % u < u,
        ;
    }
}

/// Rounding a number given by its whole part `a`, which has more than 53
/// bits, and a remainder of `r / q`.
proof fn lemma_round_parts(a: nat, r: nat, q: nat)
    requires
        q > 0,
        r < q,
        a >= TWO_53,
    ensures
        round53(a * q + r, q) == (a / spacing(a) + (if a % spacing(a) > spacing(a) / 2 || (a
            % spacing(a) == spacing(a) / 2 && (r > 0 || (a / spacing(a)) % 2 == 1)) {
            1nat
        } else {
            0nat
        })) * spacing(a),
{
    let u = spacing(a);
    lemma_spacing_positive(a);
    let p = a * q + r;
    lemma_fundamental_div_mod_converse(p as int, q as int, a as int, r as int);
    assert(p / q == a);
    let d = a / u;
    let e = a % u;
    lemma_fundamental_div_mod(a as int, u as int);
    lemma_mod_bound(a as int, u as int);
    let rem = e * q + r;
    assert(p == d * (q * u) + rem) by (nonlinear_arith)
        requires
            p == a * q + r,
            a == u * d + e,
            rem == e * q + r,
    ;
    assert(rem < q * u) by (nonlinear_arith)
        requires
            rem == e * q + r,
            r < q,
            e < u,
            q > 0,
    ;
    lemma_fundamental_div_mod_converse(p as int, (q * u) as int, d as int, rem as int);
    let half = u / 2;
    assert(u == 2 * half);
    assert(q * u == 2 * (q * half)) by (nonlinear_arith)
        requires
            u == 2 * half,
    ;
    if e < half {
        assert(rem < q * half) by (nonlinear_arith)
            requires
                rem == e * q + r,
                r < q,
                e + 1 <= half,
                q > 0,
        ;
    } else if e == half {
        assert(rem == q * half + r) by (nonlinear_arith)
            requires
                rem == e * q + r,
                e == half,
        ;
    } else {
        assert(rem > q * half) by (nonlinear_arith)
            requires
                rem == e * q + r,
                e >= half + 1,
                q > 0,
        ;
    }
    assert(half_even(p, q * u) == d + (if e > half || (e == half && (r > 0 || d % 2 == 1)) {
        1nat
    } else {
        0nat
    }));
}

/// The value of the first `n` digits, the lowest first.
pub open spec fn low_first(digits: Seq<u8>, n: nat) -> nat
    decreases n,
{
    if n == 0 {
        0
    } else {
        low_first(digits, (n - 1) as nat) + digits[n - 1] as nat * pow10((n - 1) as nat)
    }
}

pub open spec fn are_digits(digits: Seq<u8>) -> bool {
    forall|i: int| 0 <= i < digits.len() ==> #[trigger] digits[i] < 10
}

proof fn lemma_low_first_same(a: Seq<u8>, b: Seq<u8>, n: nat)
    requires
        n <= a.len(),
        n <= b.len(),
        forall|i: int| 0 <= i < n ==> a[i] == b[i],
    ensures
        low_first(a, n) == low_first(b, n),
    decreases n,
{
    if n > 0 {
        lemma_low_first_same(a, b, (n - 1) as nat);
    }
}

proof fn lemma_low_first_bound(digits: Seq<u8>, n: nat)
    requires
        n <= digits.len(),
        are_digits(digits),
    ensures
        low_first(digits, n) < pow10(n),
    decreases n,
{
    lemma_pow10(0);
    if n > 0 {
        let m = (n - 1) as nat;
        lemma_low_first_bound(digits, m);
        lemma_pow10(m);
        let d = digits[n - 1] as nat;
        assert(digits[n - 1] < 10);
        assert(d * pow10(m) <= 9 * pow10(m)) by (nonlinear_arith)
            requires
                d <= 9,
        ;
    }
}

proof fn lemma_low_first_zero(digits: Seq<u8>, n: nat)
    requires
        n <= digits.len(),
    ensures
        low_first(digits, n) == 0 <==> forall|i: int| 0 <= i < n ==> #[trigger] digits[i] == 0,
    decreases n,
{
    if n > 0 {
        let m = (n - 1) as nat;
        lemma_low_first_zero(digits, m);
        lemma_pow10(m);
        let d = digits[n - 1] as nat;
        assert(d * pow10(m) == 0 <==> d == 0) by (nonlinear_arith)
            requires
                pow10(m) > 0,
        ;
        if low_first(digits, n) == 0 {
            assert forall|i: int| 0 <= i < n implies #[trigger] digits[i] == 0 by {
                if i == n - 1 {
                    assert(d == 0);
                }
            }
        } else if low_first(digits, m) == 0 {
            assert(digits[n - 1] != 0);
        }
    }
}

/// Doubles a fraction of decimal digits; the bit that leaves it.
fn double_fraction(digits: &mut Vec<u8>) -> (carry: u8)
    requires
        are_digits(old(digits)@),
    ensures
        are_digits(final(digits)@),
        final(digits)@.len() == old(digits)@.len(),
        carry <= 1,
        low_first(final(digits)@, final(digits)@.len()) + carry * pow10(final(digits)@.len()) == 2
            * low_first(old(digits)@, old(digits)@.len()),
{
    let ghost d0 = digits@;
    let n = digits.len();
    let mut carry: u8 = 0;
    let mut i: usize = 0;
    proof {
        lemma_pow10(0);
    }
    while i < n
        invariant
            n == digits@.len(),
            d0.len() == n,
            i <= n,
            carry <= 1,
            are_digits(d0),
            are_digits(digits@),
            forall|k: int| i <= k < n ==> digits@[k] == d0[k],
            low_first(digits@, i as nat) + carry * pow10(i as nat) == 2 * low_first(d0, i as nat),
        decreases n - i,
    {
        let ghost before = digits@;
        let ghost c0 = carry;
        let old_digit: u8 = digits[i];
        proof {
            assert(d0[i as int] < 10);
        }
        let sum: u8 = 2 * old_digit + carry;
        let low: u8 = sum % 10;
        digits[i] = low;
        carry = sum / 10;
        proof {
            lemma_low_first_same(before, digits@, i as nat);
            lemma_pow10(i as nat);
            let p = pow10(i as nat);
            assert(low as nat * p + carry as nat * (10 * p) == (2 * old_digit as nat + c0 as nat)
                * p) by (nonlinear_arith)
                requires
                    2 * old_digit as nat + c0 as nat == 10 * carry as nat + low as nat,
            ;
            assert((2 * old_digit as nat + c0 as nat) * p == 2 * (old_digit as nat * p) + c0 as nat
                * p) by (nonlinear_arith);
        }
        i += 1;
    }
    carry
}

fn has_nonzero(digits: &Vec<u8>) -> (r: bool)
    ensures
        r == (low_first(digits@, digits@.len()) > 0),
{
    proof {
        lemma_low_first_zero(digits@, digits@.len());
    }
    let mut i: usize = 0;
    while i < digits.len()
        invariant
            i <= digits@.len(),
            forall|k: int| 0 <= k < i ==> #[trigger] digits@[k] == 0,
        decreases digits@.len() - i,
    {
        if digits[i] != 0 {
            proof {
                lemma_low_first_zero(digits@, digits@.len());
            }
            return true;
        }
        i += 1;
    }
    false
}

/// A double as `mantissa * 2^exponent` multiples of the smallest positive
/// one.
pub struct Double {
    pub mantissa: u128,
    pub exponent: u32,
}

impl Double {
    pub open spec fn value(self) -> nat {
        self.mantissa as nat * pow2(self.exponent as nat)
    }

    pub open spec fn wf(self) -> bool {
        self.mantissa <= 2 * TWO_66 && self.exponent <= SMALLEST_EXPONENT
    }
}

/// Rounds `whole + fraction` to a double.
pub(crate) fn round_decimal(whole: u128, fraction: &mut Vec<u8>) -> (r: Double)
    requires
        whole < TWO_66,
        are_digits(old(fraction)@),
    ensures
        r.wf(),
        r.value() == nearest_double(
            whole as nat * pow10(old(fraction)@.len()) + low_first(
                old(fraction)@,
                old(fraction)@.len(),
            ),
            pow10(old(fraction)@.len()),
        ),
{
    let ghost k = fraction@.len();
    let ghost q = pow10(k);
    let ghost d = whole as nat * q + low_first(fraction@, k);
    let mut a: u128 = whole;
    let mut j: u32 = 0;
    proof {
        lemma_pow10(k);
        lemma2_to64();
        assert(d * pow2(0) == d);
    }
    while a < TWO_53 && j < SMALLEST_EXPONENT
        invariant
            a < TWO_66,
            j <= SMALLEST_EXPONENT,
            fraction@.len() == k,
            are_digits(fraction@),
            q == pow10(k),
            q > 0,
            d * pow2(j as nat) == a as nat * q + low_first(fraction@, k),
        decreases SMALLEST_EXPONENT - j,
    {
        let ghost r0 = low_first(fraction@, k);
        let ghost a0 = a as nat;
        let carry = double_fraction(fraction);
        a = 2 * a + carry as u128;
        proof {
            let r1 = low_first(fraction@, k);
            lemma_pow2_unfold((j + 1) as nat);
            assert(d * pow2((j + 1) as nat) == 2 * (d * pow2(j as nat))) by (nonlinear_arith)
                requires
                    pow2((j + 1) as nat) == 2 * pow2(j as nat),
            ;
            assert(2 * (a0 * q + r0) == a as nat * q + r1) by (nonlinear_arith)
                requires
                    a as nat == 2 * a0 + carry as nat,
                    r1 + carry as nat * q == 2 * r0,
            ;
        }
        j += 1;
    }
    let ghost r = low_first(fraction@, k);
    proof {
        lemma_low_first_bound(fraction@, k);
    }
    if a >= TWO_53 {
        let sticky = has_nonzero(fraction);
        let mut unit: u128 = 1;
        let mut top: u128 = a;
        proof {
            lemma_spacing_positive(a as nat);
            assert(a as nat / 1 == a as nat);
        }
        while top >= TWO_53
            invariant
                TWO_53 <= a < TWO_66,
                top <= a,
                unit >= 1,
                unit * top <= a,
                spacing(a as nat) == unit * spacing(top as nat),
            decreases top,
        {
            proof {
                assert((2 * unit) * (top / 2) <= unit * top) by (nonlinear_arith)
                    requires
                        2 * (top / 2) <= top,
                        unit >= 1,
                ;
                assert((2 * unit) * spacing(top as nat / 2) == unit * (2 * spacing(top as nat / 2)))
                    by (nonlinear_arith);
                assert(unit <= a) by (nonlinear_arith)
                    requires
                        unit * top <= a,
                        top >= 1,
                ;
            }
            top = top / 2;
            unit = 2 * unit;
        }
        proof {
            assert(spacing(top as nat) == 1);
            assert(unit * 1 == unit);
            assert(spacing(a as nat) == unit);
        }
        let count: u128 = a / unit;
        let rest: u128 = a % unit;
        let half: u128 = unit / 2;
        let up: bool = rest > half || (rest == half && (sticky || count % 2 == 1));
        let rounded: u128 = if up {
            count + 1
        } else {
            count
        };
        proof {
            lemma_round_parts(a as nat, r, q);
            lemma_fundamental_div_mod(a as int, unit as int);
            assert(rounded * unit <= a + unit) by (nonlinear_arith)
                requires
                    rounded <= count + 1,
                    unit * count <= a,
            ;
            let s = (SMALLEST_EXPONENT - j) as nat;
            lemma_pow2_adds(j as nat, s);
            lemma_fundamental_div_mod_converse(
                (a as nat * q + r) as int,
                q as int,
                a as int,
                r as int,
            );
            lemma_round_shift(a as nat * q + r, q, s);
            assert(d * pow2(SMALLEST_EXPONENT as nat) == (d * pow2(j as nat)) * pow2(s))
                by (nonlinear_arith)
                requires
                    pow2(SMALLEST_EXPONENT as nat) == pow2(j as nat) * pow2(s),
            ;
        }
        Double { mantissa: rounded * unit, exponent: SMALLEST_EXPONENT - j }
    } else {
        let ghost p = a as nat * q + r;
        let carry = double_fraction(fraction);
        let sticky = has_nonzero(fraction);
        let rounded: u128 = if carry == 1 && (sticky || a % 2 == 1) {
            a + 1
        } else {
            a
        };
        proof {
            let r1 = low_first(fraction@, k);
            lemma_low_first_bound(fraction@, k);
            lemma_fundamental_div_mod_converse(p as int, q as int, a as int, r as int);
            assert(p / q == a as nat);
            assert(spacing(a as nat) == 1);
            assert(q * 1 == q);
            assert(half_even(p, q) == rounded);
            lemma2_to64();
            assert(rounded as nat * pow2(0) == rounded as nat);
            assert(half_even(p, q) * 1 == rounded);
        }
        Double { mantissa: rounded, exponent: 0 }
    }
}

/// The whole part of `x * m`, where the product is rounded like any double.
pub(crate) fn scale(x: Double, m: u64) -> (r: u64)
    requires
        x.wf(),
        0 < m <= 4_000_000,
    ensures
        r == (if scaled_floor(x.value(), m as nat) <= u64::MAX {
            scaled_floor(x.value(), m as nat)
        } else {
            u64::MAX as nat
        }),
{
    proof {
        assert(x.mantissa as int * m as int <= (2 * TWO_66) * 4_000_000) by (nonlinear_arith)
            requires
                x.mantissa <= 2 * TWO_66,
                m <= 4_000_000,
        ;
    }
    let product: u128 = x.mantissa * m as u128;
    let mut unit: u128 = 1;
    let mut top: u128 = product;
    while top >= TWO_53
        invariant
            product <= (2 * TWO_66) * 4_000_000,
            top <= product,
            unit >= 1,
            unit * top <= product,
            spacing(product as nat) == unit * spacing(top as nat),
        decreases top,
    {
        proof {
            assert((2 * unit) * (top / 2) <= unit * top) by (nonlinear_arith)
                requires
                    2 * (top / 2) <= top,
                    unit >= 1,
            ;
            assert((2 * unit) * spacing(top as nat / 2) == unit * (2 * spacing(top as nat / 2)))
                by (nonlinear_arith);
            assert(unit <= product) by (nonlinear_arith)
                requires
                    unit * top <= product,
                    top >= 1,
            ;
        }
        top = top / 2;
        unit = 2 * unit;
    }
    proof {
        lemma_spacing_positive(product as nat);
        assert(spacing(top as nat) == 1);
        assert(unit * 1 == unit);
        assert(spacing(product as nat) == unit);
    }
    let count: u128 = product / unit;
    let rest: u128 = product % unit;
    let mut rounded: u128 = count;
    if product >= TWO_53 {
        let half: u128 = unit / 2;
        if rest > half || (rest == half && count % 2 == 1) {
            rounded = count + 1;
        }
    }
    proof {
        lemma_fundamental_div_mod(product as int, unit as int);
        assert(unit * rounded <= product + unit) by (nonlinear_arith)
            requires
                rounded <= count + 1,
                unit * count <= product,
        ;
        assert(rounded * unit == unit * rounded) by (nonlinear_arith);
        assert(1 * unit == unit);
        if product >= TWO_53 {
            lemma_round_parts(product as nat, 0, 1);
            assert(product as nat * 1 + 0 == product as nat);
        } else {
            assert(count == product) by (nonlinear_arith)
                requires
                    unit == 1,
                    count == product / unit,
            ;
            assert(half_even(product as nat, 1) == product);
        }
        assert(round53(product as nat, 1) == rounded * unit);
    }
    let mut value: u128 = rounded * unit;
    let mut shift: u32 = SMALLEST_EXPONENT - x.exponent;
    let ghost v0 = value as nat;
    proof {
        let e = x.exponent as nat;
        let s = shift as nat;
        lemma_round_shift(product as nat, 1, e);
        assert(x.value() * m as nat == product as nat * pow2(e)) by (nonlinear_arith)
            requires
                x.value() == x.mantissa as nat * pow2(e),
                product as nat == x.mantissa as nat * m as nat,
        ;
        lemma_pow2_adds(e, s);
        lemma_pow2_pos(e);
        lemma_pow2_pos(s);
        assert(v0 * pow2(e) / (pow2(e) * pow2(s)) == v0 / pow2(s)) by {
            lemma_div_denominator((v0 * pow2(e)) as int, pow2(e) as int, pow2(s) as int);
            lemma_div_by_multiple(v0 as int, pow2(e) as int);
        }
        assert(scaled_floor(x.value(), m as nat) == v0 / pow2(s));
    }
    while shift > 0 && value > 0
        invariant
            value as nat / pow2(shift as nat) == v0 / pow2((SMALLEST_EXPONENT - x.exponent) as nat),
        decreases shift,
    {
        proof {
            lemma_pow2_unfold(shift as nat);
            lemma_pow2_pos((shift - 1) as nat);
            lemma_div_denominator(value as int, 2, pow2((shift - 1) as nat) as int);
        }
        value = value / 2;
        shift -= 1;
    }
    proof {
        lemma2_to64();
        lemma_pow2_pos(shift as nat);
        if shift > 0 {
            lemma_div_basics(pow2(shift as nat) as int);
            assert(value as nat / pow2(shift as nat) == 0);
        } else {
            assert(value as nat / 1 == value as nat);
        }
    }
    if value <= u64::MAX as u128 {
        value as u64
    } else {
        u64::MAX
    }
}

} // verus!
