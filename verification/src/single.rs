//! Numbers in single precision (IEEE 754 binary32), held as their 32 bits and
//! computed on with integers alone.
//!
//! A finite number is a whole count of steps of 2^-149, the smallest positive
//! value of the format. A result that is no such count is rounded to the nearest
//! one that the format holds, and to the one with an even last bit where two are
//! equally near: `nearest` says how, and `nearest_is_nearest` and
//! `nearest_prefers_even` prove that it does. Which of the many NaN patterns an
//! operation gives is not modelled: every NaN result is the one pattern `NAN_BITS`.

use vstd::prelude::*;
use vstd::arithmetic::div_mod::{
    lemma_div_pos_is_pos, lemma_fundamental_div_mod, lemma_fundamental_div_mod_converse,
    lemma_mod_bound,
};
use vstd::arithmetic::power2::{
    lemma2_to64, lemma2_to64_rest, lemma_pow2_adds, lemma_pow2_pos, lemma_pow2_strictly_increases,
    lemma_pow2_unfold, pow2,
};

verus! {

/// The bit that holds the sign.
pub const SIGN_BIT: u32 = 0x8000_0000;

/// The bits of positive infinity; a larger magnitude is a NaN.
pub const INFINITY_BITS: u32 = 0x7f80_0000;

/// The bits of the NaN that stands for every NaN.
pub const NAN_BITS: u32 = 0x7fc0_0000;

/// The bits without the sign.
pub open spec fn magnitude(bits: u32) -> nat {
    (bits % SIGN_BIT) as nat
}

pub open spec fn is_negative(bits: u32) -> bool {
    bits >= SIGN_BIT
}

pub open spec fn is_nan(bits: u32) -> bool {
    magnitude(bits) > INFINITY_BITS
}

pub open spec fn is_infinite(bits: u32) -> bool {
    magnitude(bits) == INFINITY_BITS
}

/// The sign bit of a product or a quotient of `a` and `b`.
pub open spec fn sign_of(a: u32, b: u32) -> nat {
    if is_negative(a) != is_negative(b) {
        SIGN_BIT as nat
    } else {
        0
    }
}

/// How often the step doubles up to the magnitude `m`: 0 for the subnormal numbers
/// and the first range of normal ones, and one more for each range above.
pub open spec fn binade(m: nat) -> nat {
    if m < 0x100_0000 {
        0
    } else {
        (m / 0x80_0000 - 1) as nat
    }
}

/// The digits of the magnitude `m`, hidden bit included.
pub open spec fn digits(m: nat) -> nat {
    (m - binade(m) * 0x80_0000) as nat
}

/// The value of the magnitude `m`, counted in steps of 2^-149.
/// For the bits of infinity this is 2^277, the first power of two out of range.
pub open spec fn steps(m: nat) -> nat {
    digits(m) * pow2(binade(m))
}

/// The number of binary digits of `n`.
pub open spec fn bit_length(n: nat) -> nat
    decreases n,
{
    if n == 0 {
        0
    } else {
        1 + bit_length(n / 2)
    }
}

/// `a / b` rounded to the nearest whole number, and to the even one of two that
/// are equally near.
pub open spec fn round_half_even(a: nat, b: nat) -> nat {
    let q = a / b;
    let r = a % b;
    if 2 * r > b || (2 * r == b && q % 2 == 1) {
        q + 1
    } else {
        q
    }
}

/// A magnitude that has passed the largest finite one is infinity.
pub open spec fn capped(m: nat) -> nat {
    if m >= INFINITY_BITS {
        INFINITY_BITS as nat
    } else {
        m
    }
}

/// The magnitude nearest to `num / den` steps. The whole part of the quotient
/// shows by how many bits it is too long for 24 digits; the step is doubled so
/// often, and the quotient by that step is rounded. Range and digits add up to
/// the magnitude, a carry out of the digits included.
pub open spec fn nearest(num: nat, den: nat) -> nat {
    let length = bit_length(num / den);
    let k: nat = if length > 24 {
        (length - 24) as nat
    } else {
        0
    };
    capped(k * 0x80_0000 + round_half_even(num, den * pow2(k)))
}

/// The bits of the whole number `n` in single precision.
pub open spec fn from_nat(n: nat) -> u32 {
    nearest(n * pow2(149), 1) as u32
}

/// The bits of `a` times `b`.
pub open spec fn product(a: u32, b: u32) -> u32 {
    if is_nan(a) || is_nan(b) {
        NAN_BITS
    } else if is_infinite(a) || is_infinite(b) {
        if magnitude(a) == 0 || magnitude(b) == 0 {
            NAN_BITS
        } else {
            (sign_of(a, b) + INFINITY_BITS) as u32
        }
    } else {
        (sign_of(a, b) + nearest(steps(magnitude(a)) * steps(magnitude(b)), pow2(149))) as u32
    }
}

/// The bits of `a` divided by `b`.
pub open spec fn quotient(a: u32, b: u32) -> u32 {
    if is_nan(a) || is_nan(b) {
        NAN_BITS
    } else if is_infinite(a) {
        if is_infinite(b) {
            NAN_BITS
        } else {
            (sign_of(a, b) + INFINITY_BITS) as u32
        }
    } else if is_infinite(b) {
        sign_of(a, b) as u32
    } else if magnitude(b) == 0 {
        if magnitude(a) == 0 {
            NAN_BITS
        } else {
            (sign_of(a, b) + INFINITY_BITS) as u32
        }
    } else {
        (sign_of(a, b) + nearest(steps(magnitude(a)) * pow2(149), steps(magnitude(b)))) as u32
    }
}

/// The whole number that is left of `a` when its fraction is cut off, kept within
/// 32 bits: 0 for a NaN and for what is below zero, the largest number of 32 bits
/// for what is above it.
pub open spec fn truncated(a: u32) -> u32 {
    if is_nan(a) || is_negative(a) {
        0
    } else if steps(magnitude(a)) / pow2(149) > u32::MAX {
        u32::MAX
    } else {
        (steps(magnitude(a)) / pow2(149)) as u32
    }
}

pub proof fn lemma_bit_length_bounds(n: nat)
    ensures
        n < pow2(bit_length(n)),
        n > 0 ==> bit_length(n) >= 1 && pow2((bit_length(n) - 1) as nat) <= n,
    decreases n,
{
    lemma2_to64();
    if n > 0 {
        lemma_bit_length_bounds(n / 2);
        lemma_pow2_unfold(bit_length(n));
        if n / 2 > 0 {
            lemma_pow2_unfold((bit_length(n) - 1) as nat);
        }
    }
}

/// The number of binary digits of `n` is the one length whose range holds `n`.
pub proof fn lemma_bit_length_is(n: nat, length: nat)
    requires
        length >= 1,
        pow2((length - 1) as nat) <= n < pow2(length),
    ensures
        bit_length(n) == length,
{
    lemma_pow2_pos((length - 1) as nat);
    lemma_bit_length_bounds(n);
    let l = bit_length(n);
    if l < length {
        if l < length - 1 {
            lemma_pow2_strictly_increases(l, (length - 1) as nat);
        }
    } else if l > length {
        if l - 1 > length {
            lemma_pow2_strictly_increases(length, (l - 1) as nat);
        }
    }
}

pub proof fn lemma_bit_length_below(n: nat, length: nat)
    requires
        n < pow2(length),
    ensures
        bit_length(n) <= length,
{
    lemma_bit_length_bounds(n);
    let l = bit_length(n);
    if l > length {
        if l - 1 > length {
            lemma_pow2_strictly_increases(length, (l - 1) as nat);
        }
    }
}

/// Two fractions of one value have the same whole part, and remainders in the
/// ratio of their denominators.
pub proof fn lemma_same_fraction(x1: nat, y1: nat, x2: nat, y2: nat)
    requires
        y1 > 0,
        y2 > 0,
        x1 * y2 == x2 * y1,
    ensures
        x1 / y1 == x2 / y2,
        (x1 % y1) * y2 == (x2 % y2) * y1,
{
    let q = (x1 / y1) as int;
    let r1 = (x1 % y1) as int;
    lemma_fundamental_div_mod(x1 as int, y1 as int);
    lemma_mod_bound(x1 as int, y1 as int);
    lemma_div_pos_is_pos(x1 as int, y1 as int);
    let t = x2 - q * y2;
    assert(t * y1 == r1 * y2) by (nonlinear_arith)
        requires
            x1 == y1 * q + r1,
            x1 * y2 == x2 * y1,
            t == x2 - q * y2,
    ;
    assert(0 <= t < y2) by (nonlinear_arith)
        requires
            t * y1 == r1 * y2,
            0 <= r1 < y1,
            y2 > 0,
    ;
    lemma_fundamental_div_mod_converse(x2 as int, y2 as int, q, t);
}

/// Two fractions of one value round to the same whole number.
pub proof fn lemma_same_rounding(x1: nat, y1: nat, x2: nat, y2: nat)
    requires
        y1 > 0,
        y2 > 0,
        x1 * y2 == x2 * y1,
    ensures
        round_half_even(x1, y1) == round_half_even(x2, y2),
{
    lemma_same_fraction(x1, y1, x2, y2);
    let r1 = x1 % y1;
    let r2 = x2 % y2;
    assert((2 * r1 > y1) == (2 * r2 > y2) && (2 * r1 == y1) == (2 * r2 == y2)) by (nonlinear_arith)
        requires
            r1 * y2 == r2 * y1,
            y1 > 0,
            y2 > 0,
    ;
}

/// Where `num / den` is `a / b` with the step doubled `k` times, and `a / b` is
/// within 24 digits (and fills them, unless `k` is 0), the magnitude nearest to
/// `num / den` has range `k` and the digits of `a / b` rounded.
pub proof fn lemma_nearest_is(num: nat, den: nat, a: nat, b: nat, k: nat)
    requires
        den > 0,
        b > 0,
        num * b == a * (den * pow2(k)),
        a < 0x100_0000 * b,
        k > 0 ==> a >= 0x80_0000 * b,
    ensures
        nearest(num, den) == capped(k * 0x80_0000 + round_half_even(a, b)),
{
    lemma2_to64();
    lemma_pow2_pos(k);
    let unit = den * pow2(k);
    assert(unit > 0) by (nonlinear_arith)
        requires
            unit == den * pow2(k),
            den > 0,
            pow2(k) > 0,
    ;
    let whole = num / den;
    lemma_fundamental_div_mod(num as int, den as int);
    lemma_mod_bound(num as int, den as int);
    lemma_div_pos_is_pos(num as int, den as int);
    // num < 2^(24 + k) * den
    lemma_pow2_adds(24, k);
    assert(num < pow2(24 + k) * den) by (nonlinear_arith)
        requires
            num * b == a * (den * pow2(k)),
            a < 0x100_0000 * b,
            b > 0,
            den > 0,
            pow2(k) > 0,
            pow2(24 + k) == 0x100_0000 * pow2(k),
    ;
    assert(whole < pow2(24 + k)) by (nonlinear_arith)
        requires
            num == den * whole + num % den,
            0 <= num % den,
            num < pow2(24 + k) * den,
            den > 0,
    ;
    if k > 0 {
        lemma_pow2_adds(23, k);
        assert(num >= pow2(23 + k) * den) by (nonlinear_arith)
            requires
                num * b == a * (den * pow2(k)),
                a >= 0x80_0000 * b,
                b > 0,
                den > 0,
                pow2(k) > 0,
                pow2(23 + k) == 0x80_0000 * pow2(k),
        ;
        assert(whole >= pow2(23 + k)) by (nonlinear_arith)
            requires
                num == den * whole + num % den,
                num % den < den,
                num >= pow2(23 + k) * den,
                den > 0,
        ;
        lemma_bit_length_is(whole, 24 + k);
    } else {
        lemma_bit_length_below(whole, 24);
    }
    lemma_same_rounding(num, unit, a, b);
}

/// Doubling `k` times and then halving `k + e` times is halving `e` times.
pub proof fn lemma_halve(d: nat, k: nat, e: nat)
    ensures
        (d * pow2(k)) / pow2(k + e) == d / pow2(e),
{
    lemma_pow2_pos(k);
    lemma_pow2_pos(e);
    lemma_pow2_pos(k + e);
    lemma_pow2_adds(k, e);
    assert((d * pow2(k)) * pow2(e) == d * pow2(k + e)) by (nonlinear_arith)
        requires
            pow2(k + e) == pow2(k) * pow2(e),
    ;
    lemma_same_fraction(d * pow2(k), pow2(k + e), d, pow2(e));
}

/// Doubling `k + e` times and then halving `k` times is doubling `e` times.
pub proof fn lemma_double(d: nat, k: nat, e: nat)
    ensures
        (d * pow2(k + e)) / pow2(k) == d * pow2(e),
{
    lemma_pow2_pos(k);
    lemma_pow2_adds(k, e);
    assert((d * pow2(k + e)) * 1 == (d * pow2(e)) * pow2(k)) by (nonlinear_arith)
        requires
            pow2(k + e) == pow2(k) * pow2(e),
    ;
    lemma_same_fraction(d * pow2(k + e), pow2(k), d * pow2(e), 1);
}

/// A finite magnitude has a range of at most 253 and digits within 24 bits,
/// which are all in use above the first range.
pub proof fn lemma_digits_range(m: nat)
    requires
        m < 0x7f80_0000,
    ensures
        binade(m) <= 253,
        digits(m) < 0x100_0000,
        binade(m) > 0 ==> digits(m) >= 0x80_0000,
        m == binade(m) * 0x80_0000 + digits(m),
{
}

/// Nothing at all rounds to zero.
pub proof fn lemma_nearest_zero(den: nat)
    requires
        den > 0,
    ensures
        nearest(0, den) == 0,
{
    lemma2_to64();
    assert(0 * 1 == 0 * (den * pow2(0))) by (nonlinear_arith);
    lemma_nearest_is(0, den, 0, 1, 0);
}

/// The magnitude of range `k` and digits `d` has that range and those digits.
pub proof fn lemma_parts_of(k: nat, d: nat)
    requires
        d < 0x100_0000,
        k > 0 ==> d >= 0x80_0000,
    ensures
        binade(k * 0x80_0000 + d) == k,
        digits(k * 0x80_0000 + d) == d,
        steps(k * 0x80_0000 + d) == d * pow2(k),
{
}

/// A value that the format holds is rounded to itself.
pub proof fn lemma_nearest_exact(num: nat, den: nat, m: nat)
    requires
        den > 0,
        m < 0x7f80_0000,
        steps(m) * den == num,
    ensures
        nearest(num, den) == m,
{
    lemma_digits_range(m);
    let k = binade(m);
    let d = digits(m);
    assert(num * 1 == d * (den * pow2(k))) by (nonlinear_arith)
        requires
            (d * pow2(k)) * den == num,
    ;
    lemma_nearest_is(num, den, d, 1, k);
}

/// How far the value of the magnitude `m` is from `num / den` steps, counted in
/// parts of `den` of a step.
pub open spec fn distance(m: nat, num: nat, den: nat) -> int {
    if steps(m) * den >= num {
        steps(m) * den - num
    } else {
        num - steps(m) * den
    }
}

/// The range that `nearest` takes for `num / den`.
pub open spec fn range_of(num: nat, den: nat) -> nat {
    let length = bit_length(num / den);
    if length > 24 {
        (length - 24) as nat
    } else {
        0
    }
}

/// A magnitude up to that of infinity has a range of at most 254 and digits
/// within 24 bits, which are all in use above the first range.
pub proof fn lemma_digits_range_to_infinity(m: nat)
    requires
        m <= 0x7f80_0000,
    ensures
        binade(m) <= 254,
        digits(m) < 0x100_0000,
        binade(m) > 0 ==> digits(m) >= 0x80_0000,
        m == binade(m) * 0x80_0000 + digits(m),
{
}

/// A larger magnitude has a larger value.
pub proof fn lemma_steps_increase(x: nat, y: nat)
    requires
        x < y <= 0x7f80_0000,
    ensures
        steps(x) < steps(y),
{
    lemma_digits_range_to_infinity(x);
    lemma_digits_range_to_infinity(y);
    let kx = binade(x);
    let ky = binade(y);
    lemma_pow2_pos(kx);
    lemma_pow2_pos(ky);
    if kx == ky {
        assert(digits(x) * pow2(kx) < digits(y) * pow2(ky)) by (nonlinear_arith)
            requires
                digits(x) < digits(y),
                pow2(kx) == pow2(ky),
                pow2(kx) > 0,
        ;
    } else {
        lemma_pow2_unfold(kx + 1);
        if kx + 1 < ky {
            lemma_pow2_strictly_increases(kx + 1, ky);
        }
        assert(digits(x) * pow2(kx) < digits(y) * pow2(ky)) by (nonlinear_arith)
            requires
                digits(x) < 0x100_0000,
                digits(y) >= 0x80_0000,
                pow2(kx + 1) == 2 * pow2(kx),
                pow2(kx + 1) <= pow2(ky),
                pow2(kx) > 0,
        ;
    }
}

/// In the range that `nearest` takes, the quotient is within 24 digits, and
/// fills them above the first range.
pub proof fn lemma_range_fits(num: nat, den: nat)
    requires
        den > 0,
    ensures
        num / (den * pow2(range_of(num, den))) < 0x100_0000,
        range_of(num, den) > 0 ==> num / (den * pow2(range_of(num, den))) >= 0x80_0000,
        den * pow2(range_of(num, den)) > 0,
{
    lemma2_to64();
    let k = range_of(num, den);
    let whole = num / den;
    let d = pow2(k);
    lemma_pow2_pos(k);
    lemma_div_pos_is_pos(num as int, den as int);
    lemma_bit_length_bounds(whole);
    vstd::arithmetic::div_mod::lemma_div_denominator(num as int, den as int, d as int);
    let q = whole / d;
    assert(q == num / (den * d));
    lemma_fundamental_div_mod(whole as int, d as int);
    lemma_mod_bound(whole as int, d as int);
    assert(den * d > 0) by (nonlinear_arith)
        requires
            den > 0,
            d > 0,
    ;
    if k > 0 {
        lemma_pow2_adds(24, k);
        lemma_pow2_adds(23, k);
        assert(q < 0x100_0000 && q >= 0x80_0000) by (nonlinear_arith)
            requires
                whole == d * q + whole % d,
                0 <= whole % d < d,
                0x80_0000 * d <= whole < 0x100_0000 * d,
                d > 0,
        ;
    } else {
        if bit_length(whole) < 24 {
            lemma_pow2_strictly_increases(bit_length(whole), 24);
        }
        assert(q == whole) by (nonlinear_arith)
            requires
                whole == d * q + whole % d,
                0 <= whole % d < d,
                d == 1,
        ;
    }
}

/// No value of the format, infinity taken as the first power of two out of
/// range, is nearer to `num / den` than the one that `nearest` gives.
pub proof fn nearest_is_nearest(num: nat, den: nat, x: nat)
    requires
        den > 0,
        x <= 0x7f80_0000,
    ensures
        distance(nearest(num, den), num, den) <= distance(x, num, den),
{
    lemma2_to64();
    lemma_range_fits(num, den);
    let k = range_of(num, den);
    let unit = den * pow2(k);
    let q = num / unit;
    let r = num % unit;
    lemma_fundamental_div_mod(num as int, unit as int);
    lemma_mod_bound(num as int, unit as int);
    lemma_pow2_pos(k);
    let lo = k * 0x80_0000 + q;
    let m = nearest(num, den);
    lemma_parts_of(k, q);
    assert(steps(lo) * den == q * unit) by (nonlinear_arith)
        requires
            steps(lo) == q * pow2(k),
            unit == den * pow2(k),
    ;
    if lo >= 0x7f80_0000 {
        // out of range: nothing is nearer than infinity
        assert(k >= 254);
        lemma_parts_of(254, 0x80_0000);
        if k > 254 {
            lemma_pow2_strictly_increases(254, k);
        }
        assert(steps(0x7f80_0000) <= steps(lo)) by (nonlinear_arith)
            requires
                steps(0x7f80_0000) == 0x80_0000 * pow2(254),
                steps(lo) == q * pow2(k),
                q >= 0x80_0000,
                pow2(254) <= pow2(k),
        ;
        if x < 0x7f80_0000 {
            lemma_steps_increase(x, 0x7f80_0000);
        }
        assert(steps(x) * den <= steps(m) * den && steps(m) * den <= num) by (nonlinear_arith)
            requires
                steps(x) <= steps(m),
                steps(m) <= steps(lo),
                steps(lo) * den == q * unit,
                num == unit * q + r,
                r >= 0,
                den > 0,
        ;
    } else {
        let hi = lo + 1;
        if q + 1 < 0x100_0000 {
            lemma_parts_of(k, q + 1);
        } else {
            lemma_parts_of(k + 1, 0x80_0000);
            lemma_pow2_unfold(k + 1);
        }
        assert(steps(hi) * den == (q + 1) * unit) by (nonlinear_arith)
            requires
                steps(hi) == (q + 1) * pow2(k) || (q + 1 == 0x100_0000 && steps(hi) == 0x80_0000
                    * pow2(k + 1) && pow2(k + 1) == 2 * pow2(k)),
                unit == den * pow2(k),
        ;
        assert(m == lo || m == hi);
        assert(m == lo ==> 2 * r <= unit);
        assert(m == hi ==> 2 * r >= unit);
        if x <= lo {
            if x < lo {
                lemma_steps_increase(x, lo);
            }
            assert(steps(x) * den <= q * unit) by (nonlinear_arith)
                requires
                    steps(x) <= steps(lo),
                    steps(lo) * den == q * unit,
                    den > 0,
            ;
        } else {
            if x > hi {
                lemma_steps_increase(hi, x);
            }
            assert(steps(x) * den >= (q + 1) * unit) by (nonlinear_arith)
                requires
                    steps(x) >= steps(hi),
                    steps(hi) * den == (q + 1) * unit,
                    den > 0,
            ;
        }
        assert((q + 1) * unit == q * unit + unit) by (nonlinear_arith);
        assert(num == q * unit + r) by (nonlinear_arith)
            requires
                num == unit * q + r,
        ;
    }
}

/// Where another value of the format is as near to `num / den` as the one that
/// `nearest` gives, that one has an even last bit.
pub proof fn nearest_prefers_even(num: nat, den: nat, x: nat)
    requires
        den > 0,
        x <= 0x7f80_0000,
        x != nearest(num, den),
        distance(x, num, den) == distance(nearest(num, den), num, den),
    ensures
        nearest(num, den) % 2 == 0,
{
    lemma2_to64();
    lemma_range_fits(num, den);
    let k = range_of(num, den);
    let unit = den * pow2(k);
    let q = num / unit;
    let r = num % unit;
    lemma_fundamental_div_mod(num as int, unit as int);
    lemma_mod_bound(num as int, unit as int);
    lemma_pow2_pos(k);
    let lo = k * 0x80_0000 + q;
    let m = nearest(num, den);
    lemma_parts_of(k, q);
    assert(steps(lo) * den == q * unit) by (nonlinear_arith)
        requires
            steps(lo) == q * pow2(k),
            unit == den * pow2(k),
    ;
    assert(num == q * unit + r) by (nonlinear_arith)
        requires
            num == unit * q + r,
    ;
    if lo >= 0x7f80_0000 {
        lemma_parts_of(254, 0x80_0000);
        if k > 254 {
            lemma_pow2_strictly_increases(254, k);
        }
        assert(steps(0x7f80_0000) <= steps(lo)) by (nonlinear_arith)
            requires
                steps(0x7f80_0000) == 0x80_0000 * pow2(254),
                steps(lo) == q * pow2(k),
                q >= 0x80_0000,
                pow2(254) <= pow2(k),
        ;
        lemma_steps_increase(x, 0x7f80_0000);
        assert(steps(x) * den < steps(m) * den && steps(m) * den <= num) by (nonlinear_arith)
            requires
                steps(x) < steps(m),
                steps(m) <= steps(lo),
                steps(lo) * den == q * unit,
                num == q * unit + r,
                r >= 0,
                den > 0,
        ;
    } else {
        let hi = lo + 1;
        if q + 1 < 0x100_0000 {
            lemma_parts_of(k, q + 1);
        } else {
            lemma_parts_of(k + 1, 0x80_0000);
            lemma_pow2_unfold(k + 1);
        }
        assert(steps(hi) * den == q * unit + unit) by (nonlinear_arith)
            requires
                steps(hi) == (q + 1) * pow2(k) || (q + 1 == 0x100_0000 && steps(hi) == 0x80_0000
                    * pow2(k + 1) && pow2(k + 1) == 2 * pow2(k)),
                unit == den * pow2(k),
        ;
        assert(m == lo || m == hi);
        assert((k * 0x80_0000) % 2 == 0) by (nonlinear_arith);
        if x < lo {
            lemma_steps_increase(x, lo);
            assert(steps(x) * den < q * unit) by (nonlinear_arith)
                requires
                    steps(x) < steps(lo),
                    steps(lo) * den == q * unit,
                    den > 0,
            ;
        } else if x > hi {
            lemma_steps_increase(hi, x);
            assert(steps(x) * den > q * unit + unit) by (nonlinear_arith)
                requires
                    steps(x) > steps(hi),
                    steps(hi) * den == q * unit + unit,
                    den > 0,
            ;
        }
    }
}

/// The magnitude nearest to `c` doubled `t` times, counted in steps.
pub open spec fn doubled(c: nat, t: nat) -> nat {
    nearest(c * pow2(t), 1)
}

/// Within 24 digits and the range of the format, `c` doubled `t` times is a value
/// that the format holds.
pub proof fn lemma_doubled_is_exact(c: nat, t: nat)
    requires
        c < 0x100_0000,
        t <= 253,
    ensures
        doubled(c, t) < 0x7f80_0000,
        steps(doubled(c, t)) == c * pow2(t),
{
    lemma2_to64();
    lemma_pow2_pos(t);
    if c == 0 {
        assert(c * pow2(t) == 0) by (nonlinear_arith)
            requires
                c == 0,
        ;
        lemma_nearest_zero(1);
        lemma_parts_of(0, 0);
    } else {
        let l = bit_length(c);
        lemma_bit_length_bounds(c);
        lemma_bit_length_below(c, 24);
        if l + t <= 24 {
            let a = c * pow2(t);
            lemma_pow2_adds(l, t);
            if l + t < 24 {
                lemma_pow2_strictly_increases(l + t, 24);
            }
            assert(a < 0x100_0000) by (nonlinear_arith)
                requires
                    a == c * pow2(t),
                    c < pow2(l),
                    pow2(l) * pow2(t) <= 0x100_0000,
                    pow2(t) > 0,
            ;
            assert(a * 1 == a * (1 * pow2(0))) by (nonlinear_arith)
                requires
                    pow2(0) == 1,
            ;
            lemma_nearest_is(a, 1, a, 1, 0);
            lemma_parts_of(0, a);
        } else {
            let k = (l + t - 24) as nat;
            let f = pow2((24 - l) as nat);
            let a = c * f;
            lemma_pow2_adds(l, (24 - l) as nat);
            lemma_pow2_adds((l - 1) as nat, (24 - l) as nat);
            lemma_pow2_adds((24 - l) as nat, k);
            lemma_pow2_pos((24 - l) as nat);
            assert(a < 0x100_0000 && a >= 0x80_0000) by (nonlinear_arith)
                requires
                    a == c * f,
                    pow2((l - 1) as nat) <= c < pow2(l),
                    0x100_0000 == pow2(l) * f,
                    0x80_0000 == pow2((l - 1) as nat) * f,
                    f > 0,
            ;
            assert((c * pow2(t)) * 1 == a * (1 * pow2(k))) by (nonlinear_arith)
                requires
                    a == c * f,
                    pow2(t) == f * pow2(k),
            ;
            lemma_nearest_is(c * pow2(t), 1, a, 1, k);
            lemma_parts_of(k, a);
            assert(c * pow2(t) == a * pow2(k)) by (nonlinear_arith)
                requires
                    a == c * f,
                    pow2(t) == f * pow2(k),
            ;
        }
    }
}

/// A whole number within 24 digits is held as it is.
pub proof fn lemma_from_nat_exact(n: nat)
    requires
        n < 0x100_0000,
    ensures
        from_nat(n) < 0x7f80_0000,
        from_nat(n) == doubled(n, 149),
        steps(magnitude(from_nat(n))) == n * pow2(149),
{
    lemma_doubled_is_exact(n, 149);
}

/// Where both numbers are values that the format holds, and their product is one
/// too, the product is that value.
pub proof fn lemma_product_exact(a: u32, b: u32, m: nat)
    requires
        a < 0x7f80_0000,
        b < 0x7f80_0000,
        m < 0x7f80_0000,
        steps(m) * pow2(149) == steps(a as nat) * steps(b as nat),
    ensures
        product(a, b) == m,
{
    lemma_pow2_pos(149);
    lemma_nearest_exact(steps(a as nat) * steps(b as nat), pow2(149), m);
}

/// Where both numbers are values that the format holds, and their quotient is one
/// too, the quotient is that value.
pub proof fn lemma_quotient_exact(a: u32, b: u32, m: nat)
    requires
        a < 0x7f80_0000,
        0 < b < 0x7f80_0000,
        m < 0x7f80_0000,
        steps(m) * steps(b as nat) == steps(a as nat) * pow2(149),
    ensures
        quotient(a, b) == m,
{
    lemma_digits_range(b as nat);
    lemma_pow2_pos(binade(b as nat));
    assert(steps(b as nat) > 0) by (nonlinear_arith)
        requires
            steps(b as nat) == digits(b as nat) * pow2(binade(b as nat)),
            digits(b as nat) > 0,
            pow2(binade(b as nat)) > 0,
    ;
    lemma_nearest_exact(steps(a as nat) * pow2(149), steps(b as nat), m);
}

/// The product of three powers of two.
pub proof fn lemma_pow2_three(e1: nat, e2: nat, e3: nat)
    ensures
        pow2(e1) * pow2(e2) * pow2(e3) == pow2(e1 + e2 + e3),
{
    lemma_pow2_adds(e1, e2);
    lemma_pow2_adds(e1 + e2, e3);
}

/// 2 to the power `e`.
fn two_to(e: u32) -> (r: u128)
    requires
        e <= 126,
    ensures
        r == pow2(e as nat),
{
    let mut r: u128 = 1;
    let mut i: u32 = 0;
    proof {
        lemma2_to64();
        lemma2_to64_rest();
        lemma_pow2_adds(63, 63);
    }
    while i < e
        invariant
            i <= e <= 126,
            r == pow2(i as nat),
            pow2(126) == 0x4000_0000_0000_0000_0000_0000_0000_0000,
        decreases e - i,
    {
        proof {
            lemma_pow2_unfold((i + 1) as nat);
            if i + 1 < 126 {
                lemma_pow2_strictly_increases((i + 1) as nat, 126);
            }
        }
        r = r * 2;
        i += 1;
    }
    r
}

/// The number of binary digits of `n`.
fn length_of(n: u64) -> (l: u32)
    ensures
        l == bit_length(n as nat),
        l <= 64,
{
    let mut l: u32 = 0;
    let mut t: u64 = n;
    proof {
        lemma2_to64();
        lemma_bit_length_below(n as nat, 64);
    }
    while t > 0
        invariant
            bit_length(n as nat) == l + bit_length(t as nat),
            bit_length(n as nat) <= 64,
        decreases t,
    {
        t = t / 2;
        l += 1;
    }
    l
}

/// The magnitude with range `k` and the digits of `a / b` rounded.
fn round_fraction(a: u128, b: u128, k: u32) -> (m: u32)
    requires
        0 < b <= 0x1_0000_0000_0000_0000_0000,
        a < 0x100_0000 * b,
        k <= 1000,
    ensures
        m == capped(k as nat * 0x80_0000 + round_half_even(a as nat, b as nat)),
{
    let q = a / b;
    let r = a % b;
    proof {
        lemma_fundamental_div_mod(a as int, b as int);
        lemma_mod_bound(a as int, b as int);
        assert(q < 0x100_0000) by (nonlinear_arith)
            requires
                a == b * q + r,
                0 <= r,
                a < 0x100_0000 * b,
                b > 0,
        ;
    }
    let up = 2 * r > b || (2 * r == b && q % 2 == 1);
    let digits: u64 = if up {
        (q + 1) as u64
    } else {
        q as u64
    };
    let bits: u64 = (k as u64) * 0x80_0000 + digits;
    if bits >= INFINITY_BITS as u64 {
        INFINITY_BITS
    } else {
        bits as u32
    }
}

/// A number in single precision.
#[derive(Copy, Clone, Debug, PartialEq, Eq, Structural)]
pub struct Single {
    pub bits: u32,
}

impl Single {
    pub fn from_bits(bits: u32) -> (r: Self)
        ensures
            r.bits == bits,
    {
        Single { bits }
    }

    pub fn to_bits(self) -> (bits: u32)
        ensures
            bits == self.bits,
    {
        self.bits
    }

    /// Whether the number is zero, of either sign.
    pub fn is_zero(self) -> (r: bool)
        ensures
            r == (magnitude(self.bits) == 0),
    {
        self.bits % SIGN_BIT == 0
    }

    /// The whole number `n`, rounded where it has more than 24 digits.
    pub fn from_u64(n: u64) -> (r: Self)
        ensures
            r.bits == from_nat(n as nat),
    {
        if n == 0 {
            proof {
                lemma2_to64();
                lemma_nearest_is(0, 1, 0, 1, 0);
                assert(0nat * pow2(149) == 0) by (nonlinear_arith);
            }
            return Single { bits: 0 };
        }
        let l = length_of(n);
        let k: u32 = l + 125;
        proof {
            lemma2_to64();
            lemma_bit_length_bounds(n as nat);
        }
        let a: u128;
        let b: u128;
        if l > 24 {
            a = n as u128;
            b = two_to(l - 24);
            proof {
                let p = pow2((l - 24) as nat);
                lemma_pow2_adds(24, (l - 24) as nat);
                lemma_pow2_adds(23, (l - 24) as nat);
                lemma_pow2_adds(149, (l - 24) as nat);
                lemma_pow2_strictly_increases((l - 24) as nat, 41);
                lemma_pow2_adds(20, 21);
                assert((n as nat * pow2(149)) * (b as nat) == (a as nat) * (1 * pow2(k as nat)))
                    by (nonlinear_arith)
                    requires
                        a == n,
                        b == p,
                        pow2(k as nat) == pow2(149) * p,
                ;
            }
        } else {
            let f = two_to(24 - l);
            proof {
                lemma_pow2_adds(l as nat, (24 - l) as nat);
                lemma_pow2_adds((l - 1) as nat, (24 - l) as nat);
                lemma_pow2_adds((24 - l) as nat, k as nat);
                assert(n * f < 0x100_0000 && n * f >= 0x80_0000) by (nonlinear_arith)
                    requires
                        pow2((l - 1) as nat) <= n < pow2(l as nat),
                        0x100_0000 == pow2(l as nat) * f,
                        0x80_0000 == pow2((l - 1) as nat) * f,
                        f > 0,
                ;
            }
            a = (n as u128) * f;
            b = 1;
            proof {
                assert((n as nat * pow2(149)) * (b as nat) == (a as nat) * (1 * pow2(k as nat)))
                    by (nonlinear_arith)
                    requires
                        a == n * f,
                        b == 1,
                        pow2(149) == f * pow2(k as nat),
                ;
            }
        }
        proof {
            lemma_nearest_is(n as nat * pow2(149), 1, a as nat, b as nat, k as nat);
        }
        Single { bits: round_fraction(a, b, k) }
    }

    /// The whole part of the number, kept within 32 bits.
    pub fn to_u32(self) -> (r: u32)
        ensures
            r == truncated(self.bits),
    {
        let m: u32 = self.bits % SIGN_BIT;
        if self.bits >= SIGN_BIT || m > INFINITY_BITS {
            return 0;
        }
        let k: u32 = if m < 0x100_0000 {
            0
        } else {
            m / 0x80_0000 - 1
        };
        let d: u32 = m - k * 0x80_0000;
        proof {
            lemma2_to64();
        }
        if k >= 149 {
            let e: u32 = k - 149;
            proof {
                lemma_double(d as nat, 149, e as nat);
                assert(d as nat * pow2(149 + e as nat) == d as nat * pow2(k as nat));
            }
            if e >= 9 {
                proof {
                    if e > 9 {
                        lemma_pow2_strictly_increases(9, e as nat);
                    }
                    assert(d as nat * pow2(e as nat) > u32::MAX) by (nonlinear_arith)
                        requires
                            d >= 0x80_0000,
                            pow2(e as nat) >= 512,
                    ;
                }
                u32::MAX
            } else {
                let f = two_to(e);
                proof {
                    if e < 8 {
                        lemma_pow2_strictly_increases(e as nat, 8);
                    }
                    assert(d * f <= 0xffff_ffff_ffff) by (nonlinear_arith)
                        requires
                            d < 0x100_0000,
                            f <= 256,
                    ;
                }
                let v: u64 = (d as u64) * (f as u64);
                if v > u32::MAX as u64 {
                    u32::MAX
                } else {
                    v as u32
                }
            }
        } else {
            let e: u32 = 149 - k;
            proof {
                lemma_halve(d as nat, k as nat, e as nat);
                assert(pow2(k as nat + e as nat) == pow2(149));
            }
            if e >= 24 {
                proof {
                    if e > 24 {
                        lemma_pow2_strictly_increases(24, e as nat);
                    }
                    vstd::arithmetic::div_mod::lemma_basic_div(d as int, pow2(e as nat) as int);
                }
                0
            } else {
                let f = two_to(e);
                proof {
                    lemma_pow2_strictly_increases(e as nat, 24);
                    lemma_pow2_pos(e as nat);
                }
                d / (f as u32)
            }
        }
    }

    /// The number times `other`.
    pub fn times(self, other: Self) -> (r: Self)
        ensures
            r.bits == product(self.bits, other.bits),
    {
        let ma: u32 = self.bits % SIGN_BIT;
        let mb: u32 = other.bits % SIGN_BIT;
        let sign: u32 = if (self.bits >= SIGN_BIT) != (other.bits >= SIGN_BIT) {
            SIGN_BIT
        } else {
            0
        };
        if ma > INFINITY_BITS || mb > INFINITY_BITS {
            return Single { bits: NAN_BITS };
        }
        if ma == INFINITY_BITS || mb == INFINITY_BITS {
            if ma == 0 || mb == 0 {
                return Single { bits: NAN_BITS };
            }
            return Single { bits: sign + INFINITY_BITS };
        }
        let (ka, da) = parts(ma);
        let (kb, db) = parts(mb);
        proof {
            lemma_steps_product(ma as nat, mb as nat);
            assert(da * db < 0x1_0000_0000_0000) by (nonlinear_arith)
                requires
                    da < 0x100_0000,
                    db < 0x100_0000,
            ;
        }
        let p: u64 = (da as u64) * (db as u64);
        Single { bits: sign + round_scaled(p, ka + kb) }
    }
}

/// Range and digits of the finite magnitude `m`.
fn parts(m: u32) -> (r: (u32, u32))
    requires
        m < 0x7f80_0000,
    ensures
        r.0 == binade(m as nat),
        r.1 == digits(m as nat),
        r.0 <= 253,
        r.1 < 0x100_0000,
        r.0 > 0 ==> r.1 >= 0x80_0000,
{
    let k: u32 = if m < 0x100_0000 {
        0
    } else {
        m / 0x80_0000 - 1
    };
    (k, m - k * 0x80_0000)
}

/// The steps of two magnitudes multiply digits by digits and range by range.
pub proof fn lemma_steps_product(ma: nat, mb: nat)
    ensures
        steps(ma) * steps(mb) == (digits(ma) * digits(mb)) * pow2(binade(ma) + binade(mb)),
{
    lemma_pow2_adds(binade(ma), binade(mb));
    assert((digits(ma) * pow2(binade(ma))) * (digits(mb) * pow2(binade(mb))) == (digits(ma)
        * digits(mb)) * (pow2(binade(ma)) * pow2(binade(mb)))) by (nonlinear_arith);
}

/// `p` doubled `e` times, in steps of 2^-298, where the digits of `p` must lose
/// `s` bits or none to fit: the nearest magnitude has range `k`.
pub proof fn lemma_scaled_down(p: nat, l: nat, e: nat, k: nat, s: nat)
    requires
        1 <= l,
        pow2((l - 1) as nat) <= p < pow2(l),
        k == (if l + e > 173 {
            l + e - 173
        } else {
            0
        }),
        s + e == k + 149,
    ensures
        p < 0x100_0000 * pow2(s),
        nearest(p * pow2(e), pow2(149)) == capped(k * 0x80_0000 + round_half_even(p, pow2(s))),
{
    lemma2_to64();
    lemma_pow2_pos(s);
    lemma_pow2_pos(149);
    lemma_pow2_pos(k);
    lemma_pow2_adds(e, s);
    lemma_pow2_adds(149, k);
    if l <= 24 {
        if l < 24 {
            lemma_pow2_strictly_increases(l, 24);
        }
        assert(p < 0x100_0000 * pow2(s)) by (nonlinear_arith)
            requires
                p < 0x100_0000,
                pow2(s) >= 1,
        ;
    } else {
        lemma_pow2_adds(24, (l - 24) as nat);
        if s > l - 24 {
            lemma_pow2_strictly_increases((l - 24) as nat, s);
        }
        assert(p < 0x100_0000 * pow2(s)) by (nonlinear_arith)
            requires
                p < 0x100_0000 * pow2((l - 24) as nat),
                pow2((l - 24) as nat) <= pow2(s),
        ;
    }
    if k > 0 {
        lemma_pow2_adds(23, s);
    }
    assert((p * pow2(e)) * pow2(s) == p * (pow2(149) * pow2(k))) by (nonlinear_arith)
        requires
            pow2(e) * pow2(s) == pow2(149) * pow2(k),
    ;
    lemma_nearest_is(p * pow2(e), pow2(149), p, pow2(s), k);
}

/// `p` doubled `e` times, in steps of 2^-298, where the digits of `p` gain `t`
/// bits: the nearest magnitude has range `k`, and nothing is rounded.
pub proof fn lemma_scaled_up(p: nat, l: nat, e: nat, k: nat, t: nat)
    requires
        1 <= l,
        pow2((l - 1) as nat) <= p < pow2(l),
        k == (if l + e > 173 {
            l + e - 173
        } else {
            0
        }),
        e == t + 149 + k,
    ensures
        p * pow2(t) < 0x100_0000,
        nearest(p * pow2(e), pow2(149)) == capped(
            k * 0x80_0000 + round_half_even(p * pow2(t), 1),
        ),
{
    lemma2_to64();
    lemma_pow2_pos(t);
    lemma_pow2_pos(149);
    lemma_pow2_adds(l, t);
    lemma_pow2_adds((l - 1) as nat, t);
    if l + t < 24 {
        lemma_pow2_strictly_increases(l + t, 24);
    }
    let f = pow2(t);
    assert(p * f < 0x100_0000 && (k > 0 ==> p * f >= 0x80_0000)) by (nonlinear_arith)
        requires
            pow2((l - 1) as nat) <= p < pow2(l),
            pow2(l + t) == pow2(l) * f,
            pow2(l + t) <= 0x100_0000,
            k > 0 ==> pow2((l - 1) as nat) * f == 0x80_0000,
            f > 0,
    ;
    lemma_pow2_three(t, 149, k);
    assert((p * pow2(e)) * 1 == (p * f) * (pow2(149) * pow2(k))) by (nonlinear_arith)
        requires
            f * pow2(149) * pow2(k) == pow2(e),
    ;
    lemma_nearest_is(p * pow2(e), pow2(149), p * f, 1, k);
}

/// Where more than half of the bits of `p` and one more are lost, nothing is left.
pub proof fn lemma_rounds_to_nothing(p: nat, s: nat)
    requires
        p < 0x1_0000_0000_0000,
        s > 49,
    ensures
        round_half_even(p, pow2(s)) == 0,
{
    lemma2_to64();
    lemma2_to64_rest();
    lemma_pow2_strictly_increases(49, s);
    vstd::arithmetic::div_mod::lemma_basic_div(p as int, pow2(s) as int);
    vstd::arithmetic::div_mod::lemma_small_mod(p, pow2(s));
}

/// The magnitude nearest to `p` doubled `e` times, in steps of 2^-298.
fn round_scaled(p: u64, e: u32) -> (m: u32)
    requires
        p < 0x1_0000_0000_0000,
        e <= 600,
    ensures
        m == nearest(p as nat * pow2(e as nat), pow2(149)),
{
    if p == 0 {
        proof {
            lemma_pow2_pos(149);
            assert(p as nat * pow2(e as nat) == 0) by (nonlinear_arith)
                requires
                    p == 0,
            ;
            lemma_nearest_zero(pow2(149));
        }
        return 0;
    }
    let l = length_of(p);
    proof {
        lemma2_to64();
        lemma2_to64_rest();
        lemma_bit_length_bounds(p as nat);
        lemma_bit_length_below(p as nat, 48);
    }
    let k: u32 = if l + e > 173 {
        l + e - 173
    } else {
        0
    };
    if k + 149 >= e {
        let s: u32 = k + 149 - e;
        proof {
            lemma_scaled_down(p as nat, l as nat, e as nat, k as nat, s as nat);
        }
        if s > 49 {
            proof {
                lemma_rounds_to_nothing(p as nat, s as nat);
            }
            return 0;
        }
        let b = two_to(s);
        proof {
            if s < 49 {
                lemma_pow2_strictly_increases(s as nat, 49);
            }
            lemma_pow2_pos(s as nat);
        }
        round_fraction(p as u128, b, k)
    } else {
        let t: u32 = e - 149 - k;
        proof {
            lemma_scaled_up(p as nat, l as nat, e as nat, k as nat, t as nat);
            if t < 24 {
                lemma_pow2_strictly_increases(t as nat, 24);
            }
        }
        let f = two_to(t);
        round_fraction((p as u128) * f, 1, k)
    }
}

/// The digits `d` shifted up until the topmost of 24 bits is set.
fn normalized(d: u32) -> (r: (u32, u32))
    requires
        0 < d < 0x100_0000,
    ensures
        1 <= r.0 <= 24,
        r.0 == bit_length(d as nat),
        r.1 == d * pow2((24 - r.0) as nat),
        0x80_0000 <= r.1 < 0x100_0000,
{
    let l = length_of(d as u64);
    proof {
        lemma2_to64();
        lemma_bit_length_bounds(d as nat);
        lemma_bit_length_below(d as nat, 24);
        lemma_pow2_adds(l as nat, (24 - l) as nat);
        lemma_pow2_adds((l - 1) as nat, (24 - l) as nat);
        lemma_pow2_pos((24 - l) as nat);
        let f = pow2((24 - l) as nat);
        assert(d * f < 0x100_0000 && d * f >= 0x80_0000) by (nonlinear_arith)
            requires
                pow2((l - 1) as nat) <= d < pow2(l as nat),
                0x100_0000 == pow2(l as nat) * f,
                0x80_0000 == pow2((l - 1) as nat) * f,
                f > 0,
        ;
    }
    let f = two_to(24 - l);
    (l, ((d as u128) * f) as u32)
}

/// What the quotient of two finite magnitudes is a fraction of: both sides of the
/// equation that `lemma_nearest_is` asks for have the two digits as factors, and
/// powers of two whose exponents add up to the same.
pub proof fn lemma_quotient_fraction(
    da: nat,
    ka: nat,
    db: nat,
    kb: nat,
    ea: nat,
    eb: nat,
    x: nat,
    y: nat,
    k: nat,
)
    requires
        ka + 149 + eb + y == ea + x + kb + k,
    ensures
        ((da * pow2(ka)) * pow2(149)) * ((db * pow2(eb)) * pow2(y)) == ((da * pow2(ea)) * pow2(x))
            * ((db * pow2(kb)) * pow2(k)),
{
    lemma_pow2_three(ka, 149, eb);
    lemma_pow2_adds(ka + 149 + eb, y);
    lemma_pow2_three(ea, x, kb);
    lemma_pow2_adds(ea + x + kb, k);
    let left = pow2(ka) * pow2(149) * pow2(eb) * pow2(y);
    let right = pow2(ea) * pow2(x) * pow2(kb) * pow2(k);
    assert(left == right);
    assert(((da * pow2(ka)) * pow2(149)) * ((db * pow2(eb)) * pow2(y)) == (da * db) * left)
        by (nonlinear_arith)
        requires
            left == pow2(ka) * pow2(149) * pow2(eb) * pow2(y),
    ;
    assert(((da * pow2(ea)) * pow2(x)) * ((db * pow2(kb)) * pow2(k)) == (da * db) * right)
        by (nonlinear_arith)
        requires
            right == pow2(ea) * pow2(x) * pow2(kb) * pow2(k),
    ;
}

/// The quotient of two finite magnitudes that are not zero, in steps: the top and
/// the bottom of the fraction that `nearest` rounds.
pub open spec fn quotient_top(da: nat, ka: nat) -> nat {
    (da * pow2(ka)) * pow2(149)
}

pub open spec fn quotient_bottom(db: nat, kb: nat) -> nat {
    db * pow2(kb)
}

/// Whether `n` is the digits `d` of length `l`, shifted up to 24 bits.
pub open spec fn is_normalized(d: nat, l: nat, n: nat) -> bool {
    &&& 0 < d
    &&& l <= 24
    &&& n == d * pow2((24 - l) as nat)
    &&& 0x80_0000 <= n < 0x100_0000
}

/// By how many bits the quotient of the normalized digits must be shifted up to
/// be the quotient itself.
pub open spec fn quotient_shift(ka: nat, kb: nat, la: nat, lb: nat) -> int {
    ka - kb + la - lb + 149
}

/// The quotient where it needs a range above the first: its digits are the
/// quotient of the normalized digits, taken to 24 bits.
pub proof fn lemma_quotient_wide(
    da: nat,
    ka: nat,
    db: nat,
    kb: nat,
    la: nat,
    lb: nat,
    na: nat,
    nb: nat,
    c: nat,
)
    requires
        is_normalized(da, la, na),
        is_normalized(db, lb, nb),
        c == (if na >= nb {
            1nat
        } else {
            0nat
        }),
        quotient_shift(ka, kb, la, lb) + c > 24,
    ensures
        na * pow2((24 - c) as nat) < 0x100_0000 * nb,
        nearest(quotient_top(da, ka), quotient_bottom(db, kb)) == capped(
            (quotient_shift(ka, kb, la, lb) + c - 24) as nat * 0x80_0000 + round_half_even(
                na * pow2((24 - c) as nat),
                nb,
            ),
        ),
{
    lemma2_to64();
    lemma_pow2_pos(kb);
    let k = (quotient_shift(ka, kb, la, lb) + c - 24) as nat;
    let x = (24 - c) as nat;
    let f = pow2(x);
    let num = quotient_top(da, ka);
    let den = quotient_bottom(db, kb);
    assert(den > 0) by (nonlinear_arith)
        requires
            den == db * pow2(kb),
            db > 0,
            pow2(kb) > 0,
    ;
    lemma_quotient_fraction(da, ka, db, kb, (24 - la) as nat, (24 - lb) as nat, x, 0, k);
    assert(num * nb == (na * f) * (den * pow2(k))) by (nonlinear_arith)
        requires
            num * ((db * pow2((24 - lb) as nat)) * pow2(0)) == ((da * pow2((24 - la) as nat)) * f) * (
            den * pow2(k)),
            nb == db * pow2((24 - lb) as nat),
            na == da * pow2((24 - la) as nat),
            pow2(0) == 1,
    ;
    assert(na * f < 0x100_0000 * nb && na * f >= 0x80_0000 * nb) by (nonlinear_arith)
        requires
            0x80_0000 <= na < 0x100_0000,
            0x80_0000 <= nb < 0x100_0000,
            (na >= nb && f == 0x80_0000) || (na < nb && f == 0x100_0000),
    ;
    lemma_nearest_is(num, den, na * f, nb, k);
}

/// The quotient where it fits the first range and is no fraction of the
/// normalized quotient: the normalized digits on top are shifted up.
pub proof fn lemma_quotient_narrow(
    da: nat,
    ka: nat,
    db: nat,
    kb: nat,
    la: nat,
    lb: nat,
    na: nat,
    nb: nat,
    c: nat,
)
    requires
        is_normalized(da, la, na),
        is_normalized(db, lb, nb),
        c == (if na >= nb {
            1nat
        } else {
            0nat
        }),
        0 <= quotient_shift(ka, kb, la, lb),
        quotient_shift(ka, kb, la, lb) + c <= 24,
    ensures
        na * pow2(quotient_shift(ka, kb, la, lb) as nat) < 0x100_0000 * nb,
        nearest(quotient_top(da, ka), quotient_bottom(db, kb)) == capped(
            round_half_even(na * pow2(quotient_shift(ka, kb, la, lb) as nat), nb),
        ),
{
    lemma2_to64();
    lemma_pow2_pos(kb);
    let x = quotient_shift(ka, kb, la, lb) as nat;
    let f = pow2(x);
    let num = quotient_top(da, ka);
    let den = quotient_bottom(db, kb);
    assert(den > 0) by (nonlinear_arith)
        requires
            den == db * pow2(kb),
            db > 0,
            pow2(kb) > 0,
    ;
    lemma_quotient_fraction(da, ka, db, kb, (24 - la) as nat, (24 - lb) as nat, x, 0, 0);
    assert(num * nb == (na * f) * (den * pow2(0))) by (nonlinear_arith)
        requires
            num * ((db * pow2((24 - lb) as nat)) * pow2(0)) == ((da * pow2((24 - la) as nat)) * f) * (
            den * pow2(0)),
            nb == db * pow2((24 - lb) as nat),
            na == da * pow2((24 - la) as nat),
            pow2(0) == 1,
    ;
    lemma_pow2_pos(x);
    if x < 24 {
        lemma_pow2_strictly_increases(x, 24);
    }
    if x < 23 {
        lemma_pow2_strictly_increases(x, 23);
    }
    assert(na * f < 0x100_0000 * nb) by (nonlinear_arith)
        requires
            0x80_0000 <= na < 0x100_0000,
            0x80_0000 <= nb < 0x100_0000,
            (na >= nb && f <= 0x80_0000) || (na < nb && f <= 0x100_0000),
            f > 0,
    ;
    lemma_nearest_is(num, den, na * f, nb, 0);
}

/// The quotient where it is a fraction of the normalized quotient: the
/// normalized digits below are shifted up, and from a quarter on nothing is left.
pub proof fn lemma_quotient_small(
    da: nat,
    ka: nat,
    db: nat,
    kb: nat,
    la: nat,
    lb: nat,
    na: nat,
    nb: nat,
)
    requires
        is_normalized(da, la, na),
        is_normalized(db, lb, nb),
        quotient_shift(ka, kb, la, lb) < 0,
    ensures
        nearest(quotient_top(da, ka), quotient_bottom(db, kb)) == capped(
            round_half_even(na, nb * pow2((-quotient_shift(ka, kb, la, lb)) as nat)),
        ),
        quotient_shift(ka, kb, la, lb) == -1 ==> nb * pow2(
            (-quotient_shift(ka, kb, la, lb)) as nat,
        ) == 2 * nb,
        quotient_shift(ka, kb, la, lb) < -1 ==> round_half_even(
            na,
            nb * pow2((-quotient_shift(ka, kb, la, lb)) as nat),
        ) == 0,
{
    lemma2_to64();
    lemma_pow2_pos(kb);
    let y = (-quotient_shift(ka, kb, la, lb)) as nat;
    let b = nb * pow2(y);
    let num = quotient_top(da, ka);
    let den = quotient_bottom(db, kb);
    assert(den > 0) by (nonlinear_arith)
        requires
            den == db * pow2(kb),
            db > 0,
            pow2(kb) > 0,
    ;
    lemma_quotient_fraction(da, ka, db, kb, (24 - la) as nat, (24 - lb) as nat, 0, y, 0);
    assert(num * b == na * (den * pow2(0))) by (nonlinear_arith)
        requires
            num * ((db * pow2((24 - lb) as nat)) * pow2(y)) == ((da * pow2((24 - la) as nat))
                * pow2(0)) * (den * pow2(0)),
            nb == db * pow2((24 - lb) as nat),
            na == da * pow2((24 - la) as nat),
            b == nb * pow2(y),
            pow2(0) == 1,
    ;
    lemma_pow2_pos(y);
    assert(na < 0x100_0000 * b && b > 0) by (nonlinear_arith)
        requires
            na < 0x100_0000,
            nb >= 0x80_0000,
            pow2(y) >= 1,
            b == nb * pow2(y),
    ;
    lemma_nearest_is(num, den, na, b, 0);
    if y == 1 {
        assert(b == 2 * nb) by (nonlinear_arith)
            requires
                b == nb * pow2(y),
                pow2(y) == 2,
        ;
    }
    if y >= 2 {
        if y > 2 {
            lemma_pow2_strictly_increases(2, y);
        }
        assert(2 * na < b) by (nonlinear_arith)
            requires
                na < 0x100_0000,
                nb >= 0x80_0000,
                pow2(y) >= 4,
                b == nb * pow2(y),
        ;
        vstd::arithmetic::div_mod::lemma_basic_div(na as int, b as int);
        vstd::arithmetic::div_mod::lemma_small_mod(na, b);
    }
}

/// The magnitude nearest to the quotient of two finite magnitudes that are not
/// zero, each given by its digits and its range.
fn round_quotient(da: u32, ka: u32, db: u32, kb: u32) -> (m: u32)
    requires
        0 < da < 0x100_0000,
        0 < db < 0x100_0000,
        ka <= 253,
        kb <= 253,
    ensures
        m == nearest(quotient_top(da as nat, ka as nat), quotient_bottom(db as nat, kb as nat)),
{
    let (la, na) = normalized(da);
    let (lb, nb) = normalized(db);
    let c: u32 = if na >= nb {
        1
    } else {
        0
    };
    // the quotient is na / nb doubled `shift` times, or halved where `shift` is negative
    let shift: i32 = ka as i32 - kb as i32 + la as i32 - lb as i32 + 149;
    proof {
        lemma2_to64();
    }
    if shift + c as i32 > 24 {
        let k: u32 = (shift + c as i32 - 24) as u32;
        proof {
            lemma_quotient_wide(
                da as nat,
                ka as nat,
                db as nat,
                kb as nat,
                la as nat,
                lb as nat,
                na as nat,
                nb as nat,
                c as nat,
            );
        }
        let f = two_to(24 - c);
        round_fraction((na as u128) * f, nb as u128, k)
    } else if shift >= 0 {
        proof {
            lemma_quotient_narrow(
                da as nat,
                ka as nat,
                db as nat,
                kb as nat,
                la as nat,
                lb as nat,
                na as nat,
                nb as nat,
                c as nat,
            );
            if shift < 24 {
                lemma_pow2_strictly_increases(shift as nat, 24);
            }
        }
        let f = two_to(shift as u32);
        round_fraction((na as u128) * f, nb as u128, 0)
    } else {
        proof {
            lemma_quotient_small(
                da as nat,
                ka as nat,
                db as nat,
                kb as nat,
                la as nat,
                lb as nat,
                na as nat,
                nb as nat,
            );
        }
        if shift == -1 {
            round_fraction(na as u128, 2 * (nb as u128), 0)
        } else {
            0
        }
    }
}

impl Single {
    /// The number divided by `other`.
    pub fn over(self, other: Self) -> (r: Self)
        ensures
            r.bits == quotient(self.bits, other.bits),
    {
        let ma: u32 = self.bits % SIGN_BIT;
        let mb: u32 = other.bits % SIGN_BIT;
        let sign: u32 = if (self.bits >= SIGN_BIT) != (other.bits >= SIGN_BIT) {
            SIGN_BIT
        } else {
            0
        };
        if ma > INFINITY_BITS || mb > INFINITY_BITS {
            return Single { bits: NAN_BITS };
        }
        if ma == INFINITY_BITS {
            if mb == INFINITY_BITS {
                return Single { bits: NAN_BITS };
            }
            return Single { bits: sign + INFINITY_BITS };
        }
        if mb == INFINITY_BITS {
            return Single { bits: sign };
        }
        if mb == 0 {
            if ma == 0 {
                return Single { bits: NAN_BITS };
            }
            return Single { bits: sign + INFINITY_BITS };
        }
        let (ka, da) = parts(ma);
        let (kb, db) = parts(mb);
        if ma == 0 {
            proof {
                lemma_pow2_pos(kb as nat);
                assert(steps(mb as nat) > 0) by (nonlinear_arith)
                    requires
                        steps(mb as nat) == db * pow2(kb as nat),
                        db > 0,
                        pow2(kb as nat) > 0,
                ;
                lemma2_to64();
                assert(digits(0) == 0);
                assert(steps(0) * pow2(149) == 0) by (nonlinear_arith)
                    requires
                        steps(0) == digits(0) * pow2(binade(0)),
                        digits(0) == 0,
                ;
                lemma_nearest_zero(steps(mb as nat));
            }
            return Single { bits: sign };
        }
        Single { bits: sign + round_quotient(da, ka, db, kb) }
    }
}

} // verus!
