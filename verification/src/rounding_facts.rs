//! What holds of the rounding in [`crate::rounding`].

use crate::rounding::{
    nearest_even, round_ratio, spacing_from, ONE, SIGNIFICAND_END, WIDEST_SPACING,
};
use vstd::prelude::*;

verus! {

/// Whether `k` is a power of two.
pub open spec fn power_of_two(k: int) -> bool
    decreases k,
{
    k == 1 || (k >= 2 && k % 2 == 0 && power_of_two(k / 2))
}

/// What the search for the spacing finds, when it starts at a power of two
/// `q` that the ratio is at least 2^23 times, or at one unit.
proof fn lemma_spacing_search(num: int, den: int, q: int, k: int)
    requires
        num >= 0,
        den > 0,
        q >= 1,
        k >= 1,
        q * k == WIDEST_SPACING,
        power_of_two(k),
        power_of_two(q),
        q > 1 ==> 2 * (num * ONE) >= q * SIGNIFICAND_END * den,
    ensures
        ({
            let s = spacing_from(num, den, q);
            &&& 1 <= s <= WIDEST_SPACING
            &&& power_of_two(s)
            &&& (WIDEST_SPACING as int) % s == 0
            &&& s == WIDEST_SPACING || num * ONE < s * SIGNIFICAND_END * den
            &&& s > 1 ==> 2 * (num * ONE) >= s * SIGNIFICAND_END * den
        }),
    decreases WIDEST_SPACING - q,
{
    assert(q <= WIDEST_SPACING && (k >= 2 ==> 2 * q <= WIDEST_SPACING) && (k == 1 ==> q
        == WIDEST_SPACING)) by (nonlinear_arith)
        requires
            q >= 1,
            k >= 1,
            q * k == WIDEST_SPACING,
    ;
    if 2 * q <= WIDEST_SPACING && num * ONE >= q * SIGNIFICAND_END * den {
        assert((2 * q) * (k / 2) == WIDEST_SPACING) by (nonlinear_arith)
            requires
                q * k == WIDEST_SPACING,
                k % 2 == 0,
        ;
        assert((2 * q) * SIGNIFICAND_END * den == 2 * (q * SIGNIFICAND_END * den))
            by (nonlinear_arith);
        lemma_spacing_search(num, den, 2 * q, k / 2);
    } else {
        assert((q * k) % q == 0) by (nonlinear_arith)
            requires
                q >= 1,
        ;
    }
}

/// Rounding zero gives zero.
pub proof fn lemma_round_ratio_of_zero(den: int)
    requires
        den > 0,
    ensures
        round_ratio(0, den) == 0,
{
    assert(1 * SIGNIFICAND_END * den > 0) by (nonlinear_arith)
        requires
            den > 0,
            SIGNIFICAND_END == 16777216,
    ;
    assert(spacing_from(0, den, 1) == 1);
    assert(0 * ONE == 0);
    assert(den * 1 == den);
    assert(0int / den == 0 && 0int % den == 0) by (nonlinear_arith)
        requires
            den > 0,
    ;
}

/// What the rounding of a ratio under 2^14 is, said without the search.
///
/// With `q` the spacing around `num / den` and `r` the rounded value:
/// `q` is a power of two, at most the widest spacing; unless `q` is one
/// unit, the ratio is at least 2^23 times `q`, and it is always less than
/// 2^24 times `q`, so that 24 digits are kept; `r` is a multiple `m` of `q`,
/// with `m` at most 2^24; `r` is within half a spacing of the ratio; and
/// where the ratio lies halfway between two multiples, `m` is even.
pub proof fn lemma_round_ratio_is_nearest(num: int, den: int)
    requires
        num >= 0,
        den > 0,
        num < 16384 * den,
    ensures
        ({
            let q = spacing_from(num, den, 1);
            let r = round_ratio(num, den);
            let m = nearest_even(num * ONE, den * q);
            &&& 1 <= q <= WIDEST_SPACING
            &&& power_of_two(q)
            &&& q > 1 ==> 2 * (num * ONE) >= q * SIGNIFICAND_END * den
            &&& num * ONE < q * SIGNIFICAND_END * den
            &&& 0 <= m <= SIGNIFICAND_END
            &&& r == q * m
            &&& -(q * den) <= 2 * (r * den - num * ONE) <= q * den
            &&& (2 * (r * den - num * ONE) == q * den || 2 * (r * den - num * ONE) == -(q * den))
                ==> m % 2 == 0
        }),
{
    let q = spacing_from(num, den, 1);
    let a = num * ONE;
    let b = den * q;
    let m = nearest_even(a, b);
    reveal_with_fuel(power_of_two, 32);
    assert(power_of_two(WIDEST_SPACING as int));
    lemma_spacing_search(num, den, 1, WIDEST_SPACING as int);
    assert(a < q * SIGNIFICAND_END * den) by {
        if q == WIDEST_SPACING {
            assert(num * ONE < WIDEST_SPACING * SIGNIFICAND_END * den) by (nonlinear_arith)
                requires
                    num < 16384 * den,
                    ONE == 1099511627776,
                    WIDEST_SPACING == 1073741824,
                    SIGNIFICAND_END == 16777216,
            ;
        }
    }
    assert(q * SIGNIFICAND_END * den == SIGNIFICAND_END * b) by (nonlinear_arith)
        requires
            b == den * q,
    ;
    assert(b > 0) by (nonlinear_arith)
        requires
            b == den * q,
            den > 0,
            q >= 1,
    ;
    assert(a == b * (a / b) + a % b && 0 <= a % b < b && 0 <= a / b < SIGNIFICAND_END)
        by (nonlinear_arith)
        requires
            a >= 0,
            b > 0,
            a < SIGNIFICAND_END * b,
    ;
    let floor = a / b;
    if m == floor {
        assert(m * b == b * floor) by (nonlinear_arith)
            requires
                m == floor,
        ;
    } else {
        assert(m * b == b * floor + b) by (nonlinear_arith)
            requires
                m == floor + 1,
        ;
    }
    let r = round_ratio(num, den);
    assert(r == q * m);
    assert(r * den == m * b && q * den == b) by (nonlinear_arith)
        requires
            r == q * m,
            b == den * q,
    ;
}

/// Rounding does not pass a bound that is a multiple of the widest spacing,
/// and so of every spacing: a ratio of at most `bound` units is rounded to at
/// most `bound` units.
pub proof fn lemma_round_ratio_at_most(num: int, den: int, bound: int)
    requires
        num >= 0,
        den > 0,
        bound >= 0,
        bound % (WIDEST_SPACING as int) == 0,
        num * ONE <= bound * den,
    ensures
        0 <= round_ratio(num, den) <= bound,
{
    let q = spacing_from(num, den, 1);
    let a = num * ONE;
    let b = den * q;
    let m = nearest_even(a, b);
    let w = WIDEST_SPACING as int;
    reveal_with_fuel(power_of_two, 32);
    assert(power_of_two(w));
    lemma_spacing_search(num, den, 1, w);
    let whole = (w / q) * (bound / w);
    assert(bound == q * whole && whole >= 0) by (nonlinear_arith)
        requires
            bound >= 0,
            w > 0,
            q > 0,
            bound % w == 0,
            w % q == 0,
            whole == (w / q) * (bound / w),
    ;
    assert(b > 0 && a <= whole * b) by (nonlinear_arith)
        requires
            b == den * q,
            den > 0,
            q >= 1,
            a <= bound * den,
            bound == q * whole,
    ;
    assert(a >= 0) by (nonlinear_arith)
        requires
            a == num * ONE,
            num >= 0,
    ;
    let floor = a / b;
    let rest = a % b;
    assert(a == b * floor + rest && 0 <= rest < b && floor >= 0) by (nonlinear_arith)
        requires
            a >= 0,
            b > 0,
            floor == a / b,
            rest == a % b,
    ;
    assert(floor <= whole && (floor == whole ==> rest == 0)) by (nonlinear_arith)
        requires
            a == b * floor + rest,
            0 <= rest < b,
            a <= whole * b,
    ;
    assert(0 <= m <= whole);
    assert(0 <= q * m <= q * whole && 0 <= q * SIGNIFICAND_END && (m >= SIGNIFICAND_END ==> q
        * SIGNIFICAND_END <= q * m)) by (nonlinear_arith)
        requires
            0 <= m <= whole,
            q >= 1,
    ;
}

/// Of two powers of two, the larger is at least twice the smaller.
proof fn lemma_powers_of_two_apart(x: int, y: int)
    requires
        power_of_two(x),
        power_of_two(y),
        x < y,
    ensures
        2 * x <= y,
    decreases y,
{
    if x != 1 {
        lemma_powers_of_two_apart(x / 2, y / 2);
    }
}

/// The nearest integer keeps the order of two numerators over one
/// denominator, and is the quotient cut down or the next integer.
proof fn lemma_nearest_even_grows(a1: int, a2: int, b: int)
    requires
        0 <= a1 <= a2,
        b > 0,
    ensures
        0 <= nearest_even(a1, b) <= nearest_even(a2, b),
        a1 / b <= nearest_even(a1, b) <= a1 / b + 1,
{
    let f1 = a1 / b;
    let f2 = a2 / b;
    let r1 = a1 % b;
    let r2 = a2 % b;
    assert(a1 == b * f1 + r1 && 0 <= r1 < b && f1 >= 0) by (nonlinear_arith)
        requires
            a1 >= 0,
            b > 0,
            f1 == a1 / b,
            r1 == a1 % b,
    ;
    assert(a2 == b * f2 + r2 && 0 <= r2 < b && f2 >= 0) by (nonlinear_arith)
        requires
            a2 >= 0,
            b > 0,
            f2 == a2 / b,
            r2 == a2 % b,
    ;
    assert(f1 <= f2 && (f1 == f2 ==> r1 <= r2)) by (nonlinear_arith)
        requires
            a1 == b * f1 + r1,
            a2 == b * f2 + r2,
            0 <= r1 < b,
            0 <= r2 < b,
            a1 <= a2,
    ;
}

/// Rounding keeps the order of two ratios over one denominator.
pub proof fn lemma_round_ratio_grows(num1: int, num2: int, den: int)
    requires
        0 <= num1 <= num2,
        den > 0,
    ensures
        0 <= round_ratio(num1, den) <= round_ratio(num2, den),
{
    let w = WIDEST_SPACING as int;
    let q1 = spacing_from(num1, den, 1);
    let q2 = spacing_from(num2, den, 1);
    let a1 = num1 * ONE;
    let a2 = num2 * ONE;
    reveal_with_fuel(power_of_two, 32);
    assert(power_of_two(w));
    lemma_spacing_search(num1, den, 1, w);
    lemma_spacing_search(num2, den, 1, w);
    assert(0 <= a1 <= a2) by (nonlinear_arith)
        requires
            0 <= num1 <= num2,
            a1 == num1 * ONE,
            a2 == num2 * ONE,
    ;
    let b1 = den * q1;
    let b2 = den * q2;
    assert(b1 > 0 && b2 > 0) by (nonlinear_arith)
        requires
            b1 == den * q1,
            b2 == den * q2,
            den > 0,
            q1 >= 1,
            q2 >= 1,
    ;
    let m1 = nearest_even(a1, b1);
    let m2 = nearest_even(a2, b2);
    lemma_nearest_even_grows(a1, a1, b1);
    lemma_nearest_even_grows(a2, a2, b2);
    let k1 = if m1 < SIGNIFICAND_END { m1 } else { SIGNIFICAND_END as int };
    let k2 = if m2 < SIGNIFICAND_END { m2 } else { SIGNIFICAND_END as int };
    assert(round_ratio(num1, den) == q1 * k1);
    assert(round_ratio(num2, den) == q2 * k2);
    if q1 > q2 {
        lemma_powers_of_two_apart(q2, q1);
        assert(false) by (nonlinear_arith)
            requires
                2 * q2 <= q1,
                q2 >= 1,
                den > 0,
                2 * a1 >= q1 * SIGNIFICAND_END * den,
                a2 < q2 * SIGNIFICAND_END * den,
                a1 <= a2,
                SIGNIFICAND_END == 16777216,
        ;
    } else if q1 == q2 {
        lemma_nearest_even_grows(a1, a2, b1);
        assert(0 <= q1 * k1 <= q2 * k2) by (nonlinear_arith)
            requires
                q1 == q2,
                q1 >= 1,
                0 <= k1 <= k2,
        ;
    } else {
        lemma_powers_of_two_apart(q1, q2);
        assert(a2 / b2 >= 8388608) by (nonlinear_arith)
            requires
                2 * a2 >= q2 * SIGNIFICAND_END * den,
                b2 == den * q2,
                b2 > 0,
                SIGNIFICAND_END == 16777216,
        ;
        assert(0 <= q1 * k1 <= q2 * k2) by (nonlinear_arith)
            requires
                2 * q1 <= q2,
                q1 >= 1,
                0 <= k1 <= 16777216,
                k2 >= 8388608,
        ;
    }
}

/// The rounded value of `num / den`, from a spacing `q` and a quotient
/// `floor` that are given: where `q` is the power of two that fits the
/// ratio and `floor` is `num / den` in multiples of `q`, cut down, the
/// rounded value is `q` times `floor` or `q` times the next integer, as the
/// rest decides.
pub proof fn lemma_round_ratio_from(num: int, den: int, q: int, floor: int)
    requires
        num >= 0,
        den > 0,
        1 <= q <= WIDEST_SPACING,
        power_of_two(q),
        q > 1 ==> 2 * (num * ONE) >= q * SIGNIFICAND_END * den,
        q < WIDEST_SPACING ==> num * ONE < q * SIGNIFICAND_END * den,
        0 <= floor < SIGNIFICAND_END,
        floor * (den * q) <= num * ONE < (floor + 1) * (den * q),
    ensures
        spacing_from(num, den, 1) == q,
        round_ratio(num, den) == q * floor || round_ratio(num, den) == q * (floor + 1),
        round_ratio(num, den) == q * floor <==> {
            let twice = 2 * (num * ONE - floor * (den * q));
            twice < den * q || (twice == den * q && floor % 2 == 0)
        },
{
    let w = WIDEST_SPACING as int;
    let s = spacing_from(num, den, 1);
    reveal_with_fuel(power_of_two, 32);
    assert(power_of_two(w));
    lemma_spacing_search(num, den, 1, w);
    let a = num * ONE;
    if s < q {
        lemma_powers_of_two_apart(s, q);
        assert(false) by (nonlinear_arith)
            requires
                2 * s <= q,
                s >= 1,
                den > 0,
                a < s * SIGNIFICAND_END * den,
                2 * a >= q * SIGNIFICAND_END * den,
                SIGNIFICAND_END == 16777216,
        ;
    }
    if q < s {
        lemma_powers_of_two_apart(q, s);
        assert(false) by (nonlinear_arith)
            requires
                2 * q <= s,
                q >= 1,
                den > 0,
                a < q * SIGNIFICAND_END * den,
                2 * a >= s * SIGNIFICAND_END * den,
                SIGNIFICAND_END == 16777216,
        ;
    }
    let b = den * q;
    assert(b > 0 && a / b == floor && a % b == a - floor * b) by (nonlinear_arith)
        requires
            b == den * q,
            den > 0,
            q >= 1,
            floor * b <= a < (floor + 1) * b,
    ;
    let m = nearest_even(a, b);
    assert(m == floor || m == floor + 1);
    assert(q * (floor + 1) != q * floor) by (nonlinear_arith)
        requires
            q >= 1,
    ;
}

} // verus!
