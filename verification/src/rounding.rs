//! Binary floating-point rounding, on integers.
//!
//! A number is held as a count of units of 2^-40, so [`ONE`] stands for 1.
//! The format modelled here keeps 24 significant binary digits and rounds to
//! the nearest value it can hold, to the even one of two that are equally
//! near. Between 2^-17 and 2^14 its values are spaced as those of IEEE 754
//! single precision. Below 2^-17 the spacing stays at one unit, and 2^14 is
//! the largest value.

use vstd::prelude::*;

verus! {

/// The number 1, in units of 2^-40.
pub const ONE: u64 = 1099511627776;

/// The number of multiples of its spacing below a value's next power of two:
/// 2^24.
pub const SIGNIFICAND_END: u64 = 16777216;

/// The widest spacing of the format, in units: 2^30.
pub const WIDEST_SPACING: u64 = 1073741824;

/// The largest value of the format, in units: 2^54.
pub const LARGEST: u64 = 18014398509481984;

/// The spacing of the format around `num / den`, in units, searched upwards
/// from `q`: the first of `q`, `2q`, `4q`, .. of which `num / den` is less
/// than 2^24 multiples, and the widest spacing if there is none.
pub open spec fn spacing_from(num: int, den: int, q: int) -> int
    decreases WIDEST_SPACING - q,
{
    if 1 <= q && 2 * q <= WIDEST_SPACING && num * ONE >= q * SIGNIFICAND_END * den {
        spacing_from(num, den, 2 * q)
    } else {
        q
    }
}

/// The integer nearest to `a / b`, the even one where two are equally near.
pub open spec fn nearest_even(a: int, b: int) -> int
    recommends
        a >= 0,
        b > 0,
{
    let floor = a / b;
    let rest = a % b;
    if 2 * rest < b {
        floor
    } else if 2 * rest > b {
        floor + 1
    } else if floor % 2 == 0 {
        floor
    } else {
        floor + 1
    }
}

/// The value of the format nearest to `num / den`, in units.
pub open spec fn round_ratio(num: int, den: int) -> int
    recommends
        num >= 0,
        den > 0,
{
    let q = spacing_from(num, den, 1);
    let m = nearest_even(num * ONE, den * q);
    if m < SIGNIFICAND_END {
        q * m
    } else {
        q * SIGNIFICAND_END
    }
}

/// [`round_ratio`] for a numerator of either sign: rounding is symmetric
/// about zero.
pub open spec fn round_signed(num: int, den: int) -> int
    recommends
        den > 0,
{
    if num < 0 {
        -round_ratio(-num, den)
    } else {
        round_ratio(num, den)
    }
}

/// Rounds `num / den` to the nearest value of the format.
pub fn round_ratio_exec(num: u64, den: u64) -> (r: u64)
    requires
        den > 0,
    ensures
        r == round_ratio(num as int, den as int),
        r <= LARGEST,
{
    assert(0 <= num * ONE <= 0xffff_ffff_ffff_ffff * 0x100_0000_0000) by (nonlinear_arith)
        requires
            0 <= num <= 0xffff_ffff_ffff_ffff,
            ONE == 0x100_0000_0000,
    ;
    let n: u128 = (num as u128) * (ONE as u128);
    let wide_den: u128 = den as u128;
    let mut q: u128 = 1;
    proof {
        lemma_product_fits(q as int * SIGNIFICAND_END as int, wide_den as int);
    }
    while 2 * q <= WIDEST_SPACING as u128 && n >= q * (SIGNIFICAND_END as u128) * wide_den
        invariant
            1 <= q <= WIDEST_SPACING,
            n == num * ONE,
            n <= 0xffff_ffff_ffff_ffff * 0x100_0000_0000,
            wide_den == den,
            spacing_from(num as int, den as int, 1) == spacing_from(num as int, den as int, q as int),
            q * SIGNIFICAND_END * wide_den <= u128::MAX,
        decreases WIDEST_SPACING - q,
    {
        q = 2 * q;
        proof {
            lemma_product_fits(q as int * SIGNIFICAND_END as int, wide_den as int);
        }
    }
    proof {
        lemma_product_fits(q as int, wide_den as int);
    }
    let d: u128 = wide_den * q;
    let floor: u128 = n / d;
    assert(n / d <= n) by (nonlinear_arith)
        requires
            d >= 1,
            n >= 0,
    ;
    let rest: u128 = n % d;
    let m: u128 = if 2 * rest < d {
        floor
    } else if 2 * rest > d {
        floor + 1
    } else if floor % 2 == 0 {
        floor
    } else {
        floor + 1
    };
    let kept: u128 = if m < SIGNIFICAND_END as u128 {
        m
    } else {
        SIGNIFICAND_END as u128
    };
    proof {
        lemma_scaled_fits(q as int, kept as int);
    }
    (q * kept) as u64
}

/// Rounds `num / den`, of either sign, to the nearest value of the format.
pub fn round_signed_exec(num: i64, den: u64) -> (r: i64)
    requires
        den > 0,
    ensures
        r == round_signed(num as int, den as int),
        -LARGEST <= r <= LARGEST,
{
    if num < 0 {
        let size: u64 = (-(num as i128)) as u64;
        -(round_ratio_exec(size, den) as i64)
    } else {
        round_ratio_exec(num as u64, den) as i64
    }
}

proof fn lemma_product_fits(a: int, d: int)
    by (nonlinear_arith)
    requires
        0 <= a <= 0x40_0000_0000_0000,
        0 <= d <= 0xffff_ffff_ffff_ffff,
    ensures
        0 <= a * d <= 0x40_0000_0000_0000 * 0xffff_ffff_ffff_ffff,
        a * d == d * a,
        a >= 1 && d >= 1 ==> a * d >= 1,
{
}

proof fn lemma_scaled_fits(q: int, m: int)
    by (nonlinear_arith)
    requires
        0 <= q <= 1073741824,
        0 <= m <= 16777216,
    ensures
        0 <= q * m <= 18014398509481984,
{
}

} // verus!
