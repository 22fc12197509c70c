//! What holds of the conversion in [`crate::convert`].

use crate::color::Color;
use crate::convert::{
    chroma, hsl_of_rgb, hue_of, largest, lightness, percent, saturation_divisor,
    saturation_percent, scaled, segment, sextant, smallest,
};
use crate::rounding::{
    round_ratio, round_signed, spacing_from, ONE, SIGNIFICAND_END, WIDEST_SPACING,
};
use crate::rounding_facts::{
    lemma_round_ratio_at_most, lemma_round_ratio_grows, lemma_round_ratio_is_nearest,
    lemma_round_ratio_of_zero,
};
use vstd::prelude::*;

verus! {

/// A colour whose three channels agree has hue 0 and saturation 0.
pub proof fn lemma_grey_has_no_hue_and_no_saturation(v: u8)
    ensures
        chroma(v, v, v) == 0,
        hsl_of_rgb(v, v, v) == Color::HSL(0, 0, percent(lightness(v, v, v)) as u8),
{
    lemma_round_ratio_of_zero(ONE as int);
    let d = saturation_divisor(lightness(v, v, v));
    if d > 0 {
        lemma_round_ratio_of_zero(d);
        assert(100 * 0 == 0);
        assert(percent(0) == 0);
    }
}

/// At lightness 1 the saturation is 0, whatever the chroma.
pub proof fn lemma_full_lightness_has_no_saturation(c: int)
    ensures
        saturation_percent(c, ONE as int) == 0,
{
}

/// A scaled channel lies between 0 and 1.
pub proof fn lemma_scaled_at_most_one(c: u8)
    ensures
        0 <= scaled(c) <= ONE,
{
    assert(c * ONE <= ONE * 255) by (nonlinear_arith)
        requires
            0 <= c <= 255,
    ;
    lemma_round_ratio_at_most(c as int, 255, ONE as int);
}

/// The lightness lies between 0 and 1, and between 0 and 100 in percent.
pub proof fn lemma_lightness_at_most_one(r: u8, g: u8, b: u8)
    ensures
        0 <= lightness(r, g, b) <= ONE,
        0 <= percent(lightness(r, g, b)) <= 100,
{
    lemma_scaled_at_most_one(r);
    lemma_scaled_at_most_one(g);
    lemma_scaled_at_most_one(b);
    let sum = largest(scaled(r), scaled(g), scaled(b)) + smallest(scaled(r), scaled(g), scaled(b));
    assert(sum * ONE <= (2 * ONE) * ONE) by (nonlinear_arith)
        requires
            sum <= 2 * ONE,
    ;
    lemma_round_ratio_at_most(sum, ONE as int, 2 * ONE);
    let rounded = round_ratio(sum, ONE as int);
    assert(rounded * ONE <= ONE * (2 * ONE)) by (nonlinear_arith)
        requires
            rounded <= 2 * ONE,
    ;
    lemma_round_ratio_at_most(rounded, 2 * ONE, ONE as int);
    let l = lightness(r, g, b);
    assert((100 * l) * ONE <= (100 * ONE) * ONE) by (nonlinear_arith)
        requires
            l <= ONE,
    ;
    lemma_round_ratio_at_most(100 * l, ONE as int, 100 * ONE);
}

/// A number between 0 and a bound that is a multiple of the widest spacing
/// is rounded to a number between the two.
proof fn lemma_rounded_at_most(v: int, bound: int)
    requires
        0 <= v <= bound,
        bound % (WIDEST_SPACING as int) == 0,
    ensures
        0 <= round_signed(v, ONE as int) <= bound,
{
    assert(v * ONE <= bound * ONE) by (nonlinear_arith)
        requires
            v <= bound,
    ;
    lemma_round_ratio_at_most(v, ONE as int, bound);
}

/// A segment between two channels lies between -1 and 1, when the chroma
/// `c` comes from a largest and a smallest channel that enclose them.
pub proof fn lemma_segment_within_one(a: int, b: int, max: int, min: int, c: int)
    requires
        0 <= min <= a <= max,
        min <= b <= max,
        c == round_ratio(max - min, ONE as int),
        c > 0,
    ensures
        -ONE <= segment(a, b, c) <= ONE,
{
    let size = if a < b {
        b - a
    } else {
        a - b
    };
    lemma_round_ratio_grows(size, max - min, ONE as int);
    let rounded = round_ratio(size, ONE as int);
    assert(rounded * ONE <= ONE * c) by (nonlinear_arith)
        requires
            rounded <= c,
    ;
    lemma_round_ratio_at_most(rounded, c, ONE as int);
}

/// The hue lies between 0 and 360 degrees, both included.
pub proof fn lemma_hue_at_most_360(r: u8, g: u8, b: u8)
    ensures
        0 <= hue_of(r, g, b) <= 360,
{
    lemma_scaled_at_most_one(r);
    lemma_scaled_at_most_one(g);
    lemma_scaled_at_most_one(b);
    let (sr, sg, sb) = (scaled(r), scaled(g), scaled(b));
    let max = largest(sr, sg, sb);
    let min = smallest(sr, sg, sb);
    let c = chroma(r, g, b);
    lemma_rounded_at_most(max - min, ONE as int);
    if c != 0 {
        lemma_segment_within_one(sg, sb, max, min, c);
        lemma_segment_within_one(sb, sr, max, min, c);
        lemma_segment_within_one(sr, sg, max, min, c);
        let x = sextant(sr, sg, sb, c);
        if max == sr {
            let seg = segment(sg, sb, c);
            if seg < 0 {
                lemma_rounded_at_most(seg + 6 * ONE, 6 * ONE);
            }
        } else if max == sg {
            lemma_rounded_at_most(segment(sb, sr, c) + 2 * ONE, 6 * ONE);
        } else {
            lemma_rounded_at_most(segment(sr, sg, c) + 4 * ONE, 6 * ONE);
        }
        assert(0 <= x <= 6 * ONE);
        lemma_rounded_at_most(60 * x, 360 * ONE);
    }
}

/// Rounding a number between -4 and 4 moves it by at most 2^18 units.
proof fn lemma_rounding_moves_little(v: int)
    requires
        -4 * ONE <= v <= 4 * ONE,
    ensures
        -262144 <= round_signed(v, ONE as int) - v <= 262144,
{
    let size = if v < 0 {
        -v
    } else {
        v
    };
    let den = ONE as int;
    lemma_round_ratio_is_nearest(size, den);
    let q = spacing_from(size, den, 1);
    let r = round_ratio(size, den);
    assert(q <= 524288) by (nonlinear_arith)
        requires
            q >= 1,
            q > 1 ==> 2 * (size * ONE) >= q * SIGNIFICAND_END * den,
            0 <= size <= 4 * ONE,
            den == 1099511627776,
            ONE == 1099511627776,
            SIGNIFICAND_END == 16777216,
    ;
    assert(-q <= 2 * (r - size) <= q) by (nonlinear_arith)
        requires
            -(q * den) <= 2 * (r * den - size * ONE) <= q * den,
            den == 1099511627776,
            ONE == 1099511627776,
    ;
}

/// Two different channels are at least 2^31 units apart once scaled.
proof fn lemma_scaled_channels_apart(a: u8, b: u8)
    requires
        a < b,
    ensures
        scaled(b) - scaled(a) >= 2147483648,
{
    let den = 255int;
    lemma_round_ratio_is_nearest(a as int, den);
    lemma_round_ratio_is_nearest(b as int, den);
    let qa = spacing_from(a as int, den, 1);
    let qb = spacing_from(b as int, den, 1);
    let sa = scaled(a);
    let sb = scaled(b);
    assert(qa <= 131072) by (nonlinear_arith)
        requires
            qa >= 1,
            qa > 1 ==> 2 * (a * ONE) >= qa * SIGNIFICAND_END * den,
            0 <= a <= 255,
            den == 255,
            ONE == 1099511627776,
            SIGNIFICAND_END == 16777216,
    ;
    assert(qb <= 131072) by (nonlinear_arith)
        requires
            qb >= 1,
            qb > 1 ==> 2 * (b * ONE) >= qb * SIGNIFICAND_END * den,
            0 <= b <= 255,
            den == 255,
            ONE == 1099511627776,
            SIGNIFICAND_END == 16777216,
    ;
    assert(255 * (sb - sa) >= 1099511627776 - 131072 * 255) by (nonlinear_arith)
        requires
            -(qa * den) <= 2 * (sa * den - a * ONE) <= qa * den,
            -(qb * den) <= 2 * (sb * den - b * ONE) <= qb * den,
            1 <= qa <= 131072,
            1 <= qb <= 131072,
            a + 1 <= b,
            den == 255,
            ONE == 1099511627776,
    ;
}

/// The saturation lies between 0 and 100 percent.
pub proof fn lemma_saturation_at_most_100(r: u8, g: u8, b: u8)
    ensures
        0 <= saturation_percent(chroma(r, g, b), lightness(r, g, b)) <= 100,
{
    lemma_scaled_at_most_one(r);
    lemma_scaled_at_most_one(g);
    lemma_scaled_at_most_one(b);
    lemma_lightness_at_most_one(r, g, b);
    let (sr, sg, sb) = (scaled(r), scaled(g), scaled(b));
    let max = largest(sr, sg, sb);
    let min = smallest(sr, sg, sb);
    let c = chroma(r, g, b);
    let l = lightness(r, g, b);
    let d = saturation_divisor(l);
    let one = ONE as int;
    // The chroma and the rounded sum are near the exact difference and sum.
    lemma_rounding_moves_little(max - min);
    lemma_rounding_moves_little(max + min);
    lemma_rounded_at_most(max + min, 2 * ONE);
    let sum = round_ratio(max + min, one);
    // Halving moves the sum by at most half its spacing.
    lemma_round_ratio_is_nearest(sum, 2 * ONE);
    let q = spacing_from(sum, 2 * ONE, 1);
    assert(q <= 131072) by (nonlinear_arith)
        requires
            q >= 1,
            q > 1 ==> 2 * (sum * ONE) >= q * SIGNIFICAND_END * (2 * ONE),
            0 <= sum <= 2 * ONE,
            ONE == 1099511627776,
            SIGNIFICAND_END == 16777216,
    ;
    assert(-q <= 2 * l - sum <= q) by (nonlinear_arith)
        requires
            -(q * (2 * ONE)) <= 2 * (l * (2 * ONE) - sum * ONE) <= q * (2 * ONE),
            ONE == 1099511627776,
    ;
    // The divisor is near 1 - |2l - 1|.
    lemma_rounding_moves_little(2 * l);
    lemma_rounded_at_most(2 * l, 2 * ONE);
    let doubled = round_ratio(2 * l, one);
    lemma_rounding_moves_little(doubled - ONE);
    let t = round_signed(doubled - ONE, one);
    lemma_rounded_at_most(
        if doubled < ONE {
            ONE - doubled
        } else {
            doubled - ONE
        },
        one,
    );
    let size = if t < 0 {
        -t
    } else {
        t
    };
    assert(0 <= size <= ONE);
    lemma_rounding_moves_little(ONE - size);
    lemma_rounded_at_most(ONE - size, one);
    assert(d == round_signed(ONE - size, one));
    assert(d >= c - 4194304);
    if l != ONE {
        if c == 0 {
            if d > 0 {
                lemma_round_ratio_of_zero(d);
                assert(100 * 0 == 0);
                lemma_round_ratio_of_zero(one);
            }
        } else {
            // The channels differ, and by enough for the chroma to be large.
            lemma_round_ratio_of_zero(one);
            assert(max != min);
            if r < g {
                lemma_scaled_channels_apart(r, g);
            }
            if g < r {
                lemma_scaled_channels_apart(g, r);
            }
            if r < b {
                lemma_scaled_channels_apart(r, b);
            }
            if b < r {
                lemma_scaled_channels_apart(b, r);
            }
            if g < b {
                lemma_scaled_channels_apart(g, b);
            }
            if b < g {
                lemma_scaled_channels_apart(b, g);
            }
            assert(max - min >= 2147483648);
            assert(c >= 1073741824);
            assert(d >= 1);
            let top = ONE + 8589934592;
            assert(c * ONE <= top * d) by (nonlinear_arith)
                requires
                    c >= 1073741824,
                    d >= c - 4194304,
                    top == ONE + 8589934592,
                    ONE == 1099511627776,
            ;
            lemma_round_ratio_at_most(c, d, top);
            let s = round_ratio(c, d);
            lemma_rounded_at_most(100 * s, 100 * top);
        }
    }
}

/// What an RGB colour converts to is an HSL colour with a hue of at most
/// 360 degrees and a saturation and a lightness of at most 100 percent.
pub proof fn lemma_hsl_of_rgb_in_range(r: u8, g: u8, b: u8)
    ensures
        hsl_of_rgb(r, g, b) matches Color::HSL(h, s, l) && h <= 360 && s <= 100 && l <= 100
            && h == hue_of(r, g, b) && s == saturation_percent(
            chroma(r, g, b),
            lightness(r, g, b),
        ) && l == percent(lightness(r, g, b)),
{
    lemma_hue_at_most_360(r, g, b);
    lemma_saturation_at_most_100(r, g, b);
    lemma_lightness_at_most_one(r, g, b);
}

} // verus!
