//! The conversion from RGB to HSL.
//!
//! Every step is carried out in the arithmetic of [`crate::rounding`]: each
//! quotient, sum, difference and product is rounded to 24 significant binary
//! digits before the next step uses it. All numbers here are counts of units
//! of 2^-40.

use crate::color::Color;
use crate::convert_facts::lemma_hsl_of_rgb_in_range;
use crate::rounding::{
    round_ratio, round_ratio_exec, round_signed, round_signed_exec, LARGEST, ONE,
};
use vstd::prelude::*;

verus! {

/// A channel as a fraction of 255.
pub open spec fn scaled(c: u8) -> int {
    round_ratio(c as int, 255)
}

/// The largest of three numbers.
pub open spec fn largest(a: int, b: int, c: int) -> int {
    if a >= b && a >= c {
        a
    } else if b >= c {
        b
    } else {
        c
    }
}

/// The smallest of three numbers.
pub open spec fn smallest(a: int, b: int, c: int) -> int {
    if a <= b && a <= c {
        a
    } else if b <= c {
        b
    } else {
        c
    }
}

/// The distance between the largest and the smallest scaled channel.
pub open spec fn chroma(r: u8, g: u8, b: u8) -> int {
    round_ratio(
        largest(scaled(r), scaled(g), scaled(b)) - smallest(scaled(r), scaled(g), scaled(b)),
        ONE as int,
    )
}

/// The difference `a - b` as a fraction of the chroma `c`.
pub open spec fn segment(a: int, b: int, c: int) -> int {
    round_signed(round_signed(a - b, ONE as int), c)
}

/// The place on the colour wheel, in sixths of a turn, of a colour with the
/// scaled channels `sr`, `sg`, `sb` and the chroma `c`, which is not zero.
/// The channel that equals the largest decides the formula, red before green
/// before blue. With red the largest, a negative segment is moved up by a
/// whole turn and any other is left as it is.
pub open spec fn sextant(sr: int, sg: int, sb: int, c: int) -> int {
    let max = largest(sr, sg, sb);
    if max == sr {
        let seg = segment(sg, sb, c);
        if seg < 0 {
            round_signed(seg + 6 * ONE, ONE as int)
        } else {
            seg
        }
    } else if max == sg {
        round_signed(segment(sb, sr, c) + 2 * ONE, ONE as int)
    } else {
        round_signed(segment(sr, sg, c) + 4 * ONE, ONE as int)
    }
}

/// The whole number nearest to `v` units, the one further from zero where
/// two are equally near, kept within what 16 bits hold.
pub open spec fn nearest_whole_u16(v: int) -> int {
    if v < 0 {
        0
    } else if (v + ONE / 2) / (ONE as int) > 0xffff {
        0xffff
    } else {
        (v + ONE / 2) / (ONE as int)
    }
}

/// The hue in degrees: 0 for a colour without chroma, else sixty times its
/// sextant, rounded to a whole number.
pub open spec fn hue_of(r: u8, g: u8, b: u8) -> int {
    if chroma(r, g, b) == 0 {
        0
    } else {
        nearest_whole_u16(
            round_signed(
                60 * sextant(scaled(r), scaled(g), scaled(b), chroma(r, g, b)),
                ONE as int,
            ),
        )
    }
}

/// Half the sum of the largest and the smallest scaled channel.
pub open spec fn lightness(r: u8, g: u8, b: u8) -> int {
    round_ratio(
        round_ratio(
            largest(scaled(r), scaled(g), scaled(b)) + smallest(scaled(r), scaled(g), scaled(b)),
            ONE as int,
        ),
        2 * ONE,
    )
}

/// A hundred times `v`, cut down to a whole number and kept within what
/// 8 bits hold.
pub open spec fn percent(v: int) -> int
    recommends
        v >= 0,
{
    let whole = round_ratio(100 * v, ONE as int) / (ONE as int);
    if whole > 0xff {
        0xff
    } else {
        whole
    }
}

/// The divisor of the saturation for lightness `l`: `1 - |2l - 1|`.
pub open spec fn saturation_divisor(l: int) -> int {
    let t = round_signed(round_ratio(2 * l, ONE as int) - ONE, ONE as int);
    round_signed(
        ONE - (if t < 0 {
            -t
        } else {
            t
        }),
        ONE as int,
    )
}

/// The saturation in percent of a colour with chroma `c` and lightness `l`.
///
/// At lightness 1 it is 0. Else it is the chroma over the divisor, in
/// percent. A divisor of zero under a chroma that is not zero gives the
/// largest value that 8 bits hold; a divisor of zero under a chroma of zero,
/// or a negative divisor, gives 0.
pub open spec fn saturation_percent(c: int, l: int) -> int {
    let d = saturation_divisor(l);
    if l == ONE {
        0
    } else if d > 0 {
        percent(round_ratio(c, d))
    } else if d == 0 && c > 0 {
        0xff
    } else {
        0
    }
}

/// The HSL colour that stands for the RGB colour `(r, g, b)`.
pub open spec fn hsl_of_rgb(r: u8, g: u8, b: u8) -> Color {
    Color::HSL(
        hue_of(r, g, b) as u16,
        saturation_percent(chroma(r, g, b), lightness(r, g, b)) as u8,
        percent(lightness(r, g, b)) as u8,
    )
}

/// The largest of three numbers.
fn largest_exec(a: u64, b: u64, c: u64) -> (m: u64)
    ensures
        m == largest(a as int, b as int, c as int),
{
    if a >= b && a >= c {
        a
    } else if b >= c {
        b
    } else {
        c
    }
}

/// The smallest of three numbers.
fn smallest_exec(a: u64, b: u64, c: u64) -> (m: u64)
    ensures
        m == smallest(a as int, b as int, c as int),
{
    if a <= b && a <= c {
        a
    } else if b <= c {
        b
    } else {
        c
    }
}

/// A channel as a fraction of 255.
fn scaled_exec(c: u8) -> (s: u64)
    ensures
        s == scaled(c),
        s <= LARGEST,
{
    round_ratio_exec(c as u64, 255)
}

/// The difference `a - b` as a fraction of the chroma `c`.
fn segment_exec(a: u64, b: u64, c: u64) -> (s: i64)
    requires
        a <= LARGEST,
        b <= LARGEST,
        c > 0,
    ensures
        s == segment(a as int, b as int, c as int),
        -LARGEST <= s <= LARGEST,
{
    let difference: i64 = round_signed_exec(a as i64 - b as i64, ONE);
    round_signed_exec(difference, c)
}

/// A hundred times `v`, cut down to a whole number of at most 255.
fn percent_exec(v: u64) -> (p: u8)
    requires
        v <= LARGEST,
    ensures
        p == percent(v as int),
{
    let whole: u64 = round_ratio_exec(100 * v, ONE) / ONE;
    if whole > 0xff {
        0xff
    } else {
        whole as u8
    }
}

/// The saturation in percent for chroma `c` and lightness `l`.
fn saturation_exec(c: u64, l: u64) -> (s: u8)
    requires
        c <= LARGEST,
        l <= LARGEST,
    ensures
        s == saturation_percent(c as int, l as int),
{
    if l == ONE {
        return 0;
    }
    let doubled: u64 = round_ratio_exec(2 * l, ONE);
    let t: i64 = round_signed_exec(doubled as i64 - ONE as i64, ONE);
    let size: i64 = if t < 0 {
        -t
    } else {
        t
    };
    let d: i64 = round_signed_exec(ONE as i64 - size, ONE);
    if d > 0 {
        percent_exec(round_ratio_exec(c, d as u64))
    } else if d == 0 && c > 0 {
        0xff
    } else {
        0
    }
}

/// The hue in degrees of a colour whose chroma `c` is not zero.
fn hue_exec(sr: u64, sg: u64, sb: u64, c: u64) -> (h: u16)
    requires
        sr <= LARGEST,
        sg <= LARGEST,
        sb <= LARGEST,
        c > 0,
    ensures
        h == nearest_whole_u16(
            round_signed(60 * sextant(sr as int, sg as int, sb as int, c as int), ONE as int),
        ),
{
    let max: u64 = largest_exec(sr, sg, sb);
    let sixth: i64 = if max == sr {
        let seg: i64 = segment_exec(sg, sb, c);
        if seg < 0 {
            round_signed_exec(seg + 6 * (ONE as i64), ONE)
        } else {
            seg
        }
    } else if max == sg {
        round_signed_exec(segment_exec(sb, sr, c) + 2 * (ONE as i64), ONE)
    } else {
        // The largest of three is one of them: red and green are ruled out.
        assert(max == sb);
        round_signed_exec(segment_exec(sr, sg, c) + 4 * (ONE as i64), ONE)
    };
    let degrees: i64 = round_signed_exec(60 * sixth, ONE);
    if degrees < 0 {
        0
    } else {
        ((degrees as u64 + ONE / 2) / ONE) as u16
    }
}

/// Converts an RGB colour to HSL.
///
/// The result is always an HSL colour, with a hue of at most 360 and a
/// saturation and a lightness of at most 100.
pub fn rgb_to_hsl(r: &u8, g: &u8, b: &u8) -> (c: Color)
    ensures
        c == hsl_of_rgb(*r, *g, *b),
        c matches Color::HSL(h, s, l) && h <= 360 && s <= 100 && l <= 100,
{
    proof {
        lemma_hsl_of_rgb_in_range(*r, *g, *b);
    }
    let sr: u64 = scaled_exec(*r);
    let sg: u64 = scaled_exec(*g);
    let sb: u64 = scaled_exec(*b);
    let max: u64 = largest_exec(sr, sg, sb);
    let min: u64 = smallest_exec(sr, sg, sb);
    let chroma: u64 = round_ratio_exec(max - min, ONE);
    let hue: u16 = if chroma == 0 {
        0
    } else {
        hue_exec(sr, sg, sb, chroma)
    };
    let lightness: u64 = round_ratio_exec(round_ratio_exec(max + min, ONE), 2 * ONE);
    Color::HSL(hue, saturation_exec(chroma, lightness), percent_exec(lightness))
}

} // verus!
