//! The colour type and its equality.
//!
//! In executable code `==` between two colours is [`Color::same`]: it lets
//! an RGB colour equal an HSL colour. In contracts `==` between two colours
//! says that they are one value, of one kind and with the same numbers; what
//! `==` computes is written `eq_spec` there.

use crate::convert::{hsl_of_rgb, rgb_to_hsl};
use vstd::prelude::*;
use vstd::std_specs::cmp::PartialEqSpec;

verus! {

/// A colour, held either as red, green and blue channels or as hue in
/// degrees with saturation and lightness in percent.
#[derive(Debug, Clone, Copy)]
pub enum Color {
    RGB(u8, u8, u8),
    HSL(u16, u8, u8),
}

impl Color {
    /// This colour in HSL: an RGB colour converted, an HSL colour as it is.
    pub open spec fn in_hsl(self) -> Color {
        match self {
            Color::RGB(r, g, b) => hsl_of_rgb(r, g, b),
            Color::HSL(_, _, _) => self,
        }
    }

    /// Whether two colours are the same: two RGB colours when their channels
    /// agree, any other pair when the two agree in HSL.
    pub open spec fn same(self, other: Color) -> bool {
        match (self, other) {
            (Color::RGB(r1, g1, b1), Color::RGB(r2, g2, b2)) => r1 == r2 && g1 == g2 && b1 == b2,
            _ => self.in_hsl() == other.in_hsl(),
        }
    }

    /// Whether this colour is the HSL colour with the given parts.
    fn is_hsl(&self, h: u16, s: u8, l: u8) -> (res: bool)
        ensures
            res == (*self == Color::HSL(h, s, l)),
    {
        match self {
            Color::RGB(_, _, _) => false,
            Color::HSL(self_h, self_s, self_l) => *self_h == h && *self_s == s && *self_l == l,
        }
    }
}

impl PartialEq for Color {
    fn eq(&self, other: &Color) -> (res: bool) {
        match self {
            Color::RGB(self_r, self_g, self_b) => match other {
                Color::RGB(other_r, other_g, other_b) => {
                    *self_r == *other_r && *self_g == *other_g && *self_b == *other_b
                },
                Color::HSL(other_h, other_s, other_l) => {
                    rgb_to_hsl(self_r, self_g, self_b).is_hsl(*other_h, *other_s, *other_l)
                },
            },
            Color::HSL(self_h, self_s, self_l) => match other {
                Color::RGB(other_r, other_g, other_b) => {
                    rgb_to_hsl(other_r, other_g, other_b).is_hsl(*self_h, *self_s, *self_l)
                },
                Color::HSL(other_h, other_s, other_l) => {
                    *self_h == *other_h && *self_s == *other_s && *self_l == *other_l
                },
            },
        }
    }
}

impl vstd::std_specs::cmp::PartialEqSpecImpl for Color {
    open spec fn obeys_eq_spec() -> bool {
        true
    }

    open spec fn eq_spec(&self, other: &Color) -> bool {
        self.same(*other)
    }
}

/// Every colour equals itself.
pub proof fn lemma_eq_reflexive(a: Color)
    ensures
        a.eq_spec(&a),
{
}

/// Equality does not depend on the side a colour stands on.
pub proof fn lemma_eq_symmetric(a: Color, b: Color)
    ensures
        a.eq_spec(&b) == b.eq_spec(&a),
{
}

/// An RGB colour equals the HSL colour it converts to, on either side.
pub proof fn lemma_rgb_equals_its_hsl(r: u8, g: u8, b: u8)
    ensures
        Color::RGB(r, g, b).eq_spec(&hsl_of_rgb(r, g, b)),
        hsl_of_rgb(r, g, b).eq_spec(&Color::RGB(r, g, b)),
{
}

/// Two RGB colours are equal exactly when all three channels agree.
pub proof fn lemma_rgb_eq_exact(r1: u8, g1: u8, b1: u8, r2: u8, g2: u8, b2: u8)
    ensures
        Color::RGB(r1, g1, b1).eq_spec(&Color::RGB(r2, g2, b2)) <==> r1 == r2 && g1 == g2 && b1
            == b2,
{
}

/// Two HSL colours are equal exactly when hue, saturation and lightness all
/// agree.
pub proof fn lemma_hsl_eq_exact(h1: u16, s1: u8, l1: u8, h2: u16, s2: u8, l2: u8)
    ensures
        Color::HSL(h1, s1, l1).eq_spec(&Color::HSL(h2, s2, l2)) <==> h1 == h2 && s1 == s2 && l1
            == l2,
{
}

/// An RGB colour equals an HSL colour, on either side, exactly when it
/// converts to that colour.
pub proof fn lemma_mixed_eq_exact(r: u8, g: u8, b: u8, h: u16, s: u8, l: u8)
    ensures
        Color::RGB(r, g, b).eq_spec(&Color::HSL(h, s, l)) <==> hsl_of_rgb(r, g, b) == Color::HSL(
            h,
            s,
            l,
        ),
        Color::HSL(h, s, l).eq_spec(&Color::RGB(r, g, b)) <==> hsl_of_rgb(r, g, b) == Color::HSL(
            h,
            s,
            l,
        ),
{
}

} // verus!
