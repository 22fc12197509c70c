use colorspace::Color;
use colorspace::rgb_to_hsl;
use colorspace::rounding::{round_ratio_exec, round_signed_exec, LARGEST, ONE};

/// What single precision holds for `x`, in units of 2^-40.
fn units(x: f32) -> i64 {
    (x as f64 * ONE as f64) as i64
}

#[test]
fn values_the_format_holds_are_kept() {
    assert_eq!(round_ratio_exec(0, 7), 0);
    assert_eq!(round_ratio_exec(255, 255), ONE);
    assert_eq!(round_ratio_exec(5, 1), 5 * ONE);
    assert_eq!(round_ratio_exec(300, 1), 300 * ONE);
    assert_eq!(round_ratio_exec(1, 1 << 17), 1 << 23);
    assert_eq!(round_ratio_exec(3, 4), 3 * (ONE / 4));
}

#[test]
fn quotients_are_rounded_to_24_digits() {
    assert_eq!(round_ratio_exec(1, 3), 366503886848);
    assert_eq!(round_ratio_exec(2, 3), 733007773696);
    assert_eq!(round_ratio_exec(1, 10), 109951164416);
    assert_eq!(round_ratio_exec(1, 255), 4311810560);
}

#[test]
fn halfway_goes_to_the_even_neighbour() {
    assert_eq!(round_ratio_exec((1 << 24) + 1, 1 << 24), ONE);
    assert_eq!(round_ratio_exec((1 << 24) + 3, 1 << 24), ONE + (1 << 18));
    assert_eq!(round_ratio_exec((1 << 24) + 2, 1 << 24), ONE + (1 << 17));
    assert_eq!(round_ratio_exec((1 << 25) - 1, 1 << 24), 2 * ONE);
}

#[test]
fn small_values_are_spaced_by_one_unit() {
    assert_eq!(round_ratio_exec(1, 1 << 41), 0);
    assert_eq!(round_ratio_exec(3, 1 << 41), 2);
    assert_eq!(round_ratio_exec(1, 1 << 42), 0);
    assert_eq!(round_ratio_exec(1, 1 << 40), 1);
}

#[test]
fn large_values_stop_at_the_largest() {
    assert_eq!(round_ratio_exec(16383, 1), 16383 * ONE);
    assert_eq!(round_ratio_exec(16384, 1), LARGEST);
    assert_eq!(round_ratio_exec(1 << 60, 1), LARGEST);
    assert_eq!(round_ratio_exec(u64::MAX, 1), LARGEST);
    assert_eq!(round_ratio_exec(33554431, 1 << 11), LARGEST);
}

#[test]
fn signed_rounding_mirrors_unsigned_rounding() {
    assert_eq!(round_signed_exec(-1, 3), -366503886848);
    assert_eq!(round_signed_exec(1, 3), 366503886848);
    assert_eq!(round_signed_exec(0, 3), 0);
    assert_eq!(round_signed_exec(i64::MIN, 1), -(LARGEST as i64));
    assert_eq!(round_signed_exec(i64::MAX, 1), LARGEST as i64);
}

#[test]
fn rounding_agrees_with_single_precision_division() {
    for num in 0u64..=300 {
        for den in 1u64..=300 {
            let q = num as f32 / den as f32;
            assert_eq!(round_ratio_exec(num, den) as i64, units(q), "{} / {}", num, den);
            assert_eq!(round_signed_exec(-(num as i64), den), -units(q), "-{} / {}", num, den);
        }
    }
}

/// The conversion carried out in single precision.
fn single_precision_hsl(r: u8, g: u8, b: u8) -> (u16, u8, u8) {
    let sr = r as f32 / 255.0;
    let sg = g as f32 / 255.0;
    let sb = b as f32 / 255.0;
    let max = sr.max(sg).max(sb);
    let min = sr.min(sg).min(sb);
    let chroma = max - min;
    let hue = if chroma == 0.0 {
        0
    } else {
        let sixth = if max == sr {
            let segment = (sg - sb) / chroma;
            if segment < 0.0 {
                segment + 6.0
            } else {
                segment
            }
        } else if max == sg {
            (sb - sr) / chroma + 2.0
        } else {
            (sr - sg) / chroma + 4.0
        };
        (sixth * 60.0).round() as u16
    };
    let lightness = 0.5 * (max + min);
    let saturation = if lightness == 1.0 {
        0.0
    } else {
        chroma / (1.0 - (2.0 * lightness - 1.0).abs())
    };
    (hue, (saturation * 100.0) as u8, (lightness * 100.0) as u8)
}

fn agrees_with_single_precision(r: u8, g: u8, b: u8) {
    let expected = single_precision_hsl(r, g, b);
    let got = rgb_to_hsl(&r, &g, &b);
    assert!(
        got == Color::HSL(expected.0, expected.1, expected.2),
        "({}, {}, {}): {:?}, single precision gives {:?}",
        r,
        g,
        b,
        got,
        expected
    );
}

#[test]
fn conversion_agrees_with_single_precision_on_a_grid() {
    for r in (0u16..256).step_by(5) {
        for g in (0u16..256).step_by(3) {
            for b in (0u16..256).step_by(7) {
                agrees_with_single_precision(r as u8, g as u8, b as u8);
            }
        }
    }
}

#[test]
fn conversion_agrees_with_single_precision_without_red() {
    for g in 0u16..256 {
        for b in 0u16..256 {
            agrees_with_single_precision(0, g as u8, b as u8);
        }
    }
}

#[test]
fn conversion_agrees_with_single_precision_at_full_green() {
    for r in 0u16..256 {
        for b in 0u16..256 {
            agrees_with_single_precision(r as u8, 255, b as u8);
        }
    }
}

#[test]
fn conversion_agrees_with_single_precision_at_half_blue() {
    for r in 0u16..256 {
        for g in 0u16..256 {
            agrees_with_single_precision(r as u8, g as u8, 128);
        }
    }
}

#[test]
fn conversion_agrees_with_single_precision_on_greys_and_near_greys() {
    for v in 0u16..256 {
        let v = v as u8;
        agrees_with_single_precision(v, v, v);
        agrees_with_single_precision(v, v, v.saturating_add(1));
        agrees_with_single_precision(v, v.saturating_add(1), v);
        agrees_with_single_precision(v.saturating_add(1), v, v);
        agrees_with_single_precision(v, v, v.saturating_sub(1));
    }
}
