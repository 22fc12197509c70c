use colorspace::{rgb_to_hsl, Color};

/// The conversion carried out in single precision.
fn single_precision_hsl(r: u8, g: u8, b: u8) -> (u16, u8, u8) {
    let sr = r as f32 / 255.0;
    let sg = g as f32 / 255.0;
    let sb = b as f32 / 255.0;
    let max = sr.max(sg).max(sb);
    let min = sr.min(sg).min(sb);
    let chroma = max - min;
    let hue = if chroma == 0.0 {
        0
    } else {
        let sixth = if max == sr {
            let segment = (sg - sb) / chroma;
            if segment < 0.0 {
                segment + 6.0
            } else {
                segment
            }
        } else if max == sg {
            (sb - sr) / chroma + 2.0
        } else {
            (sr - sg) / chroma + 4.0
        };
        (sixth * 60.0).round() as u16
    };
    let lightness = 0.5 * (max + min);
    let saturation = if lightness == 1.0 {
        0.0
    } else {
        chroma / (1.0 - (2.0 * lightness - 1.0).abs())
    };
    (hue, (saturation * 100.0) as u8, (lightness * 100.0) as u8)
}

/// Compares the two conversions on every colour whose red channel lies in
/// `first..=last`, and checks that each colour equals its conversion and
/// that hue, saturation and lightness stay within 360, 100 and 100.
fn compare_reds(first: u8, last: u8) {
    for r in first..=last {
        for g in 0u8..=255 {
            for b in 0u8..=255 {
                let expected = single_precision_hsl(r, g, b);
                let got = rgb_to_hsl(&r, &g, &b);
                assert!(Color::RGB(r, g, b) == got && got == Color::RGB(r, g, b));
                if let Color::HSL(h, s, l) = got {
                    assert!(h <= 360 && s <= 100 && l <= 100, "({}, {}, {}): {:?}", r, g, b, got);
                }
                assert!(
                    got == Color::HSL(expected.0, expected.1, expected.2),
                    "({}, {}, {}): {:?}, single precision gives {:?}",
                    r,
                    g,
                    b,
                    got,
                    expected
                );
            }
        }
    }
}

#[test]
fn every_colour_with_red_0_to_15_agrees_with_single_precision() {
    compare_reds(0, 15);
}

#[test]
fn every_colour_with_red_16_to_31_agrees_with_single_precision() {
    compare_reds(16, 31);
}

#[test]
fn every_colour_with_red_32_to_47_agrees_with_single_precision() {
    compare_reds(32, 47);
}

#[test]
fn every_colour_with_red_48_to_63_agrees_with_single_precision() {
    compare_reds(48, 63);
}

#[test]
fn every_colour_with_red_64_to_79_agrees_with_single_precision() {
    compare_reds(64, 79);
}

#[test]
fn every_colour_with_red_80_to_95_agrees_with_single_precision() {
    compare_reds(80, 95);
}

#[test]
fn every_colour_with_red_96_to_111_agrees_with_single_precision() {
    compare_reds(96, 111);
}

#[test]
fn every_colour_with_red_112_to_127_agrees_with_single_precision() {
    compare_reds(112, 127);
}

#[test]
fn every_colour_with_red_128_to_143_agrees_with_single_precision() {
    compare_reds(128, 143);
}

#[test]
fn every_colour_with_red_144_to_159_agrees_with_single_precision() {
    compare_reds(144, 159);
}

#[test]
fn every_colour_with_red_160_to_175_agrees_with_single_precision() {
    compare_reds(160, 175);
}

#[test]
fn every_colour_with_red_176_to_191_agrees_with_single_precision() {
    compare_reds(176, 191);
}

#[test]
fn every_colour_with_red_192_to_207_agrees_with_single_precision() {
    compare_reds(192, 207);
}

#[test]
fn every_colour_with_red_208_to_223_agrees_with_single_precision() {
    compare_reds(208, 223);
}

#[test]
fn every_colour_with_red_224_to_239_agrees_with_single_precision() {
    compare_reds(224, 239);
}

#[test]
fn every_colour_with_red_240_to_255_agrees_with_single_precision() {
    compare_reds(240, 255);
}
