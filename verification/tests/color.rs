use colorspace::Color;
use colorspace::rgb_to_hsl;

#[test]
fn color_can_be_rgb() {
    let rgb_color = Color::RGB(200, 100, 54);
    if let Color::RGB(r, g, b) = rgb_color {
        assert_eq!(r, 200);
        assert_eq!(g, 100);
        assert_eq!(b, 54);
    }
}

#[test]
fn color_can_be_hsl() {
    let hsl_color = Color::HSL(299, 78, 12);
    if let Color::HSL(h, s, l) = hsl_color {
        assert_eq!(h, 299);
        assert_eq!(s, 78);
        assert_eq!(l, 12);
    }
}

#[test]
fn color_eq() {
    assert_eq!(Color::RGB(150, 50, 60), Color::HSL(354, 50, 39));
    assert_eq!(Color::HSL(354, 50, 39), Color::RGB(150, 50, 60));
    assert_eq!(Color::RGB(150, 50, 60), Color::RGB(150, 50, 60));
    assert_eq!(Color::HSL(354, 50, 39), Color::HSL(354, 50, 39));
}

fn parts(c: Color) -> (u16, u8, u8) {
    match c {
        Color::HSL(h, s, l) => (h, s, l),
        Color::RGB(_, _, _) => panic!("the conversion gives an HSL colour"),
    }
}

fn hsl(r: u8, g: u8, b: u8) -> (u16, u8, u8) {
    parts(rgb_to_hsl(&r, &g, &b))
}

#[test]
fn rgb_variant_is_told_from_hsl_variant() {
    assert!(matches!(Color::RGB(200, 100, 54), Color::RGB(200, 100, 54)));
    assert!(matches!(Color::HSL(299, 78, 12), Color::HSL(299, 78, 12)));
    assert!(!matches!(Color::RGB(1, 2, 3), Color::HSL(_, _, _)));
}

#[test]
fn conversion_of_the_sample_colour() {
    assert_eq!(hsl(150, 50, 60), (354, 50, 39));
}

#[test]
fn grey_has_no_hue_and_no_saturation() {
    assert_eq!(hsl(128, 128, 128), (0, 0, 50));
    assert_eq!(hsl(1, 1, 1), (0, 0, 0));
    assert_eq!(hsl(254, 254, 254), (0, 0, 99));
}

#[test]
fn white_has_saturation_zero() {
    assert_eq!(hsl(255, 255, 255), (0, 0, 100));
}

#[test]
fn black_has_saturation_zero() {
    assert_eq!(hsl(0, 0, 0), (0, 0, 0));
}

#[test]
fn primaries_and_secondaries() {
    assert_eq!(hsl(255, 0, 0), (0, 100, 50));
    assert_eq!(hsl(0, 255, 0), (120, 100, 50));
    assert_eq!(hsl(0, 0, 255), (240, 100, 50));
    assert_eq!(hsl(255, 255, 0), (60, 100, 50));
    assert_eq!(hsl(0, 255, 255), (180, 100, 50));
    assert_eq!(hsl(255, 0, 255), (300, 100, 50));
}

#[test]
fn red_largest_with_negative_segment_wraps_by_a_turn() {
    assert_eq!(hsl(255, 0, 1), (360, 100, 50));
    assert_eq!(hsl(255, 0, 128), (330, 100, 50));
    assert_eq!(hsl(200, 100, 54), (19, 57, 49));
}

#[test]
fn ties_for_the_largest_channel_go_to_red_then_green() {
    assert_eq!(hsl(200, 200, 10), (60, 90, 41));
    assert_eq!(hsl(10, 200, 200), (180, 90, 41));
    assert_eq!(hsl(200, 10, 200), (300, 90, 41));
}

#[test]
fn saturation_and_lightness_are_cut_not_rounded() {
    assert_eq!(hsl(1, 2, 3), (210, 50, 0));
    assert_eq!(hsl(254, 255, 255), (180, 100, 99));
    assert_eq!(hsl(150, 50, 60).2, 39);
}

#[test]
fn rounding_to_24_digits_shows_in_the_result() {
    assert_eq!(hsl(0, 0, 65), (240, 99, 12));
    assert_eq!(hsl(0, 0, 67), (240, 99, 13));
    assert_eq!(hsl(0, 17, 24), (197, 100, 4));
    assert_eq!(hsl(0, 72, 57), (167, 100, 14));
}

#[test]
fn rgb_equals_its_own_conversion() {
    for r in (0u16..256).step_by(15) {
        for g in (0u16..256).step_by(17) {
            for b in (0u16..256).step_by(5) {
                let (r, g, b) = (r as u8, g as u8, b as u8);
                let rgb = Color::RGB(r, g, b);
                assert!(rgb == Color::RGB(r, g, b));
                assert!(rgb == rgb_to_hsl(&r, &g, &b));
                assert!(rgb_to_hsl(&r, &g, &b) == rgb);
            }
        }
    }
}

#[test]
fn equality_is_symmetric() {
    let colors = [
        Color::RGB(150, 50, 60),
        Color::RGB(150, 50, 61),
        Color::RGB(0, 0, 0),
        Color::RGB(255, 255, 255),
        Color::HSL(354, 50, 39),
        Color::HSL(354, 50, 40),
        Color::HSL(0, 0, 0),
        Color::HSL(0, 0, 100),
        Color::HSL(400, 200, 200),
    ];
    for a in colors.iter() {
        for b in colors.iter() {
            assert_eq!(a == b, b == a);
        }
        assert!(a == a);
    }
}

#[test]
fn hsl_colours_are_equal_only_when_all_parts_agree() {
    assert!(Color::HSL(354, 50, 39) == Color::HSL(354, 50, 39));
    assert!(Color::HSL(354, 50, 39) != Color::HSL(353, 50, 39));
    assert!(Color::HSL(354, 50, 39) != Color::HSL(354, 51, 39));
    assert!(Color::HSL(354, 50, 39) != Color::HSL(354, 50, 38));
    assert!(Color::HSL(400, 200, 200) == Color::HSL(400, 200, 200));
}

#[test]
fn rgb_colours_are_equal_only_when_all_channels_agree() {
    assert!(Color::RGB(150, 50, 60) != Color::RGB(151, 50, 60));
    assert!(Color::RGB(150, 50, 60) != Color::RGB(150, 51, 60));
    assert!(Color::RGB(150, 50, 60) != Color::RGB(150, 50, 61));
    // Two greys that convert alike are still two RGB colours.
    assert_eq!(hsl(128, 128, 128), hsl(129, 129, 129));
    assert!(Color::RGB(128, 128, 128) != Color::RGB(129, 129, 129));
}

#[test]
fn mixed_comparison_goes_through_the_conversion() {
    assert!(Color::RGB(150, 50, 60) != Color::HSL(354, 50, 40));
    assert!(Color::HSL(355, 50, 39) != Color::RGB(150, 50, 60));
    assert!(Color::RGB(0, 0, 65) == Color::HSL(240, 99, 12));
    assert!(Color::RGB(0, 0, 65) != Color::HSL(240, 100, 12));
    assert!(Color::RGB(128, 128, 128) == Color::HSL(0, 0, 50));
    assert!(Color::HSL(0, 0, 100) == Color::RGB(255, 255, 255));
}
