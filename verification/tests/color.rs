use veneer::color::{
    hex_to_rgb, is_hex_color, rgb_to_hsl, to_canonical, to_hex8, Hsl, Ratio,
};
use veneer::resolve::normalize_hex;
use veneer::error::Failure;

fn value(x: Ratio) -> f64 {
    x.num as f64 / x.den as f64
}

#[test]
fn hex_colors_are_recognised() {
    assert!(is_hex_color("#aabbcc"));
    assert!(is_hex_color("#AABBCC"));
    assert!(is_hex_color("#09afAF"));
    assert!(!is_hex_color("#GGGGGG"));
    assert!(!is_hex_color("aabbcc"));
    assert!(!is_hex_color("#aabbc"));
    assert!(!is_hex_color("#aabbccd"));
    assert!(!is_hex_color("#aabbcc\n"));
    assert!(!is_hex_color(" #aabbcc"));
    assert!(!is_hex_color(""));
    assert!(!is_hex_color("#"));
    assert!(!is_hex_color("#aab\u{ff11}cc"));
}

#[test]
fn normalizes_both_cases_alike() {
    assert_eq!(normalize_hex("#aabbcc").unwrap(), "#AABBCC");
    assert_eq!(normalize_hex("#AABBCC").unwrap(), "#AABBCC");
    assert_eq!(normalize_hex("#aAbBcC").unwrap(), "#AABBCC");
    assert_eq!(normalize_hex("#0189ef").unwrap(), "#0189EF");
}

#[test]
fn normalizing_twice_changes_nothing() {
    let once = normalize_hex("#c0ffee").unwrap();
    let twice = normalize_hex(&once).unwrap();
    assert_eq!(once, "#C0FFEE");
    assert_eq!(twice, once);
}

#[test]
fn normalize_refuses_what_is_no_hex_color() {
    let err = normalize_hex("#GGGGGG").unwrap_err();
    assert_eq!(err, Failure::InvalidHexColor { value: "#GGGGGG".to_string() });
    assert_eq!(err.message(), "invalid hex color: #GGGGGG");
    assert!(normalize_hex("#12345").is_err());
    assert!(normalize_hex("1234567").is_err());
    assert!(normalize_hex("").is_err());
}

#[test]
fn canonical_form_touches_only_a_to_f() {
    assert_eq!(to_canonical("#abcdef"), "#ABCDEF");
    assert_eq!(to_canonical("#012345"), "#012345");
    assert_eq!(to_canonical("xyz"), "xyz");
}

#[test]
fn parses_hex_to_rgb() {
    assert_eq!(hex_to_rgb("#A1B2C3"), Some((0xA1, 0xB2, 0xC3)));
    assert_eq!(hex_to_rgb("#000000"), Some((0, 0, 0)));
    assert_eq!(hex_to_rgb("123456"), None);
    assert_eq!(hex_to_rgb("#ffff"), None);
}

#[test]
fn hex_to_rgb_reads_each_pair() {
    assert_eq!(hex_to_rgb("#ffffff"), Some((255, 255, 255)));
    assert_eq!(hex_to_rgb("#0a1B2c"), Some((10, 27, 44)));
    assert_eq!(hex_to_rgb("#+f+0+9"), None);
    assert_eq!(hex_to_rgb("#+1+2+3"), None);
    assert_eq!(hex_to_rgb("#1\u{e9}234"), None);
    assert_eq!(hex_to_rgb("# 1 2 3"), None);
    assert_eq!(hex_to_rgb("#-f0000"), None);
    assert_eq!(hex_to_rgb("#f+0000"), None);
    assert_eq!(hex_to_rgb("#gg0000"), None);
    assert_eq!(hex_to_rgb("#00000g"), None);
    assert_eq!(hex_to_rgb("#0000000"), None);
    assert_eq!(hex_to_rgb(""), None);
    assert_eq!(hex_to_rgb("#\u{e9}12345"), None);
    assert_eq!(hex_to_rgb("#a\u{e9}123"), None);
}

#[test]
fn writes_four_bytes_as_hex8() {
    assert_eq!(to_hex8(0, 0, 0, 0), "#00000000");
    assert_eq!(to_hex8(255, 255, 255, 255), "#FFFFFFFF");
    assert_eq!(to_hex8(0x12, 0xAB, 0x0F, 0x80), "#12AB0F80");
}

#[test]
fn hsl_of_black_white_and_red() {
    let black = rgb_to_hsl(0, 0, 0);
    assert_eq!((value(black.h), value(black.s), value(black.l)), (0.0, 0.0, 0.0));
    let white = rgb_to_hsl(255, 255, 255);
    assert_eq!((value(white.h), value(white.s), value(white.l)), (0.0, 0.0, 1.0));
    let red = rgb_to_hsl(255, 0, 0);
    assert_eq!((value(red.h), value(red.s), value(red.l)), (0.0, 1.0, 0.5));
}

#[test]
fn hsl_fractions_are_exact() {
    assert_eq!(
        rgb_to_hsl(0, 128, 255),
        Hsl {
            h: Ratio { num: 892, den: 1530 },
            s: Ratio { num: 255, den: 255 },
            l: Ratio { num: 255, den: 510 },
        }
    );
    assert_eq!(
        rgb_to_hsl(0, 255, 0),
        Hsl {
            h: Ratio { num: 510, den: 1530 },
            s: Ratio { num: 255, den: 255 },
            l: Ratio { num: 255, den: 510 },
        }
    );
    assert_eq!(
        rgb_to_hsl(255, 0, 128),
        Hsl {
            h: Ratio { num: 1402, den: 1530 },
            s: Ratio { num: 255, den: 255 },
            l: Ratio { num: 255, den: 510 },
        }
    );
    assert_eq!(
        rgb_to_hsl(200, 220, 240),
        Hsl {
            h: Ratio { num: 140, den: 240 },
            s: Ratio { num: 40, den: 70 },
            l: Ratio { num: 440, den: 510 },
        }
    );
    assert_eq!(
        rgb_to_hsl(77, 77, 77),
        Hsl {
            h: Ratio { num: 0, den: 1 },
            s: Ratio { num: 0, den: 1 },
            l: Ratio { num: 154, den: 510 },
        }
    );
}

#[test]
fn hsl_stays_between_zero_and_one() {
    for r in (0..=255u16).step_by(17) {
        for g in (0..=255u16).step_by(15) {
            for b in (0..=255u16).step_by(51) {
                let hsl = rgb_to_hsl(r as u8, g as u8, b as u8);
                for x in [hsl.h, hsl.s, hsl.l] {
                    assert!(x.den > 0);
                    assert!(x.num <= x.den);
                }
                assert!(hsl.h.num < hsl.h.den);
            }
        }
    }
}
