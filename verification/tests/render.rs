use std::path::Path;

use veneer::color::alpha_byte;
use veneer::render::{
    color_channels, detect_source_kind, expect_string, glob_base, has_glob_chars, lowercase_filter,
    resolve_dest_mode, strip_tera_extension, with_alpha_hex, DestMode, HelperError, HelperValue,
    SourceKind,
};

#[test]
fn lowercase_helper_downcases_text() {
    let out = lowercase_filter(&HelperValue::Text("Emerald MIX".into())).unwrap();
    assert_eq!(out, String::from("emerald mix"));
}

#[test]
fn strips_tera_extension_for_default_output() {
    let path = Path::new("templates/vscode/themes/theme.json.tera");
    let out = strip_tera_extension(path.file_name().unwrap().to_str().unwrap());
    assert_eq!(out, String::from("theme.json"));
}

#[test]
fn lowercase_helper_refuses_other_values() {
    let err = lowercase_filter(&HelperValue::Other { rendering: "Number(3)".to_string() }).unwrap_err();
    assert_eq!(err, HelperError::NotText { rendering: "Number(3)".to_string() });
    assert_eq!(err.message(), "lowercase filter expects a string, got Number(3)");
}

#[test]
fn lowercase_helper_knows_more_than_ascii() {
    assert_eq!(lowercase_filter(&HelperValue::Text("\u{c9}T\u{c9}".to_string())).unwrap(), "\u{e9}t\u{e9}");
    assert_eq!(lowercase_filter(&HelperValue::Text(String::new())).unwrap(), "");
}

#[test]
fn string_argument_has_to_be_a_text() {
    let text = HelperValue::Text("#112233".to_string());
    assert_eq!(expect_string(Some(&text), "color").unwrap(), "#112233");
    let other = HelperValue::Other { rendering: "Bool(true)".to_string() };
    let err = expect_string(Some(&other), "color").unwrap_err();
    assert_eq!(err, HelperError::MissingString { key: "color".to_string() });
    assert_eq!(err.message(), "missing or invalid string arg 'color'");
    assert_eq!(
        expect_string(None, "alpha"),
        Err(HelperError::MissingString { key: "alpha".to_string() })
    );
}

#[test]
fn alpha_composites_to_eight_digits() {
    assert_eq!(with_alpha_hex("#000000", 0.0f32.to_bits()).unwrap(), "#00000000");
    assert_eq!(with_alpha_hex("#FFFFFF", 1.0f32.to_bits()).unwrap(), "#FFFFFFFF");
    assert_eq!(with_alpha_hex("#abcdef", 0.5f32.to_bits()).unwrap(), "#ABCDEF80");
    assert_eq!(with_alpha_hex("#102030", 0.25f32.to_bits()).unwrap(), "#10203040");
    assert_eq!(with_alpha_hex("#102030", 0.1f32.to_bits()).unwrap(), "#1020301A");
    assert_eq!(with_alpha_hex("#102030", (-0.0f32).to_bits()).unwrap(), "#10203000");
    assert_eq!(with_alpha_hex("#102030", 0.001f32.to_bits()).unwrap(), "#10203000");
    assert_eq!(with_alpha_hex("#102030", 0.002f32.to_bits()).unwrap(), "#10203001");
    assert_eq!(with_alpha_hex("#102030", 0.999f32.to_bits()).unwrap(), "#102030FF");
}

#[test]
fn alpha_outside_zero_to_one_is_refused() {
    for alpha in [1.5f32, 1.0000001, -0.1, -1.0, 2.0, 255.0, f32::INFINITY, f32::NEG_INFINITY, f32::NAN] {
        let err = with_alpha_hex("#FFFFFF", alpha.to_bits()).unwrap_err();
        assert_eq!(err, HelperError::AlphaOutOfRange, "{}", alpha);
        assert_eq!(err.message(), "alpha must be between 0.0 and 1.0");
    }
    assert_eq!(with_alpha_hex("no colour", 1.5f32.to_bits()), Err(HelperError::AlphaOutOfRange));
}

#[test]
fn alpha_on_no_colour_is_refused() {
    let one = 1.0f32.to_bits();
    let err = with_alpha_hex("blue", one).unwrap_err();
    assert_eq!(err, HelperError::InvalidHexColor { value: "blue".to_string() });
    assert_eq!(err.message(), "invalid hex color: blue");
    assert!(with_alpha_hex("#GGGGGG", 0).is_err());
    assert!(with_alpha_hex("#12345", 0).is_err());
    assert_eq!(
        with_alpha_hex("#+1+2+3", one),
        Err(HelperError::InvalidHexColor { value: "#+1+2+3".to_string() })
    );
}

#[test]
fn helpers_read_colour_and_alpha_alike() {
    assert_eq!(color_channels("#A1B2C3", 0.5f32.to_bits()), Ok((0xA1, 0xB2, 0xC3)));
    assert_eq!(color_channels("#a1b2c3", 0.0f32.to_bits()), Ok((0xA1, 0xB2, 0xC3)));
    assert_eq!(color_channels("#000000", 1.0f32.to_bits()), Ok((0, 0, 0)));
    assert_eq!(color_channels("#000000", (-0.0f32).to_bits()), Ok((0, 0, 0)));
    for alpha in [1.5f32, -0.1, 1.0000001, f32::NAN, f32::INFINITY, -1.0] {
        assert_eq!(color_channels("#A1B2C3", alpha.to_bits()), Err(HelperError::AlphaOutOfRange));
        assert_eq!(color_channels("nothing", alpha.to_bits()), Err(HelperError::AlphaOutOfRange));
    }
    assert_eq!(
        color_channels("#+1+2+3", 1.0f32.to_bits()),
        Err(HelperError::InvalidHexColor { value: "#+1+2+3".to_string() })
    );
    assert_eq!(
        color_channels("A1B2C3", 0.5f32.to_bits()),
        Err(HelperError::InvalidHexColor { value: "A1B2C3".to_string() })
    );
}

#[test]
fn alpha_byte_is_the_rounded_product() {
    let expected = |bits: u32| {
        let alpha = f32::from_bits(bits);
        if (0.0..=1.0).contains(&alpha) {
            Some((alpha * 255.0).round() as u8)
        } else {
            None
        }
    };
    let mut bits: u32 = 0;
    while bits <= 0x3F80_0100 {
        assert_eq!(alpha_byte(bits), expected(bits), "{:#x}", bits);
        bits += 4099;
    }
    for k in 0..255u32 {
        let edge = ((k as f32 + 0.5) / 255.0).to_bits();
        for bits in edge - 64..edge + 64 {
            assert_eq!(alpha_byte(bits), expected(bits), "{:#x}", bits);
        }
    }
    for bits in 0x3F7F_FF00..0x3F80_0100u32 {
        assert_eq!(alpha_byte(bits), expected(bits), "{:#x}", bits);
    }
    for bits in [0u32, 1, 0x007F_FFFF, 0x0080_0000, 0x8000_0000, 0x8000_0001, 0x7F80_0000, 0x7FC0_0000, u32::MAX] {
        assert_eq!(alpha_byte(bits), expected(bits), "{:#x}", bits);
    }
}

#[test]
fn glob_patterns_are_recognised() {
    assert!(has_glob_chars("src/*.tera"));
    assert!(has_glob_chars("src/?.tera"));
    assert!(has_glob_chars("src/[ab].tera"));
    assert!(has_glob_chars("src/{a,b}.tera"));
    assert!(has_glob_chars("*"));
    assert!(!has_glob_chars("src/theme.tera"));
    assert!(!has_glob_chars(""));
    assert!(!has_glob_chars("src/]}.tera"));
}

#[test]
fn glob_base_is_the_directory_before_the_pattern() {
    assert_eq!(glob_base("src/*.tera", '/'), "src/");
    assert_eq!(glob_base("*.tera", '/'), "");
    assert_eq!(glob_base("a/b/c[0-9]/x/*.tera", '/'), "a/b/");
    assert_eq!(glob_base("/abs/dir/**/*.tera", '/'), "/abs/dir/");
    assert_eq!(glob_base("plain/path", '/'), "plain/");
    assert_eq!(glob_base("plain", '/'), "");
    assert_eq!(glob_base("", '/'), "");
    assert_eq!(glob_base("/", '/'), "/");
    assert_eq!(glob_base("a\\b\\*.tera", '\\'), "a\\b\\");
    assert_eq!(glob_base("a\\b\\*.tera", '/'), "");
    assert_eq!(glob_base("d\u{e9}j\u{e0}/vu/?.tera", '/'), "d\u{e9}j\u{e0}/vu/");
}

#[test]
fn tera_extension_is_stripped_once() {
    assert_eq!(strip_tera_extension("theme.json.tera"), "theme.json");
    assert_eq!(strip_tera_extension("theme.json"), "theme.json");
    assert_eq!(strip_tera_extension("one.tera"), "one");
    assert_eq!(strip_tera_extension("x.tera.tera"), "x.tera");
    assert_eq!(strip_tera_extension(".tera"), "");
    assert_eq!(strip_tera_extension("tera"), "tera");
    assert_eq!(strip_tera_extension("a.TERA"), "a.TERA");
    assert_eq!(strip_tera_extension(""), "");
    assert_eq!(strip_tera_extension("a.tera "), "a.tera ");
}

#[test]
fn source_kind_follows_pattern_then_directory() {
    assert_eq!(
        detect_source_kind("src/*.tera", false, '/'),
        SourceKind::Glob { pattern: "src/*.tera".to_string(), base: "src/".to_string() }
    );
    assert_eq!(
        detect_source_kind("src/*", true, '/'),
        SourceKind::Glob { pattern: "src/*".to_string(), base: "src/".to_string() }
    );
    assert_eq!(detect_source_kind("src", true, '/'), SourceKind::Directory { root: "src".to_string() });
    assert_eq!(
        detect_source_kind("src/a.tera", false, '/'),
        SourceKind::SingleFile { path: "src/a.tera".to_string() }
    );
}

#[test]
fn destination_is_a_directory_or_a_prefix() {
    assert_eq!(resolve_dest_mode(None, false, "/work", '/'), DestMode::Directory("/work".to_string()));
    assert_eq!(resolve_dest_mode(Some("out"), true, "/work", '/'), DestMode::Directory("out".to_string()));
    assert_eq!(resolve_dest_mode(Some("out/"), false, "/work", '/'), DestMode::Directory("out/".to_string()));
    assert_eq!(
        resolve_dest_mode(Some("dist/theme-"), false, "/work", '/'),
        DestMode::Prefix("dist/theme-".to_string())
    );
    assert_eq!(resolve_dest_mode(Some(""), false, "/work", '/'), DestMode::Prefix(String::new()));
    assert_eq!(resolve_dest_mode(Some("out\\"), false, "", '\\'), DestMode::Directory("out\\".to_string()));
}
