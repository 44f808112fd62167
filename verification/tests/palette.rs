use veneer::palette::{
    Ansi, AnsiRow, AnsiScheme, ColorRef, Colors, Meta, Palette,
};
use veneer::resolve::resolve_palette;
use veneer::table::Table;
use veneer::validate::validate_palette;

const BASE_TOML: &str = r##"
[meta]
name = "Test"
version = "0.1.0"

[colors.light]
primary = "#111111"
secondary = "#222222"
text_primary = "#ffffff"

[colors.dark]
primary = "#000000"
secondary = "#111111"
text_primary = "#eeeeee"

[accents]
info = "#123456"
warning = "colors.light.primary"

[ansi.light.normal]
black   = "colors.light.primary"
red     = "#AA0000"
green   = "#00AA00"
yellow  = "#AAAA00"
blue    = "#0000AA"
magenta = "#AA00AA"
cyan    = "#00AAAA"
white   = "colors.light.text_primary"

[ansi.light.bright]
black   = "#333333"
red     = "#FF4444"
green   = "#44FF44"
yellow  = "#FFFF44"
blue    = "#4444FF"
magenta = "#FF44FF"
cyan    = "#44FFFF"
white   = "#FFFFFF"

[ansi.dark.normal]
black   = "colors.dark.primary"
red     = "#880000"
green   = "#008800"
yellow  = "#888800"
blue    = "#000088"
magenta = "#880088"
cyan    = "#008888"
white   = "colors.dark.text_primary"

[ansi.dark.bright]
black   = "#555555"
red     = "#FF6666"
green   = "#66FF66"
yellow  = "#FFFF66"
blue    = "#6666FF"
magenta = "#FF66FF"
cyan    = "#66FFFF"
white   = "#FFFFFF"
"##;

fn color_of(value: &toml::Value) -> ColorRef {
    ColorRef::from_raw(value.as_str().unwrap().to_string())
}

fn table_of(value: &toml::Value) -> Table<ColorRef> {
    let mut table = Table::new();
    for (key, value) in value.as_table().unwrap() {
        table.insert(key.clone(), color_of(value));
    }
    table
}

fn text_of(value: Option<&toml::Value>) -> Option<String> {
    value.map(|v| v.as_str().unwrap().to_string())
}

fn row_of(value: &toml::Value) -> AnsiRow {
    AnsiRow {
        black: color_of(&value["black"]),
        red: color_of(&value["red"]),
        green: color_of(&value["green"]),
        yellow: color_of(&value["yellow"]),
        blue: color_of(&value["blue"]),
        magenta: color_of(&value["magenta"]),
        cyan: color_of(&value["cyan"]),
        white: color_of(&value["white"]),
    }
}

fn scheme_of(value: &toml::Value) -> AnsiScheme {
    AnsiScheme { normal: row_of(&value["normal"]), bright: row_of(&value["bright"]) }
}

fn palette_of(text: &str) -> Palette {
    let doc: toml::Table = text.parse().unwrap();
    let meta = doc["meta"].as_table().unwrap();
    Palette {
        meta: Meta {
            name: meta["name"].as_str().unwrap().to_string(),
            version: text_of(meta.get("version")),
            slug: text_of(meta.get("slug")),
        },
        colors: Colors {
            light: table_of(&doc["colors"]["light"]),
            dark: table_of(&doc["colors"]["dark"]),
        },
        accents: table_of(&doc["accents"]),
        ansi: Ansi { light: scheme_of(&doc["ansi"]["light"]), dark: scheme_of(&doc["ansi"]["dark"]) },
    }
}

#[test]
fn parses_valid_palette() {
    let palette: Palette = palette_of(BASE_TOML);
    validate_palette(&palette).unwrap();
    assert_eq!(palette.meta.name, "Test");
}

#[test]
fn rejects_bad_hex() {
    let bad = BASE_TOML.replace("#AA0000", "#GGGGGG");
    let palette: Palette = palette_of(&bad);
    let err = validate_palette(&palette).unwrap_err();
    assert!(
        err.message().contains("invalid hex color"),
        "unexpected error: {}",
        err.message()
    );
}

#[test]
fn rejects_path_without_dot() {
    let bad = BASE_TOML.replace("colors.light.primary", "colors_light_primary");
    let palette: Palette = palette_of(&bad);
    let err = validate_palette(&palette).unwrap_err();
    assert!(
        err.message().contains("must contain at least one '.' segment"),
        "unexpected error: {}",
        err.message()
    );
}

#[test]
fn resolves_paths_to_hex() {
    let palette: Palette = palette_of(BASE_TOML);
    let resolved = resolve_palette(&palette).unwrap();
    assert_eq!(
        resolved.accents.get("warning").unwrap(),
        "#111111",
        "warning should resolve to colors.light.primary"
    );
    assert_eq!(resolved.colors.light.get("text_primary").unwrap(), "#FFFFFF");
}

#[test]
fn detects_missing_path() {
    let bad = BASE_TOML.replace("colors.light.primary", "colors.light.missing");
    let palette: Palette = palette_of(&bad);
    let err = resolve_palette(&palette).unwrap_err();
    assert!(
        err.message().contains("missing path"),
        "unexpected error: {}",
        err.message()
    );
}

#[test]
fn detects_cycles() {
    let bad = BASE_TOML
        .replace("warning = \"colors.light.primary\"", "warning = \"accents.info\"")
        .replace("info = \"#123456\"", "info = \"accents.warning\"");
    let palette: Palette = palette_of(&bad);
    let err = resolve_palette(&palette).unwrap_err();
    assert!(
        err.message().contains("cycle detected"),
        "unexpected error: {}",
        err.message()
    );
}

#[test]
fn base_palette_resolves_every_slot() {
    let palette = palette_of(BASE_TOML);
    let resolved = resolve_palette(&palette).unwrap();
    assert_eq!(resolved.meta.name, "Test");
    assert_eq!(resolved.meta.version.as_deref(), Some("0.1.0"));
    assert_eq!(resolved.meta.slug, None);
    assert_eq!(resolved.colors.light.len(), 3);
    assert_eq!(resolved.colors.light.key(0), "primary");
    assert_eq!(resolved.colors.light.value(0), "#111111");
    assert_eq!(resolved.colors.light.key(2), "text_primary");
    assert_eq!(resolved.colors.dark.get("text_primary").unwrap(), "#EEEEEE");
    assert_eq!(resolved.accents.get("info").unwrap(), "#123456");
    assert_eq!(resolved.ansi.light.normal.black, "#111111");
    assert_eq!(resolved.ansi.light.normal.white, "#FFFFFF");
    assert_eq!(resolved.ansi.light.bright.cyan, "#44FFFF");
    assert_eq!(resolved.ansi.dark.normal.black, "#000000");
    assert_eq!(resolved.ansi.dark.normal.white, "#EEEEEE");
    assert_eq!(resolved.ansi.dark.bright.red, "#FF6666");
}

#[test]
fn missing_path_error_names_slot_and_target() {
    let bad = BASE_TOML.replace("colors.light.primary", "colors.light.missing");
    let palette = palette_of(&bad);
    let err = resolve_palette(&palette).unwrap_err();
    assert_eq!(
        err.message(),
        "resolving accents.warning -> colors.light.missing: missing path \
         'colors.light.missing'; expected colors.*, accents.*, or ansi.*.*.*"
    );
}

#[test]
fn cycle_error_lists_the_chain() {
    let bad = BASE_TOML
        .replace("warning = \"colors.light.primary\"", "warning = \"accents.info\"")
        .replace("info = \"#123456\"", "info = \"accents.warning\"");
    let palette = palette_of(&bad);
    let err = resolve_palette(&palette).unwrap_err();
    assert_eq!(
        err.message(),
        "resolving accents.info -> accents.warning: cycle detected: \
         accents.warning -> accents.info -> accents.warning"
    );
}

#[test]
fn bad_hex_error_names_the_slot() {
    let bad = BASE_TOML.replace("#AA0000", "#GGGGGG");
    let palette = palette_of(&bad);
    let err = validate_palette(&palette).unwrap_err();
    assert_eq!(err.message(), "ansi.light.normal.red has invalid hex color: #GGGGGG");
    let err = resolve_palette(&palette).unwrap_err();
    assert_eq!(err.message(), "resolving ansi.light.normal.red: invalid hex color: #GGGGGG");
    assert_eq!(err.label, "ansi.light.normal.red");
    assert_eq!(err.target, None);
}

#[test]
fn path_without_dot_error_names_the_first_slot() {
    let bad = BASE_TOML.replace("colors.light.primary", "colors_light_primary");
    let palette = palette_of(&bad);
    let err = validate_palette(&palette).unwrap_err();
    assert_eq!(
        err.message(),
        "accents.warning path must contain at least one '.' segment: colors_light_primary"
    );
}
