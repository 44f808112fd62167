use veneer::palette::{
    Ansi, AnsiRow, AnsiScheme, ColorRef, Colors, Meta, Palette, ResolvedAnsi, ResolvedAnsiRow,
    ResolvedAnsiScheme, ResolvedColors, ResolvedPalette,
};
use veneer::show::{ansi_row_items, format_palette, max_label_width, run, swatch};
use veneer::table::Table;
use veneer::text::{join, split};

fn resolved_row(color: &str) -> ResolvedAnsiRow {
    ResolvedAnsiRow {
        black: color.to_string(),
        red: color.to_string(),
        green: color.to_string(),
        yellow: color.to_string(),
        blue: color.to_string(),
        magenta: color.to_string(),
        cyan: color.to_string(),
        white: color.to_string(),
    }
}

fn strings(entries: &[(&str, &str)]) -> Table<String> {
    let mut t = Table::new();
    for (key, value) in entries {
        t.insert(key.to_string(), value.to_string());
    }
    t
}

fn resolved(light: &[(&str, &str)], dark: &[(&str, &str)], accents: &[(&str, &str)]) -> ResolvedPalette {
    ResolvedPalette {
        meta: Meta { name: "Test".to_string(), version: Some("0.1.0".to_string()), slug: None },
        colors: ResolvedColors { light: strings(light), dark: strings(dark) },
        accents: strings(accents),
        ansi: ResolvedAnsi {
            light: ResolvedAnsiScheme { normal: resolved_row("#000000"), bright: resolved_row("#FFFFFF") },
            dark: ResolvedAnsiScheme { normal: resolved_row("#25C507"), bright: resolved_row("#808080") },
        },
    }
}

fn expected_section(title: &str, items: &[(String, String)], width: usize) -> String {
    if items.is_empty() {
        return String::new();
    }
    let mut out = String::new();
    out += &format!("{title}\n");
    out += &format!("{:<width$}  {:<6}  {}\n", "key", "swatch", "hex", width = width);
    out += &format!("{:-<width$}  {:-<6}  {}\n", "", "", "----", width = width);
    for (label, hex) in items {
        out += &format!("{:<width$}  ", label, width = width);
        out += &swatch(hex);
        out += &format!("  {hex}\n");
    }
    out += "\n";
    out
}

fn items_of(t: &Table<String>) -> Vec<(String, String)> {
    (0..t.len()).map(|i| (t.key(i).to_string(), t.value(i).clone())).collect()
}

#[test]
fn swatch_is_a_coloured_block() {
    assert_eq!(swatch("#A1B2C3"), "\u{1b}[48;2;161;178;195m\u{1b}[38;2;0;0;0m      \u{1b}[0m");
    assert_eq!(swatch("#000000"), "\u{1b}[48;2;0;0;0m\u{1b}[38;2;255;255;255m      \u{1b}[0m");
    assert_eq!(swatch("#ffffff"), "\u{1b}[48;2;255;255;255m\u{1b}[38;2;0;0;0m      \u{1b}[0m");
    assert_eq!(swatch("#0A6409"), "\u{1b}[48;2;10;100;9m\u{1b}[38;2;255;255;255m      \u{1b}[0m");
}

#[test]
fn swatch_of_no_colour_is_the_text() {
    assert_eq!(swatch("not a colour"), "not a colour");
    assert_eq!(swatch(""), "");
    assert_eq!(swatch("#12345"), "#12345");
}

#[test]
fn text_is_light_below_half_luminance() {
    let light_text = "\u{1b}[38;2;255;255;255m";
    let dark_text = "\u{1b}[38;2;0;0;0m";
    assert!(swatch("#7F7F7F").contains(light_text));
    assert!(swatch("#808080").contains(dark_text));
    assert!(swatch("#25C507").contains(dark_text));
    assert!(swatch("#25C506").contains(light_text));
    assert!(swatch("#0000FF").contains(light_text));
    assert!(swatch("#00FF00").contains(dark_text));
    assert!(swatch("#FF0000").contains(light_text));
}

#[test]
fn row_items_carry_the_slot_names() {
    let mut row = resolved_row("#000000");
    row.red = "#FF0000".to_string();
    row.white = "#FFFFFF".to_string();
    let items = ansi_row_items(&row);
    let names: Vec<&str> = items.iter().map(|(k, _)| k.as_str()).collect();
    assert_eq!(names, ["black", "red", "green", "yellow", "blue", "magenta", "cyan", "white"]);
    assert_eq!(items[0].1, "#000000");
    assert_eq!(items[1].1, "#FF0000");
    assert_eq!(items[7].1, "#FFFFFF");
}

#[test]
fn label_width_is_the_longest_name_and_at_least_eight() {
    assert_eq!(max_label_width(&resolved(&[], &[], &[])), 8);
    assert_eq!(max_label_width(&resolved(&[("bg", "#000000")], &[], &[])), 8);
    assert_eq!(max_label_width(&resolved(&[("exactly8", "#000000")], &[], &[])), 8);
    assert_eq!(max_label_width(&resolved(&[("background", "#000000")], &[], &[])), 10);
    assert_eq!(
        max_label_width(&resolved(
            &[("short", "#000000")],
            &[("a_much_longer_name", "#000000")],
            &[("middle_name", "#000000")]
        )),
        18
    );
    assert_eq!(max_label_width(&resolved(&[], &[], &[("accent_primary_x", "#000000")])), 16);
    assert_eq!(max_label_width(&resolved(&[("\u{e9}\u{e9}\u{e9}\u{e9}\u{e9}", "#000000")], &[], &[])), 10);
}

#[test]
fn summary_lists_each_section() {
    let palette = resolved(
        &[("background", "#101010"), ("fg", "#FAFAFA")],
        &[],
        &[("warning", "#FFAA00")],
    );
    let width = 10;
    let mut expected = String::new();
    expected += "Palette: Test (themes/veneer.toml)\n";
    expected += "Version: 0.1.0\n";
    expected += "Slug: <none>\n";
    expected += "\n";
    expected += &expected_section("Colors (Light)", &items_of(&palette.colors.light), width);
    expected += &expected_section("Colors (Dark)", &items_of(&palette.colors.dark), width);
    expected += &expected_section("Accents", &items_of(&palette.accents), width);
    expected += &expected_section("ANSI (Light / Normal)", &ansi_row_items(&palette.ansi.light.normal), width);
    expected += &expected_section("ANSI (Light / Bright)", &ansi_row_items(&palette.ansi.light.bright), width);
    expected += &expected_section("ANSI (Dark / Normal)", &ansi_row_items(&palette.ansi.dark.normal), width);
    expected += &expected_section("ANSI (Dark / Bright)", &ansi_row_items(&palette.ansi.dark.bright), width);
    let text = format_palette("themes/veneer.toml", &palette);
    assert_eq!(text, expected);
    assert!(!text.contains("Colors (Dark)"));
    assert!(text.contains(
        "Accents\nkey         swatch  hex\n----------  ------  ----\nwarning     \u{1b}[48;2;255;170;0m\u{1b}[38;2;0;0;0m      \u{1b}[0m  #FFAA00\n\n"
    ));
}

#[test]
fn summary_shows_slug_and_leaves_out_a_missing_version() {
    let mut palette = resolved(&[], &[], &[]);
    palette.meta.version = None;
    palette.meta.slug = Some("test-theme".to_string());
    let text = format_palette("p.toml", &palette);
    assert!(text.starts_with("Palette: Test (p.toml)\nSlug: test-theme\n\nANSI (Light / Normal)\n"));
    assert!(text.ends_with("white     \u{1b}[48;2;128;128;128m\u{1b}[38;2;0;0;0m      \u{1b}[0m  #808080\n\n"));
}

#[test]
fn long_names_are_not_cut() {
    let palette = resolved(&[("a_name_longer_than_eight", "#000000")], &[], &[]);
    let text = format_palette("p", &palette);
    assert!(text.contains("key                       swatch  hex\n"));
    assert!(text.contains("------------------------  ------  ----\n"));
    assert!(text.contains("a_name_longer_than_eight  \u{1b}[48;2;0;0;0m"));
    assert!(text.contains("black                     \u{1b}[48;2;0;0;0m"));
}

fn hex(s: &str) -> ColorRef {
    ColorRef::Hex(s.to_string())
}

fn row(c: &str) -> AnsiRow {
    AnsiRow {
        black: hex(c),
        red: hex(c),
        green: hex(c),
        yellow: hex(c),
        blue: hex(c),
        magenta: hex(c),
        cyan: hex(c),
        white: hex(c),
    }
}

#[test]
fn run_resolves_and_summarises() {
    let mut accents = Table::new();
    accents.insert("warning".to_string(), ColorRef::Path("ansi.dark.normal.red".to_string()));
    let palette = Palette {
        meta: Meta { name: "Test".to_string(), version: Some("0.1.0".to_string()), slug: None },
        colors: Colors { light: Table::new(), dark: Table::new() },
        accents,
        ansi: Ansi {
            light: AnsiScheme { normal: row("#000000"), bright: row("#ffffff") },
            dark: AnsiScheme { normal: row("#25c507"), bright: row("#808080") },
        },
    };
    let text = run("veneer.toml", &palette).unwrap();
    let same = resolved(&[], &[], &[("warning", "#25C507")]);
    assert_eq!(text, format_palette("veneer.toml", &same));

    let mut broken = palette.clone();
    broken.accents.insert("warning".to_string(), ColorRef::Path("accents.warning".to_string()));
    let err = run("veneer.toml", &broken).unwrap_err();
    assert_eq!(err.message(), "resolving accents.warning -> accents.warning: cycle detected: accents.warning -> accents.warning");
}

#[test]
fn split_and_join_are_inverse() {
    for text in ["", ".", "a", "a.b", "a..b", ".a.", "colors.light.primary", "..."] {
        let parts = split(text, '.');
        assert_eq!(parts, text.split('.').map(str::to_string).collect::<Vec<_>>());
        assert_eq!(join(&parts, "."), text);
    }
    assert_eq!(join(&vec![], " -> "), "");
    assert_eq!(join(&vec!["a".to_string()], " -> "), "a");
    assert_eq!(join(&vec!["a".to_string(), "b".to_string(), "c".to_string()], " -> "), "a -> b -> c");
}
