//! The summary of a resolved palette as text: a table for each section, with
//! a coloured block for each colour.

use vstd::prelude::*;
use vstd::string::*;

pub use crate::color::hex_to_rgb;
use crate::color::rgb_of;
use crate::error::{ResolveError, ResolveErrorView};
use crate::palette::{MetaView, Palette, ResolvedAnsiRow, ResolvedPalette, ResolvedView};
use crate::resolve::{resolve_all, resolve_palette};
use crate::slots::slot_name;
use crate::table::Table;
use crate::text::{decimal, pad_spec, push_decimal, push_padded};

verus! {

/// Whether a colour is dark enough for light text on it: its luminance,
/// `(0.299 r + 0.587 g + 0.114 b) / 255`, is under one half.
pub open spec fn is_dark(r: u8, g: u8, b: u8) -> bool {
    299 * r + 587 * g + 114 * b < 127500
}

/// The block that shows the colour `(r, g, b)` on a terminal: the colour as
/// background, white or black as foreground, six spaces, and a reset.
pub open spec fn block(r: u8, g: u8, b: u8) -> Seq<char> {
    let text: nat = if is_dark(r, g, b) {
        255
    } else {
        0
    };
    "\u{1b}[48;2;"@ + decimal(r as nat) + ";"@ + decimal(g as nat) + ";"@ + decimal(b as nat)
        + "m\u{1b}[38;2;"@ + decimal(text) + ";"@ + decimal(text) + ";"@ + decimal(text)
        + "m      \u{1b}[0m"@
}

/// What stands for a colour in the summary: its block, or the text itself
/// where it is no `#RRGGBB` colour.
pub open spec fn swatch_spec(hex: Seq<char>) -> Seq<char> {
    match rgb_of(hex) {
        Some((r, g, b)) => block(r, g, b),
        None => hex,
    }
}

/// The block of terminal escapes that shows `hex`.
pub fn swatch(hex: &str) -> (s: String)
    ensures
        s@ == swatch_spec(hex@),
{
    match hex_to_rgb(hex) {
        Some((r, g, b)) => {
            let dark = 299 * (r as u32) + 587 * (g as u32) + 114 * (b as u32) < 127500;
            let text: u8 = if dark {
                255
            } else {
                0
            };
            let mut s = String::from_str("\u{1b}[48;2;");
            push_decimal(&mut s, r);
            s.append(";");
            push_decimal(&mut s, g);
            s.append(";");
            push_decimal(&mut s, b);
            s.append("m\u{1b}[38;2;");
            push_decimal(&mut s, text);
            s.append(";");
            push_decimal(&mut s, text);
            s.append(";");
            push_decimal(&mut s, text);
            s.append("m      \u{1b}[0m");
            s
        },
        None => hex.to_owned(),
    }
}

/// The texts of a list of named colours.
pub open spec fn item_views(items: Seq<(String, String)>) -> Seq<(Seq<char>, Seq<char>)> {
    Seq::new(items.len(), |i: int| (items[i].0@, items[i].1@))
}

/// The eight colours of a terminal row with their names.
pub fn ansi_row_items(row: &ResolvedAnsiRow) -> (items: Vec<(String, String)>)
    ensures
        item_views(items@) == Seq::new(8, |i: int| (slot_name(i), row@[i])),
{
    let mut items: Vec<(String, String)> = Vec::new();
    items.push((String::from_str("black"), row.black.clone()));
    items.push((String::from_str("red"), row.red.clone()));
    items.push((String::from_str("green"), row.green.clone()));
    items.push((String::from_str("yellow"), row.yellow.clone()));
    items.push((String::from_str("blue"), row.blue.clone()));
    items.push((String::from_str("magenta"), row.magenta.clone()));
    items.push((String::from_str("cyan"), row.cyan.clone()));
    items.push((String::from_str("white"), row.white.clone()));
    proof {
        assert(item_views(items@) =~= Seq::new(8, |i: int| (slot_name(i), row@[i])));
    }
    items
}

/// The entries of a table as a list of named colours.
pub fn table_items(table: &Table<String>) -> (items: Vec<(String, String)>)
    ensures
        item_views(items@) == table@,
{
    let mut items: Vec<(String, String)> = Vec::new();
    let n = table.len();
    let mut i: usize = 0;
    while i < n
        invariant
            n == table@.len(),
            i <= n,
            items@.len() == i,
            item_views(items@) == table@.take(i as int),
        decreases n - i,
    {
        let key = table.key(i).to_owned();
        let value = table.value(i).clone();
        proof {
            let next = item_views(items@.push((key, value)));
            let goal = table@.take(i + 1);
            assert(next.len() == goal.len());
            assert forall|k: int| 0 <= k < next.len() implies next[k] == goal[k] by {
                if k < i {
                    assert(item_views(items@)[k] == table@.take(i as int)[k]);
                }
            }
            assert(next =~= goal);
        }
        items.push((key, value));
        i = i + 1;
    }
    proof {
        assert(table@.take(n as int) =~= table@);
    }
    items
}

/// The length in bytes of a text in UTF-8.
pub open spec fn byte_len(s: Seq<char>) -> nat {
    vstd::utf8::encode_utf8(s).len()
}

/// The greatest length in bytes among the names of `t`, and at least `floor`.
pub open spec fn widest<T>(t: Seq<(Seq<char>, T)>, floor: nat) -> nat
    decreases t.len(),
{
    if t.len() == 0 {
        floor
    } else {
        let rest = widest(t.drop_last(), floor);
        let last = byte_len(t.last().0);
        if last > rest {
            last
        } else {
            rest
        }
    }
}

/// The width of the name column: the length in bytes of the longest name of
/// the three tables, and at least eight, which fits every terminal slot.
pub open spec fn label_width(r: ResolvedView) -> nat {
    widest(r.accents, widest(r.dark, widest(r.light, 8)))
}

fn widen(table: &Table<String>, floor: usize) -> (w: usize)
    ensures
        w == widest(table@, floor as nat),
{
    let n = table.len();
    let mut w = floor;
    let mut i: usize = 0;
    proof {
        assert(table@.take(0).len() == 0);
    }
    while i < n
        invariant
            n == table@.len(),
            i <= n,
            w == widest(table@.take(i as int), floor as nat),
        decreases n - i,
    {
        let len = table.key(i).as_bytes().len();
        proof {
            let next = table@.take(i + 1);
            assert(next.drop_last() =~= table@.take(i as int));
            assert(next.last() == table@[i as int]);
        }
        if len > w {
            w = len;
        }
        i = i + 1;
    }
    proof {
        assert(table@.take(n as int) =~= table@);
    }
    w
}

/// The width of the name column of the summary.
pub fn max_label_width(palette: &ResolvedPalette) -> (w: usize)
    ensures
        w == label_width(palette@),
{
    let w = widen(&palette.colors.light, 8);
    let w = widen(&palette.colors.dark, w);
    widen(&palette.accents, w)
}

/// One line of a section: the name in its column, the block, the colour.
pub open spec fn row_text(item: (Seq<char>, Seq<char>), width: nat) -> Seq<char> {
    pad_spec(item.0, width, ' ') + "  "@ + swatch_spec(item.1) + "  "@ + item.1 + "\n"@
}

/// The lines of a section, one for each item.
pub open spec fn rows_text(items: Seq<(Seq<char>, Seq<char>)>, width: nat) -> Seq<char>
    decreases items.len(),
{
    if items.len() == 0 {
        Seq::empty()
    } else {
        rows_text(items.drop_last(), width) + row_text(items.last(), width)
    }
}

/// The three lines above the items of a section: the title, the column
/// heads, and a rule.
pub open spec fn head_text(title: Seq<char>, width: nat) -> Seq<char> {
    title + "\n"@ + pad_spec("key"@, width, ' ') + "  swatch  hex\n"@ + pad_spec(
        Seq::empty(),
        width,
        '-',
    ) + "  ------  ----\n"@
}

/// A section of the summary: nothing for no items, else the head, the
/// items and an empty line.
pub open spec fn section_text(title: Seq<char>, items: Seq<(Seq<char>, Seq<char>)>, width: nat) -> Seq<
    char,
> {
    if items.len() == 0 {
        Seq::empty()
    } else {
        head_text(title, width) + rows_text(items, width) + "\n"@
    }
}

/// Appends a section of the summary to `out`.
pub fn push_section(out: &mut String, title: &str, items: &Vec<(String, String)>, width: usize)
    ensures
        final(out)@ == old(out)@ + section_text(title@, item_views(items@), width as nat),
{
    let ghost before = out@;
    let ghost all = item_views(items@);
    let ghost w = width as nat;
    if items.len() == 0 {
        proof {
            assert(before + section_text(title@, all, w) =~= before);
        }
        return ;
    }
    out.append(title);
    out.append("\n");
    push_padded(out, "key", width, ' ');
    out.append("  swatch  hex\n");
    push_padded(out, "", width, '-');
    out.append("  ------  ----\n");
    proof {
        assert(""@ =~= Seq::<char>::empty()) by {
            reveal_strlit("");
        }
        assert(out@ =~= before + head_text(title@, w));
        assert(all.take(0) =~= Seq::empty());
        assert(out@ =~= before + head_text(title@, w) + rows_text(all.take(0), w));
    }
    let mut i: usize = 0;
    while i < items.len()
        invariant
            i <= items.len(),
            all == item_views(items@),
            w == width as nat,
            out@ == before + head_text(title@, w) + rows_text(all.take(i as int), w),
        decreases items.len() - i,
    {
        let ghost start = out@;
        let label = items[i].0.as_str();
        let hex = items[i].1.as_str();
        let block = swatch(hex);
        push_padded(out, label, width, ' ');
        out.append("  ");
        out.append(block.as_str());
        out.append("  ");
        out.append(hex);
        out.append("\n");
        proof {
            let next = all.take(i + 1);
            assert(next.drop_last() =~= all.take(i as int));
            assert(next.last() == all[i as int]);
            assert(out@ =~= start + row_text(all[i as int], w));
            assert(out@ =~= before + head_text(title@, w) + rows_text(next, w));
        }
        i = i + 1;
    }
    out.append("\n");
    proof {
        assert(all.take(items.len() as int) =~= all);
        assert(out@ =~= before + section_text(title@, all, w));
    }
}

/// The lines above the sections: the palette's name with the place it came
/// from, its version if it has one, and its slug.
pub open spec fn title_text(path: Seq<char>, meta: MetaView) -> Seq<char> {
    "Palette: "@ + meta.name + " ("@ + path + ")\n"@ + (match meta.version {
        Some(version) => "Version: "@ + version + "\n"@,
        None => Seq::empty(),
    }) + "Slug: "@ + (match meta.slug {
        Some(slug) => slug,
        None => "<none>"@,
    }) + "\n\n"@
}

/// The terminal row `row` of a resolved palette with the names of its slots.
pub open spec fn row_items(r: ResolvedView, row: int) -> Seq<(Seq<char>, Seq<char>)> {
    Seq::new(8, |i: int| (slot_name(i), r.ansi[8 * row + i]))
}

/// The summary of a resolved palette that was read from `path`.
pub open spec fn summary_text(path: Seq<char>, r: ResolvedView) -> Seq<char> {
    let w = label_width(r);
    title_text(path, r.meta) + section_text("Colors (Light)"@, r.light, w) + section_text(
        "Colors (Dark)"@,
        r.dark,
        w,
    ) + section_text("Accents"@, r.accents, w) + section_text(
        "ANSI (Light / Normal)"@,
        row_items(r, 0),
        w,
    ) + section_text("ANSI (Light / Bright)"@, row_items(r, 1), w) + section_text(
        "ANSI (Dark / Normal)"@,
        row_items(r, 2),
        w,
    ) + section_text("ANSI (Dark / Bright)"@, row_items(r, 3), w)
}

fn push_title(out: &mut String, path: &str, palette: &ResolvedPalette)
    ensures
        final(out)@ == old(out)@ + title_text(path@, palette.meta@),
{
    out.append("Palette: ");
    out.append(palette.meta.name.as_str());
    out.append(" (");
    out.append(path);
    out.append(")\n");
    match &palette.meta.version {
        Some(version) => {
            out.append("Version: ");
            out.append(version.as_str());
            out.append("\n");
        },
        None => {},
    }
    out.append("Slug: ");
    match &palette.meta.slug {
        Some(slug) => {
            out.append(slug.as_str());
        },
        None => {
            out.append("<none>");
        },
    }
    out.append("\n\n");
    proof {
        assert(out@ =~= old(out)@ + title_text(path@, palette.meta@));
    }
}

/// Writes the summary of `palette`, which was read from `palette_path`.
pub fn format_palette(palette_path: &str, palette: &ResolvedPalette) -> (s: String)
    ensures
        s@ == summary_text(palette_path@, palette@),
{
    let ghost r = palette@;
    let width = max_label_width(palette);
    let mut s = String::new();
    push_title(&mut s, palette_path, palette);
    let light = table_items(&palette.colors.light);
    let dark = table_items(&palette.colors.dark);
    let accents = table_items(&palette.accents);
    let light_normal = ansi_row_items(&palette.ansi.light.normal);
    let light_bright = ansi_row_items(&palette.ansi.light.bright);
    let dark_normal = ansi_row_items(&palette.ansi.dark.normal);
    let dark_bright = ansi_row_items(&palette.ansi.dark.bright);
    proof {
        assert(item_views(light_normal@) =~= row_items(r, 0));
        assert(item_views(light_bright@) =~= row_items(r, 1));
        assert(item_views(dark_normal@) =~= row_items(r, 2));
        assert(item_views(dark_bright@) =~= row_items(r, 3));
    }
    push_section(&mut s, "Colors (Light)", &light, width);
    push_section(&mut s, "Colors (Dark)", &dark, width);
    push_section(&mut s, "Accents", &accents, width);
    push_section(&mut s, "ANSI (Light / Normal)", &light_normal, width);
    push_section(&mut s, "ANSI (Light / Bright)", &light_bright, width);
    push_section(&mut s, "ANSI (Dark / Normal)", &dark_normal, width);
    push_section(&mut s, "ANSI (Dark / Bright)", &dark_bright, width);
    proof {
        assert(s@ =~= summary_text(palette_path@, r));
    }
    s
}

/// What `run` gives for a palette: the summary of what it resolves to, or
/// the error of its resolution.
pub open spec fn run_spec(path: Seq<char>, p: crate::palette::PaletteView) -> Result<
    Seq<char>,
    ResolveErrorView,
> {
    match resolve_all(p) {
        Ok(r) => Ok(summary_text(path, r)),
        Err(e) => Err(e),
    }
}

/// The texts of the outcome of `run`.
pub open spec fn run_view(r: Result<String, ResolveError>) -> Result<Seq<char>, ResolveErrorView> {
    match r {
        Ok(s) => Ok(s@),
        Err(e) => Err(e@),
    }
}

/// Resolves `palette`, which was read from `palette_path`, and writes its
/// summary.
pub fn run(palette_path: &str, palette: &Palette) -> (r: Result<String, ResolveError>)
    ensures
        run_view(r) == run_spec(palette_path@, palette@),
{
    match resolve_palette(palette) {
        Ok(resolved) => Ok(format_palette(palette_path, &resolved)),
        Err(e) => Err(e),
    }
}

} // verus!
