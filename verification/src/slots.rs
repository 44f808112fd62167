//! The slots of a palette in their fixed order, each with its canonical
//! path: `colors.light.*`, `colors.dark.*`, `accents.*`, then the four
//! terminal rows.

use vstd::prelude::*;
use vstd::string::*;

use crate::palette::{AnsiRow, ColorRef, ColorSpec, Palette, PaletteView};
use crate::table::Table;

verus! {

/// A slot: the path that names it and the value it holds.
pub struct Slot {
    pub label: Seq<char>,
    pub value: ColorSpec,
}

/// A slot of a palette at hand.
pub struct SlotRef<'a> {
    pub label: String,
    pub value: &'a ColorRef,
}

impl<'a> View for SlotRef<'a> {
    type V = Slot;

    open spec fn view(&self) -> Slot {
        Slot { label: self.label@, value: self.value@ }
    }
}

/// The slots that a sequence of [`SlotRef`] stands for.
pub open spec fn slot_views(v: Seq<SlotRef>) -> Seq<Slot> {
    Seq::new(v.len(), |i: int| v[i]@)
}

/// The name of a slot of a terminal row.
pub open spec fn slot_name(i: int) -> Seq<char> {
    if i == 0 {
        "black"@
    } else if i == 1 {
        "red"@
    } else if i == 2 {
        "green"@
    } else if i == 3 {
        "yellow"@
    } else if i == 4 {
        "blue"@
    } else if i == 5 {
        "magenta"@
    } else if i == 6 {
        "cyan"@
    } else {
        "white"@
    }
}

/// The path of a terminal row, up to the slot's name.
pub open spec fn row_prefix(row: int) -> Seq<char> {
    if row == 0 {
        "ansi.light.normal."@
    } else if row == 1 {
        "ansi.light.bright."@
    } else if row == 2 {
        "ansi.dark.normal."@
    } else {
        "ansi.dark.bright."@
    }
}

/// The slots of a table whose paths start with `prefix`.
pub open spec fn table_slots(prefix: Seq<char>, t: Seq<(Seq<char>, ColorSpec)>) -> Seq<Slot> {
    Seq::new(t.len(), |i: int| Slot { label: prefix + t[i].0, value: t[i].1 })
}

/// The eight slots of a terminal row whose paths start with `prefix`.
pub open spec fn row_slots(prefix: Seq<char>, row: Seq<ColorSpec>) -> Seq<Slot> {
    Seq::new(8, |i: int| Slot { label: prefix + slot_name(i), value: row[i] })
}

/// The thirty-two terminal slots.
pub open spec fn ansi_slots(ansi: Seq<ColorSpec>) -> Seq<Slot> {
    Seq::new(32, |i: int| Slot { label: row_prefix(i / 8) + slot_name(i % 8), value: ansi[i] })
}

/// All slots of a palette, in the order in which they are visited.
pub open spec fn slots(p: PaletteView) -> Seq<Slot> {
    table_slots("colors.light."@, p.light) + table_slots("colors.dark."@, p.dark) + table_slots(
        "accents."@,
        p.accents,
    ) + ansi_slots(p.ansi)
}

fn labelled<'a>(prefix: &str, name: &str, value: &'a ColorRef) -> (s: SlotRef<'a>)
    ensures
        s@ == (Slot { label: prefix@ + name@, value: value@ }),
{
    let mut label = String::from_str(prefix);
    label.append(name);
    SlotRef { label, value }
}

fn push_table<'a>(out: &mut Vec<SlotRef<'a>>, prefix: &str, table: &'a Table<ColorRef>)
    ensures
        slot_views(final(out)@) == slot_views(old(out)@) + table_slots(prefix@, table@),
{
    let ghost before = slot_views(out@);
    let n = table.len();
    let mut i: usize = 0;
    proof {
        assert(slot_views(out@) =~= before + table_slots(prefix@, table@).take(0));
    }
    while i < n
        invariant
            n == table@.len(),
            i <= n,
            slot_views(out@) == before + table_slots(prefix@, table@).take(i as int),
        decreases n - i,
    {
        let slot = labelled(prefix, table.key(i), table.value(i));
        proof {
            assert(slot_views(out@.push(slot)) =~= slot_views(out@).push(slot@));
            assert(slot_views(out@).push(slot@) =~= before + table_slots(prefix@, table@).take(
                i + 1,
            ));
        }
        out.push(slot);
        i = i + 1;
    }
    proof {
        assert(table_slots(prefix@, table@).take(n as int) =~= table_slots(prefix@, table@));
    }
}

fn push_row<'a>(out: &mut Vec<SlotRef<'a>>, prefix: &str, row: &'a AnsiRow)
    ensures
        slot_views(final(out)@) == slot_views(old(out)@) + row_slots(prefix@, row@),
{
    let ghost before = slot_views(out@);
    let s0 = labelled(prefix, "black", &row.black);
    let s1 = labelled(prefix, "red", &row.red);
    let s2 = labelled(prefix, "green", &row.green);
    let s3 = labelled(prefix, "yellow", &row.yellow);
    let s4 = labelled(prefix, "blue", &row.blue);
    let s5 = labelled(prefix, "magenta", &row.magenta);
    let s6 = labelled(prefix, "cyan", &row.cyan);
    let s7 = labelled(prefix, "white", &row.white);
    let ghost added = seq![s0@, s1@, s2@, s3@, s4@, s5@, s6@, s7@];
    proof {
        assert(added =~= row_slots(prefix@, row@));
    }
    out.push(s0);
    out.push(s1);
    out.push(s2);
    out.push(s3);
    out.push(s4);
    out.push(s5);
    out.push(s6);
    out.push(s7);
    proof {
        assert(slot_views(out@) =~= before + added);
    }
}

/// Lists the slots of `palette` with their paths.
pub fn collect_slots<'a>(palette: &'a Palette) -> (out: Vec<SlotRef<'a>>)
    ensures
        slot_views(out@) == slots(palette@),
{
    let mut out: Vec<SlotRef<'a>> = Vec::new();
    let ghost p = palette@;
    push_table(&mut out, "colors.light.", &palette.colors.light);
    push_table(&mut out, "colors.dark.", &palette.colors.dark);
    push_table(&mut out, "accents.", &palette.accents);
    let ghost tables = slot_views(out@);
    proof {
        assert(tables =~= table_slots("colors.light."@, p.light) + table_slots(
            "colors.dark."@,
            p.dark,
        ) + table_slots("accents."@, p.accents));
    }
    push_row(&mut out, "ansi.light.normal.", &palette.ansi.light.normal);
    push_row(&mut out, "ansi.light.bright.", &palette.ansi.light.bright);
    push_row(&mut out, "ansi.dark.normal.", &palette.ansi.dark.normal);
    push_row(&mut out, "ansi.dark.bright.", &palette.ansi.dark.bright);
    proof {
        let rows = row_slots(row_prefix(0), palette.ansi.light.normal@) + row_slots(
            row_prefix(1),
            palette.ansi.light.bright@,
        ) + row_slots(row_prefix(2), palette.ansi.dark.normal@) + row_slots(
            row_prefix(3),
            palette.ansi.dark.bright@,
        );
        assert(rows =~= ansi_slots(p.ansi));
        assert(slot_views(out@) =~= tables + rows);
    }
    out
}

} // verus!
