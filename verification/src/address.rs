//! Addressing: how a dotted path names a slot of a palette. The paths are
//! `colors.<tone>.<key>`, `accents.<key>` and `ansi.<tone>.<level>.<slot>`.

use vstd::prelude::*;
use vstd::set_lib::*;

use crate::palette::{AnsiRow, AnsiScheme, ColorRef, ColorSpec, Palette, PaletteView};
use crate::table::{find, keys};
use crate::text::{
    index_of, lemma_index_of_found, lemma_join_split, lemma_split_head, lemma_split_whole, split,
    split_spec, str_eq, views,
};

verus! {

/// The position of a tone among the tones.
pub open spec fn tone_index(name: Seq<char>) -> Option<int> {
    if name == "light"@ {
        Some(0)
    } else if name == "dark"@ {
        Some(1)
    } else {
        None
    }
}

/// The position of a level among the levels of a terminal scheme.
pub open spec fn level_index(name: Seq<char>) -> Option<int> {
    if name == "normal"@ {
        Some(0)
    } else if name == "bright"@ {
        Some(1)
    } else {
        None
    }
}

/// The position of a colour among the eight slots of a terminal row.
pub open spec fn slot_index(name: Seq<char>) -> Option<int> {
    if name == "black"@ {
        Some(0)
    } else if name == "red"@ {
        Some(1)
    } else if name == "green"@ {
        Some(2)
    } else if name == "yellow"@ {
        Some(3)
    } else if name == "blue"@ {
        Some(4)
    } else if name == "magenta"@ {
        Some(5)
    } else if name == "cyan"@ {
        Some(6)
    } else if name == "white"@ {
        Some(7)
    } else {
        None
    }
}

/// The terminal slot that three names address, as an index into the
/// thirty-two slots.
pub open spec fn ansi_index(tone: Seq<char>, level: Seq<char>, slot: Seq<char>) -> Option<int> {
    match (tone_index(tone), level_index(level), slot_index(slot)) {
        (Some(t), Some(l), Some(s)) => Some(16 * t + 8 * l + s),
        _ => None,
    }
}

/// The value of the slot that `path` names, or `None` where the path has
/// none of the three shapes or names nothing in the palette.
pub open spec fn lookup(p: PaletteView, path: Seq<char>) -> Option<ColorSpec> {
    let parts = split_spec(path, '.');
    if parts[0] == "colors"@ {
        if parts.len() != 3 {
            None
        } else if parts[1] == "light"@ {
            find(p.light, parts[2])
        } else if parts[1] == "dark"@ {
            find(p.dark, parts[2])
        } else {
            None
        }
    } else if parts[0] == "accents"@ {
        if parts.len() != 2 {
            None
        } else {
            find(p.accents, parts[1])
        }
    } else if parts[0] == "ansi"@ {
        if parts.len() != 4 {
            None
        } else {
            match ansi_index(parts[1], parts[2], parts[3]) {
                Some(i) => Some(p.ansi[i]),
                None => None,
            }
        }
    } else {
        None
    }
}

/// The number of slots of a palette.
pub open spec fn slot_count(p: PaletteView) -> nat {
    p.light.len() + p.dark.len() + p.accents.len() + 32
}

/// The position of the slot that `path` names when all slots are counted in
/// their fixed order: the light colours, the dark colours, the accents, the
/// terminal slots.
pub open spec fn slot_of(p: PaletteView, path: Seq<char>) -> int {
    let parts = split_spec(path, '.');
    if parts[0] == "colors"@ {
        if parts[1] == "light"@ {
            index_of(keys(p.light), parts[2]) as int
        } else {
            (p.light.len() + index_of(keys(p.dark), parts[2])) as int
        }
    } else if parts[0] == "accents"@ {
        (p.light.len() + p.dark.len() + index_of(keys(p.accents), parts[1])) as int
    } else {
        p.light.len() + p.dark.len() + p.accents.len() + ansi_index(
            parts[1],
            parts[2],
            parts[3],
        ).unwrap()
    }
}

/// A path that names a slot names one of the `slot_count` slots.
pub proof fn lemma_slot_of_range(p: PaletteView, path: Seq<char>)
    requires
        lookup(p, path) is Some,
    ensures
        0 <= slot_of(p, path) < slot_count(p),
{
}

/// Two paths that name the same slot are the same path.
pub proof fn lemma_slot_of_injective(p: PaletteView, a: Seq<char>, b: Seq<char>)
    requires
        lookup(p, a) is Some,
        lookup(p, b) is Some,
        slot_of(p, a) == slot_of(p, b),
    ensures
        a == b,
{
    let pa = split_spec(a, '.');
    let pb = split_spec(b, '.');
    lemma_join_split(a, '.');
    lemma_join_split(b, '.');
    if pa.len() == 3 && pb.len() == 3 {
        lemma_index_of_found(keys(p.light), pa[2]);
        lemma_index_of_found(keys(p.light), pb[2]);
        lemma_index_of_found(keys(p.dark), pa[2]);
        lemma_index_of_found(keys(p.dark), pb[2]);
    }
    if pa.len() == 2 && pb.len() == 2 {
        lemma_index_of_found(keys(p.accents), pa[1]);
        lemma_index_of_found(keys(p.accents), pb[1]);
    }
    assert(pa.len() == pb.len());
    assert forall|k: int| 0 <= k < pa.len() implies pa[k] == pb[k] by {}
    assert(pa =~= pb);
}

/// Distinct paths that all name slots are no more than there are slots.
pub proof fn lemma_addressable_bounded(p: PaletteView, paths: Seq<Seq<char>>)
    requires
        paths.no_duplicates(),
        forall|i: int| 0 <= i < paths.len() ==> lookup(p, #[trigger] paths[i]) is Some,
    ensures
        paths.len() <= slot_count(p),
{
    let idx = Seq::new(paths.len(), |i: int| slot_of(p, paths[i]));
    assert forall|i: int, j: int| 0 <= i < idx.len() && 0 <= j < idx.len() && i != j implies idx[i]
        != idx[j] by {
        if idx[i] == idx[j] {
            lemma_slot_of_injective(p, paths[i], paths[j]);
        }
    }
    idx.unique_seq_to_set();
    let range = set_int_range(0, slot_count(p) as int);
    lemma_int_range(0, slot_count(p) as int);
    assert forall|x: int| idx.to_set().contains(x) implies range.contains(x) by {
        let i = choose|i: int| 0 <= i < idx.len() && idx[i] == x;
        lemma_slot_of_range(p, paths[i]);
    }
    lemma_len_subset(idx.to_set(), range);
}

/// The pieces of `a.b.c`, where no part holds a dot.
pub proof fn lemma_three_parts(a: Seq<char>, b: Seq<char>, c: Seq<char>)
    requires
        !a.contains('.'),
        !b.contains('.'),
        !c.contains('.'),
    ensures
        split_spec(a + seq!['.'] + b + seq!['.'] + c, '.') == seq![a, b, c],
{
    lemma_split_whole(c, '.');
    lemma_split_head(b, c, '.');
    lemma_split_head(a, b + seq!['.'] + c, '.');
    assert(a + seq!['.'] + b + seq!['.'] + c =~= a + seq!['.'] + (b + seq!['.'] + c));
    assert(seq![a] + (seq![b] + seq![c]) =~= seq![a, b, c]);
}

/// A light colour is found under `colors.light.` and its name, a dark
/// colour under `colors.dark.` and its name, and an accent under `accents.`
/// and its name, where the name holds no dot.
pub proof fn lemma_table_paths(p: PaletteView, key: Seq<char>)
    requires
        !key.contains('.'),
    ensures
        lookup(p, "colors.light."@ + key) == find(p.light, key),
        lookup(p, "colors.dark."@ + key) == find(p.dark, key),
        lookup(p, "accents."@ + key) == find(p.accents, key),
{
    reveal_strlit("colors.light.");
    reveal_strlit("colors.dark.");
    reveal_strlit("accents.");
    reveal_strlit("colors");
    reveal_strlit("accents");
    reveal_strlit("light");
    reveal_strlit("dark");
    let dot = seq!['.'];
    assert(!"colors"@.contains('.'));
    assert(!"accents"@.contains('.'));
    assert(!"light"@.contains('.'));
    assert(!"dark"@.contains('.'));
    assert("colors.light."@ + key =~= "colors"@ + dot + "light"@ + dot + key);
    assert("colors.dark."@ + key =~= "colors"@ + dot + "dark"@ + dot + key);
    assert("accents."@ + key =~= "accents"@ + dot + key);
    lemma_three_parts("colors"@, "light"@, key);
    lemma_three_parts("colors"@, "dark"@, key);
    lemma_split_whole(key, '.');
    lemma_split_head("accents"@, key, '.');
    assert(seq!["accents"@] + seq![key] =~= seq!["accents"@, key]);
    assert("accents"@ != "colors"@);
    assert("dark"@ != "light"@);
}

/// A terminal slot is found under `ansi.`, its tone, its level and its
/// name, with dots between them.
pub proof fn lemma_ansi_path(p: PaletteView, tone: Seq<char>, level: Seq<char>, name: Seq<char>)
    requires
        !tone.contains('.'),
        !level.contains('.'),
        !name.contains('.'),
    ensures
        lookup(p, "ansi."@ + tone + seq!['.'] + level + seq!['.'] + name) == match ansi_index(
            tone,
            level,
            name,
        ) {
            Some(i) => Some(p.ansi[i]),
            None => None,
        },
{
    reveal_strlit("ansi.");
    reveal_strlit("ansi");
    reveal_strlit("colors");
    reveal_strlit("accents");
    let dot = seq!['.'];
    assert(!"ansi"@.contains('.'));
    lemma_three_parts(tone, level, name);
    lemma_split_head("ansi"@, tone + dot + level + dot + name, '.');
    assert("ansi."@ + tone + dot + level + dot + name =~= "ansi"@ + dot + (tone + dot + level + dot
        + name));
    assert(seq!["ansi"@] + seq![tone, level, name] =~= seq!["ansi"@, tone, level, name]);
    assert("ansi"@ != "colors"@);
    assert("ansi"@ != "accents"@);
}

fn row_slot<'a>(row: &'a AnsiRow, name: &str) -> (r: Option<&'a ColorRef>)
    ensures
        match r {
            Some(c) => slot_index(name@) matches Some(i) && c@ == row@[i],
            None => slot_index(name@) is None,
        },
{
    if str_eq(name, "black") {
        Some(&row.black)
    } else if str_eq(name, "red") {
        Some(&row.red)
    } else if str_eq(name, "green") {
        Some(&row.green)
    } else if str_eq(name, "yellow") {
        Some(&row.yellow)
    } else if str_eq(name, "blue") {
        Some(&row.blue)
    } else if str_eq(name, "magenta") {
        Some(&row.magenta)
    } else if str_eq(name, "cyan") {
        Some(&row.cyan)
    } else if str_eq(name, "white") {
        Some(&row.white)
    } else {
        None
    }
}

fn scheme_slot<'a>(scheme: &'a AnsiScheme, level: &str, name: &str) -> (r: Option<&'a ColorRef>)
    ensures
        match r {
            Some(c) => level_index(level@) matches Some(l) && slot_index(name@) matches Some(i)
                && c@ == scheme@[8 * l + i],
            None => level_index(level@) is None || slot_index(name@) is None,
        },
{
    if str_eq(level, "normal") {
        row_slot(&scheme.normal, name)
    } else if str_eq(level, "bright") {
        row_slot(&scheme.bright, name)
    } else {
        None
    }
}

/// Finds the slot that `path` names.
pub fn lookup_color_ref<'a>(palette: &'a Palette, path: &str) -> (r: Option<&'a ColorRef>)
    ensures
        match r {
            Some(c) => lookup(palette@, path@) == Some(c@),
            None => lookup(palette@, path@) is None,
        },
{
    let parts = split(path, '.');
    proof {
        lemma_join_split(path@, '.');
        assert(forall|k: int| 0 <= k < parts@.len() ==> views(parts@)[k] == parts@[k]@);
    }
    let n = parts.len();
    let head = parts[0].as_str();
    if str_eq(head, "colors") {
        if n != 3 {
            None
        } else if str_eq(parts[1].as_str(), "light") {
            palette.colors.light.get(parts[2].as_str())
        } else if str_eq(parts[1].as_str(), "dark") {
            palette.colors.dark.get(parts[2].as_str())
        } else {
            None
        }
    } else if str_eq(head, "accents") {
        if n != 2 {
            None
        } else {
            palette.accents.get(parts[1].as_str())
        }
    } else if str_eq(head, "ansi") {
        if n != 4 {
            None
        } else {
            let tone = parts[1].as_str();
            if str_eq(tone, "light") {
                scheme_slot(&palette.ansi.light, parts[2].as_str(), parts[3].as_str())
            } else if str_eq(tone, "dark") {
                scheme_slot(&palette.ansi.dark, parts[2].as_str(), parts[3].as_str())
            } else {
                None
            }
        }
    } else {
        None
    }
}

} // verus!
