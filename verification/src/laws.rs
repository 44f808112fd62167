//! Laws: what holds of normalizing, of resolving a path, of resolving a
//! palette, of the paths of the slots, and of resolution after validation.

use vstd::prelude::*;

use crate::address::{
    lemma_ansi_path, lemma_slot_of_range, lemma_table_paths, level_index, lookup, slot_index,
    slot_of, tone_index,
};
use crate::validate::{check_slot, validate};
use crate::color::{canonical, is_hex_literal};
use crate::error::{FailureView, ResolveError, ResolveErrorView};
use crate::palette::{ColorSpec, Palette, PaletteView, ResolvedPalette, ResolvedView};
use crate::resolve::{
    all_resolve, assemble, fails_first_at, in_progress, leads_to, lemma_push_in_progress,
    lemma_resolve_smaller_stack, lemma_resolved_under_any_stack, lemma_slots_len, link_ok,
    normalize, resolution_view, resolve, resolve_all, resolve_from, resolve_slot, resolve_slots,
    resolve_value,
};
use crate::address::slot_count;
use crate::slots::{row_prefix, slot_name, slots, Slot};
use crate::table::keys;
use crate::text::{index_of, lemma_index_of};

verus! {

/// The canonical form of a colour literal is a colour literal, and it is its
/// own canonical form.
pub proof fn law_canonical_is_fixed(raw: Seq<char>)
    requires
        is_hex_literal(raw),
    ensures
        is_hex_literal(canonical(raw)),
        canonical(canonical(raw)) == canonical(raw),
{
    let c = canonical(raw);
    assert forall|i: int| 1 <= i < 7 implies crate::color::is_hex_digit(#[trigger] c[i]) by {
        assert(crate::color::is_hex_digit(raw[i]));
    }
    assert(canonical(c) =~= c);
}

/// Normalizing is idempotent: what a literal normalizes to normalizes to
/// itself. In particular a literal in lower case and the same literal in
/// upper case normalize alike.
pub proof fn law_normalize_idempotent(raw: Seq<char>)
    requires
        normalize(raw) is Ok,
    ensures
        normalize(normalize(raw)->Ok_0) == normalize(raw),
        normalize(canonical(raw)) == normalize(raw),
{
    law_canonical_is_fixed(raw);
}

/// Whatever a path resolves to is a canonical colour literal.
pub proof fn law_resolved_is_canonical(p: PaletteView, path: Seq<char>, stack: Seq<Seq<char>>)
    requires
        in_progress(p, stack),
        resolve_from(p, path, stack) is Ok,
    ensures
        normalize(resolve_from(p, path, stack)->Ok_0) == resolve_from(p, path, stack),
    decreases slot_count(p) - stack.len(),
{
    match lookup(p, path) {
        Some(ColorSpec::Literal(raw)) => {
            law_normalize_idempotent(raw);
        },
        Some(ColorSpec::Reference(next)) => {
            lemma_push_in_progress(p, stack, path);
            law_resolved_is_canonical(p, next, stack.push(path));
        },
        None => {},
    }
}

/// Resolution does not depend on where the traversal comes from: a path
/// that resolves on one chain of references resolves to the same colour on
/// every other chain that leads to it.
pub proof fn law_traversal_independent(
    p: PaletteView,
    path: Seq<char>,
    one: Seq<Seq<char>>,
    other: Seq<Seq<char>>,
)
    requires
        in_progress(p, one),
        in_progress(p, other),
        leads_to(p, other, path),
        resolve_from(p, path, one) is Ok,
    ensures
        resolve_from(p, path, other) == resolve_from(p, path, one),
{
    let empty = Seq::<Seq<char>>::empty();
    assert(in_progress(p, empty));
    assert forall|x: Seq<char>| empty.contains(x) implies one.contains(x) by {}
    lemma_resolve_smaller_stack(p, path, one, empty);
    lemma_resolved_under_any_stack(p, path, other);
}

/// Resolution is a function of what the palette holds: whatever two runs
/// of `resolve_palette` return for palettes that hold the same, they return
/// the same texts, colour by colour, or the same error.
pub proof fn law_deterministic(
    a: Palette,
    b: Palette,
    ra: Result<ResolvedPalette, ResolveError>,
    rb: Result<ResolvedPalette, ResolveError>,
)
    requires
        a@ == b@,
        resolution_view(ra) == resolve_all(a@),
        resolution_view(rb) == resolve_all(b@),
    ensures
        resolution_view(ra) == resolution_view(rb),
        ra is Ok <==> rb is Ok,
{
}

/// A slot that holds a literal resolves to the literal's canonical form.
pub proof fn law_literal_resolves_to_itself(p: PaletteView, path: Seq<char>, raw: Seq<char>)
    requires
        lookup(p, path) == Some(ColorSpec::Literal(raw)),
    ensures
        resolve(p, path) == normalize(raw),
{
    assert(in_progress(p, Seq::<Seq<char>>::empty()));
}

/// A reference whose target resolves resolves to the same colour, however
/// long the chain behind the target is.
pub proof fn law_reference_follows_target(p: PaletteView, path: Seq<char>, target: Seq<char>)
    requires
        lookup(p, path) == Some(ColorSpec::Reference(target)),
        resolve(p, target) is Ok,
    ensures
        resolve(p, path) == resolve(p, target),
{
    let empty = Seq::<Seq<char>>::empty();
    assert(in_progress(p, empty));
    lemma_push_in_progress(p, empty, path);
    let stack = empty.push(path);
    assert(link_ok(p, stack, target, 0));
    lemma_resolved_under_any_stack(p, target, stack);
}

/// A reference to a path that names no slot fails with that path.
pub proof fn law_missing_target(p: PaletteView, path: Seq<char>, target: Seq<char>)
    requires
        lookup(p, path) == Some(ColorSpec::Reference(target)),
        lookup(p, target) is None,
    ensures
        resolve(p, target) == Err::<Seq<char>, FailureView>(
            FailureView::MissingPath { path: target },
        ),
        resolve(p, path) == resolve(p, target),
{
    let empty = Seq::<Seq<char>>::empty();
    assert(in_progress(p, empty));
    lemma_push_in_progress(p, empty, path);
    let stack = empty.push(path);
    assert(!stack.contains(target)) by {
        if stack.contains(target) {
            let i = choose|i: int| 0 <= i < stack.len() && stack[i] == target;
            assert(stack[i] == path);
        }
    }
    assert(resolve_from(p, target, stack) == resolve(p, target));
}

/// A slot that refers to itself fails with a cycle that names it.
pub proof fn law_self_reference_fails(p: PaletteView, path: Seq<char>)
    requires
        lookup(p, path) == Some(ColorSpec::Reference(path)),
    ensures
        resolve(p, path) == Err::<Seq<char>, FailureView>(
            FailureView::CycleDetected { cycle: seq![path, path] },
        ),
{
    let empty = Seq::<Seq<char>>::empty();
    assert(in_progress(p, empty));
    lemma_push_in_progress(p, empty, path);
    let stack = empty.push(path);
    assert(stack[0] == path);
    assert(stack.contains(path));
    assert(resolve_from(p, path, stack) == Err::<Seq<char>, FailureView>(
        FailureView::CycleDetected { cycle: stack.push(path) },
    ));
    assert(stack.push(path) =~= seq![path, path]);
}

/// Two slots that refer to each other fail with a cycle that names both.
pub proof fn law_mutual_reference_fails(p: PaletteView, a: Seq<char>, b: Seq<char>)
    requires
        a != b,
        lookup(p, a) == Some(ColorSpec::Reference(b)),
        lookup(p, b) == Some(ColorSpec::Reference(a)),
    ensures
        resolve(p, a) == Err::<Seq<char>, FailureView>(
            FailureView::CycleDetected { cycle: seq![a, b, a] },
        ),
{
    let empty = Seq::<Seq<char>>::empty();
    assert(in_progress(p, empty));
    lemma_push_in_progress(p, empty, a);
    let one = empty.push(a);
    assert(!one.contains(b)) by {
        if one.contains(b) {
            let i = choose|i: int| 0 <= i < one.len() && one[i] == b;
            assert(one[i] == a);
        }
    }
    lemma_push_in_progress(p, one, b);
    let two = one.push(b);
    assert(two[0] == a);
    assert(two.contains(a));
    assert(resolve_from(p, a, two) == Err::<Seq<char>, FailureView>(
        FailureView::CycleDetected { cycle: two.push(a) },
    ));
    assert(resolve_from(p, b, one) == resolve_from(p, a, two));
    assert(resolve(p, a) == resolve_from(p, b, one));
    assert(two.push(a) =~= seq![a, b, a]);
}

/// What a palette holds has the closed shape: thirty-two terminal slots.
pub proof fn law_closed_shape(palette: Palette)
    ensures
        palette@.wf(),
{
}

/// A resolved palette read as a palette: every colour as a literal.
pub open spec fn as_literals(r: ResolvedView) -> PaletteView {
    PaletteView {
        meta: r.meta,
        light: Seq::new(r.light.len(), |i: int| (r.light[i].0, ColorSpec::Literal(r.light[i].1))),
        dark: Seq::new(r.dark.len(), |i: int| (r.dark[i].0, ColorSpec::Literal(r.dark[i].1))),
        accents: Seq::new(
            r.accents.len(),
            |i: int| (r.accents[i].0, ColorSpec::Literal(r.accents[i].1)),
        ),
        ansi: Seq::new(r.ansi.len(), |i: int| ColorSpec::Literal(r.ansi[i])),
    }
}

/// All colours of a resolved palette, in the fixed order of the slots.
pub open spec fn colours(r: ResolvedView) -> Seq<Seq<char>> {
    Seq::new(r.light.len(), |i: int| r.light[i].1) + Seq::new(r.dark.len(), |i: int| r.dark[i].1)
        + Seq::new(r.accents.len(), |i: int| r.accents[i].1) + r.ansi
}

/// Resolving is idempotent: a palette that holds, as literals, the colours
/// of a resolved palette resolves to that resolved palette.
pub proof fn law_resolve_idempotent(p: PaletteView, r: ResolvedView)
    requires
        p.wf(),
        resolve_all(p) == Ok::<ResolvedView, ResolveErrorView>(r),
    ensures
        resolve_all(as_literals(r)) == Ok::<ResolvedView, ResolveErrorView>(r),
{
    let s = slots(p);
    let values = resolve_slots(p, s)->Ok_0;
    lemma_slots_len(p);
    assert(r == assemble(p, values));
    let q = as_literals(r);
    let t = slots(q);
    lemma_slots_len(q);
    assert(t.len() == s.len());
    assert(values.len() == s.len());
    let empty = Seq::<Seq<char>>::empty();
    assert(in_progress(p, empty));
    assert forall|i: int| 0 <= i < t.len() implies resolve_slot(q, #[trigger] t[i]) == Ok::<
        Seq<char>,
        ResolveErrorView,
    >(values[i]) by {
        assert(resolve_slot(p, s[i]) is Ok);
        assert(values[i] == resolve_slot(p, s[i])->Ok_0);
        assert(t[i].value == ColorSpec::Literal(values[i]));
        match s[i].value {
            ColorSpec::Literal(raw) => {
                law_normalize_idempotent(raw);
            },
            ColorSpec::Reference(path) => {
                law_resolved_is_canonical(p, path, empty);
            },
        }
    }
    assert(all_resolve(q, t));
    let again = resolve_slots(q, t)->Ok_0;
    assert(again =~= values);
    assert(assemble(q, again).light =~= r.light);
    assert(assemble(q, again).dark =~= r.dark);
    assert(assemble(q, again).accents =~= r.accents);
    assert(assemble(q, again).ansi =~= r.ansi);
}

/// Each colour of a resolved palette is what its own slot resolves to: it
/// depends on the palette and on that slot, not on the slots visited before.
pub proof fn law_slot_by_slot(p: PaletteView, r: ResolvedView, i: int)
    requires
        p.wf(),
        resolve_all(p) == Ok::<ResolvedView, ResolveErrorView>(r),
        0 <= i < slots(p).len(),
    ensures
        colours(r).len() == slots(p).len(),
        resolve_value(p, slots(p)[i].value) == Ok::<Seq<char>, FailureView>(colours(r)[i]),
{
    let s = slots(p);
    let values = resolve_slots(p, s)->Ok_0;
    lemma_slots_len(p);
    assert(r == assemble(p, values));
    assert(resolve_slot(p, s[i]) is Ok);
    assert(values[i] == resolve_slot(p, s[i])->Ok_0);
    assert(colours(r) =~= values);
}

/// The name of a tone.
pub open spec fn tone_name(i: int) -> Seq<char> {
    if i == 0 {
        "light"@
    } else {
        "dark"@
    }
}

/// The name of a level.
pub open spec fn level_name(i: int) -> Seq<char> {
    if i == 0 {
        "normal"@
    } else {
        "bright"@
    }
}

/// The name of each terminal slot stands at its position among the eight,
/// and holds no dot.
pub proof fn lemma_slot_names(i: int)
    requires
        0 <= i < 8,
    ensures
        slot_index(slot_name(i)) == Some(i),
        !slot_name(i).contains('.'),
{
    reveal_strlit("black");
    reveal_strlit("red");
    reveal_strlit("green");
    reveal_strlit("yellow");
    reveal_strlit("blue");
    reveal_strlit("magenta");
    reveal_strlit("cyan");
    reveal_strlit("white");
    let name = slot_name(i);
    assert(!name.contains('.'));
    assert("black"@.len() == 5 && "black"@[0] == 'b');
    assert("red"@.len() == 3);
    assert("green"@.len() == 5 && "green"@[0] == 'g');
    assert("yellow"@.len() == 6);
    assert("blue"@.len() == 4 && "blue"@[0] == 'b');
    assert("magenta"@.len() == 7);
    assert("cyan"@.len() == 4 && "cyan"@[0] == 'c');
    assert("white"@.len() == 5 && "white"@[0] == 'w');
}

/// The path of each terminal row is `ansi.`, its tone, its level and a dot.
pub proof fn lemma_row_prefixes(row: int)
    requires
        0 <= row < 4,
    ensures
        row_prefix(row) == "ansi."@ + tone_name(row / 2) + seq!['.'] + level_name(row % 2) + seq![
            '.',
        ],
        tone_index(tone_name(row / 2)) == Some(row / 2),
        level_index(level_name(row % 2)) == Some(row % 2),
        !tone_name(row / 2).contains('.'),
        !level_name(row % 2).contains('.'),
{
    reveal_strlit("ansi.");
    reveal_strlit("light");
    reveal_strlit("dark");
    reveal_strlit("normal");
    reveal_strlit("bright");
    reveal_strlit("ansi.light.normal.");
    reveal_strlit("ansi.light.bright.");
    reveal_strlit("ansi.dark.normal.");
    reveal_strlit("ansi.dark.bright.");
    let dot = seq!['.'];
    assert("ansi.light.normal."@ =~= "ansi."@ + "light"@ + dot + "normal"@ + dot);
    assert("ansi.light.bright."@ =~= "ansi."@ + "light"@ + dot + "bright"@ + dot);
    assert("ansi.dark.normal."@ =~= "ansi."@ + "dark"@ + dot + "normal"@ + dot);
    assert("ansi.dark.bright."@ =~= "ansi."@ + "dark"@ + dot + "bright"@ + dot);
    assert("bright"@[0] != "normal"@[0]);
    assert(!"light"@.contains('.'));
    assert(!"dark"@.contains('.'));
    assert(!"normal"@.contains('.'));
    assert(!"bright"@.contains('.'));
}

/// Whether the slot at `i` can be named: a terminal slot always can; a
/// slot of a table can where its name holds no dot and no earlier entry of
/// the table has the same name.
pub open spec fn nameable(p: PaletteView, i: int) -> bool {
    let l = p.light.len() as int;
    let d = l + p.dark.len();
    let a = d + p.accents.len();
    if i < l {
        !p.light[i].0.contains('.') && index_of(keys(p.light), p.light[i].0) == i
    } else if i < d {
        !p.dark[i - l].0.contains('.') && index_of(keys(p.dark), p.dark[i - l].0) == i - l
    } else if i < a {
        !p.accents[i - d].0.contains('.') && index_of(keys(p.accents), p.accents[i - d].0) == i
            - d
    } else {
        true
    }
}

/// The path of a slot names that slot: looking up the label of a slot that
/// can be named gives the slot's value.
pub proof fn law_label_names_slot(p: PaletteView, i: int)
    requires
        p.wf(),
        0 <= i < slots(p).len(),
        nameable(p, i),
    ensures
        lookup(p, slots(p)[i].label) == Some(slots(p)[i].value),
{
    lemma_slots_len(p);
    let l = p.light.len() as int;
    let d = l + p.dark.len();
    let a = d + p.accents.len();
    if i < l {
        lemma_table_paths(p, p.light[i].0);
    } else if i < d {
        lemma_table_paths(p, p.dark[i - l].0);
    } else if i < a {
        lemma_table_paths(p, p.accents[i - d].0);
    } else {
        let k = i - a;
        let row = k / 8;
        let slot = k % 8;
        lemma_row_prefixes(row);
        lemma_slot_names(slot);
        lemma_ansi_path(p, tone_name(row / 2), level_name(row % 2), slot_name(slot));
        assert(slots(p)[i].label == row_prefix(row) + slot_name(slot));
        assert(16 * (row / 2) + 8 * (row % 2) + slot == k);
    }
}

/// In a table without a name twice, every entry is the first of its name.
pub proof fn lemma_distinct_first<T>(t: Seq<(Seq<char>, T)>, i: int)
    requires
        keys(t).no_duplicates(),
        0 <= i < t.len(),
    ensures
        index_of(keys(t), t[i].0) == i,
{
    assert forall|j: int| 0 <= j < i implies keys(t)[j] != t[i].0 by {
        assert(keys(t)[i] == t[i].0);
    }
    lemma_index_of(keys(t), t[i].0, i);
}

/// Where no table of a palette holds a name twice, as in every well-formed
/// palette, every slot whose name holds no dot can be named.
pub proof fn law_distinct_names_are_nameable(p: PaletteView, i: int)
    requires
        keys(p.light).no_duplicates(),
        keys(p.dark).no_duplicates(),
        keys(p.accents).no_duplicates(),
        0 <= i < slots(p).len(),
        forall|j: int| 0 <= j < p.light.len() ==> !(#[trigger] p.light[j]).0.contains('.'),
        forall|j: int| 0 <= j < p.dark.len() ==> !(#[trigger] p.dark[j]).0.contains('.'),
        forall|j: int| 0 <= j < p.accents.len() ==> !(#[trigger] p.accents[j]).0.contains('.'),
    ensures
        nameable(p, i),
{
    let l = p.light.len() as int;
    let d = l + p.dark.len();
    let a = d + p.accents.len();
    if i < l {
        lemma_distinct_first(p.light, i);
    } else if i < d {
        lemma_distinct_first(p.dark, i - l);
    } else if i < a {
        lemma_distinct_first(p.accents, i - d);
    }
}

/// A slot that refers to another slot by its path takes that slot's colour:
/// where the slot at `i` holds a literal and can be named, a reference to
/// its label resolves to the literal's canonical form.
pub proof fn law_reference_to_label(p: PaletteView, i: int, raw: Seq<char>)
    requires
        p.wf(),
        0 <= i < slots(p).len(),
        nameable(p, i),
        slots(p)[i].value == ColorSpec::Literal(raw),
    ensures
        resolve_value(p, ColorSpec::Reference(slots(p)[i].label)) == normalize(raw),
{
    law_label_names_slot(p, i);
    law_literal_resolves_to_itself(p, slots(p)[i].label, raw);
}

/// What a path names is the value of one of the slots.
pub proof fn lemma_lookup_is_slot(p: PaletteView, path: Seq<char>)
    requires
        p.wf(),
        lookup(p, path) is Some,
    ensures
        0 <= slot_of(p, path) < slots(p).len(),
        slots(p)[slot_of(p, path)].value == lookup(p, path)->0,
{
    lemma_slots_len(p);
    lemma_slot_of_range(p, path);
}

/// After the validator has passed a palette, no chain of references ends in
/// a literal that is no hex colour.
pub proof fn law_validated_literals_normalize(
    p: PaletteView,
    path: Seq<char>,
    stack: Seq<Seq<char>>,
)
    requires
        p.wf(),
        validate(p) is Ok,
        in_progress(p, stack),
    ensures
        !(resolve_from(p, path, stack) matches Err(FailureView::InvalidHexColor { .. })),
    decreases slot_count(p) - stack.len(),
{
    if !stack.contains(path) {
        match lookup(p, path) {
            Some(ColorSpec::Literal(raw)) => {
                lemma_lookup_is_slot(p, path);
                let i = slot_of(p, path);
                assert(check_slot(slots(p)[i]) is None);
            },
            Some(ColorSpec::Reference(next)) => {
                lemma_push_in_progress(p, stack, path);
                law_validated_literals_normalize(p, next, stack.push(path));
            },
            None => {},
        }
    }
}

/// Where a slot fails to resolve, some slot is the first to fail.
pub proof fn lemma_first_failure_exists(p: PaletteView, s: Seq<Slot>, k: int)
    requires
        0 <= k < s.len(),
        resolve_slot(p, s[k]) is Err,
    ensures
        exists|i: int| fails_first_at(p, s, i),
    decreases k,
{
    if forall|j: int| 0 <= j < k ==> resolve_slot(p, #[trigger] s[j]) is Ok {
        assert(fails_first_at(p, s, k));
    } else {
        let j = choose|j: int| 0 <= j < k && !(resolve_slot(p, #[trigger] s[j]) is Ok);
        lemma_first_failure_exists(p, s, j);
    }
}

/// After the validator has passed a palette, its resolution can fail only
/// at a reference, and only for a missing path or a cycle.
pub proof fn law_validated_failures(p: PaletteView, e: ResolveErrorView)
    requires
        p.wf(),
        validate(p) is Ok,
        resolve_all(p) == Err::<ResolvedView, ResolveErrorView>(e),
    ensures
        e.target is Some,
        e.failure is MissingPath || e.failure is CycleDetected,
{
    let s = slots(p);
    assert(!all_resolve(p, s));
    let k = choose|k: int| 0 <= k < s.len() && !(resolve_slot(p, #[trigger] s[k]) is Ok);
    lemma_first_failure_exists(p, s, k);
    let c = choose|c: int| fails_first_at(p, s, c);
    assert(fails_first_at(p, s, c));
    assert(e == resolve_slot(p, s[c])->Err_0);
    assert(check_slot(s[c]) is None);
    let empty = Seq::<Seq<char>>::empty();
    assert(in_progress(p, empty));
    match s[c].value {
        ColorSpec::Literal(raw) => {},
        ColorSpec::Reference(path) => {
            law_validated_literals_normalize(p, path, empty);
        },
    }
}

} // verus!
