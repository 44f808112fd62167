//! Resolution: following references until a literal is reached.

pub use vstd::hash_map::StringHashMap;
use vstd::prelude::*;
use vstd::set::axiom_set_insert_len;
use vstd::set_lib::*;
use vstd::string::*;

use crate::address::{
    lemma_addressable_bounded, lemma_slot_of_injective, lemma_slot_of_range, lookup,
    lookup_color_ref, slot_count, slot_of,
};
use crate::color::{canonical, is_hex_color, is_hex_literal, to_canonical};
use crate::error::{Failure, FailureView, ResolveError, ResolveErrorView};
use crate::palette::{
    text_of, ColorRef, ColorSpec, Palette, PaletteView, ResolvedAnsi, ResolvedAnsiRow,
    ResolvedAnsiScheme, ResolvedColors, ResolvedPalette, ResolvedView,
};
use crate::slots::{collect_slots, slot_views, slots, Slot, SlotRef};
use crate::table::{keys, Table};
use crate::text::{clone_strings, contains_str, lemma_contains_push, views};

verus! {

/// What a literal resolves to: its canonical form, if it is a hex colour.
pub open spec fn normalize(raw: Seq<char>) -> Result<Seq<char>, FailureView> {
    if is_hex_literal(raw) {
        Ok(canonical(raw))
    } else {
        Err(FailureView::InvalidHexColor { value: raw })
    }
}

/// The texts of the outcome of resolving one value.
pub open spec fn outcome_view(r: Result<String, Failure>) -> Result<Seq<char>, FailureView> {
    match r {
        Ok(s) => Ok(s@),
        Err(e) => Err(e@),
    }
}

/// Checks that `raw` is `#` and six hexadecimal digits and gives it back in
/// upper case.
pub fn normalize_hex(raw: &str) -> (r: Result<String, Failure>)
    ensures
        outcome_view(r) == normalize(raw@),
{
    if !is_hex_color(raw) {
        return Err(Failure::InvalidHexColor { value: raw.to_owned() });
    }
    Ok(to_canonical(raw))
}

/// Paths that are being resolved: no path twice, and each names a slot.
pub open spec fn in_progress(p: PaletteView, stack: Seq<Seq<char>>) -> bool {
    &&& stack.no_duplicates()
    &&& forall|i: int| 0 <= i < stack.len() ==> lookup(p, #[trigger] stack[i]) is Some
}

/// `path` names the slot at `k`.
pub open spec fn names_slot(p: PaletteView, path: Seq<char>, k: int) -> bool {
    lookup(p, path) is Some && slot_of(p, path) == k
}

/// The slots that the paths of `paths` name.
pub open spec fn named_slots(p: PaletteView, paths: Seq<Seq<char>>) -> Set<int> {
    Set::new(|k: int| exists|i: int| 0 <= i < paths.len() && #[trigger] names_slot(p, paths[i], k))
}

/// How many slots no path of `stack` names. Resolution ends because every
/// path that it enters names one slot more.
pub open spec fn unvisited(p: PaletteView, stack: Seq<Seq<char>>) -> nat {
    (slot_count(p) - named_slots(p, stack).len()) as nat
}

/// Paths name no more slots than there are.
pub proof fn lemma_named_slots_bounded(p: PaletteView, paths: Seq<Seq<char>>)
    ensures
        named_slots(p, paths).finite(),
        named_slots(p, paths).len() <= slot_count(p),
{
    let named = named_slots(p, paths);
    let range = set_int_range(0, slot_count(p) as int);
    lemma_int_range(0, slot_count(p) as int);
    assert forall|k: int| named.contains(k) implies range.contains(k) by {
        let i = choose|i: int| 0 <= i < paths.len() && #[trigger] names_slot(p, paths[i], k);
        lemma_slot_of_range(p, paths[i]);
    }
    lemma_len_subset(named, range);
}

/// Entering a path that names a slot and is not on the stack leaves one
/// slot less unvisited.
pub proof fn lemma_enter(p: PaletteView, stack: Seq<Seq<char>>, path: Seq<char>)
    requires
        !stack.contains(path),
        lookup(p, path) is Some,
    ensures
        unvisited(p, stack.push(path)) < unvisited(p, stack),
{
    let before = named_slots(p, stack);
    let more = stack.push(path);
    let after = named_slots(p, more);
    let k0 = slot_of(p, path);
    lemma_named_slots_bounded(p, stack);
    lemma_named_slots_bounded(p, more);
    if before.contains(k0) {
        let i = choose|i: int| 0 <= i < stack.len() && #[trigger] names_slot(p, stack[i], k0);
        lemma_slot_of_injective(p, stack[i], path);
        assert(stack.contains(path));
    }
    assert forall|k: int| after.contains(k) <==> before.insert(k0).contains(k) by {
        if after.contains(k) {
            let i = choose|i: int| 0 <= i < more.len() && #[trigger] names_slot(p, more[i], k);
            if i < stack.len() {
                assert(names_slot(p, stack[i], k));
            }
        }
        if before.contains(k) {
            let i = choose|i: int| 0 <= i < stack.len() && #[trigger] names_slot(p, stack[i], k);
            assert(names_slot(p, more[i], k));
        }
        if k == k0 {
            assert(names_slot(p, more[stack.len() as int], k));
        }
    }
    assert(after =~= before.insert(k0));
    axiom_set_insert_len(before, k0);
}

/// What `path` resolves to when the paths of `stack` are being resolved:
/// a path of the stack closes a cycle, a path that names no slot is missing,
/// a literal is normalized, and a reference resolves to what its target
/// resolves to with `path` on the stack.
pub open spec fn resolve_from(p: PaletteView, path: Seq<char>, stack: Seq<Seq<char>>) -> Result<
    Seq<char>,
    FailureView,
>
    decreases unvisited(p, stack),
    via resolve_from_decreases
{
    if stack.contains(path) {
        Err(FailureView::CycleDetected { cycle: stack.push(path) })
    } else {
        match lookup(p, path) {
            None => Err(FailureView::MissingPath { path }),
            Some(ColorSpec::Literal(raw)) => normalize(raw),
            Some(ColorSpec::Reference(next)) => resolve_from(p, next, stack.push(path)),
        }
    }
}

#[via_fn]
proof fn resolve_from_decreases(p: PaletteView, path: Seq<char>, stack: Seq<Seq<char>>) {
    if !stack.contains(path) && lookup(p, path) is Some {
        lemma_enter(p, stack, path);
    }
}

/// What a path resolves to, with nothing in progress.
pub open spec fn resolve(p: PaletteView, path: Seq<char>) -> Result<Seq<char>, FailureView> {
    resolve_from(p, path, Seq::empty())
}

/// A path that names a slot and is not in progress can be entered, and then
/// fewer paths are in progress than there are slots.
pub proof fn lemma_push_in_progress(p: PaletteView, stack: Seq<Seq<char>>, path: Seq<char>)
    requires
        in_progress(p, stack),
        !stack.contains(path),
        lookup(p, path) is Some,
    ensures
        in_progress(p, stack.push(path)),
        stack.len() < slot_count(p),
{
    let more = stack.push(path);
    assert forall|i: int, j: int| 0 <= i < more.len() && 0 <= j < more.len() && i != j implies more[i]
        != more[j] by {
        if i < stack.len() && j < stack.len() {
            assert(stack[i] != stack[j]);
        } else if i < stack.len() {
            assert(stack.contains(stack[i]));
        } else {
            assert(stack.contains(stack[j]));
        }
    }
    assert forall|i: int| 0 <= i < more.len() implies lookup(p, #[trigger] more[i]) is Some by {
        if i < stack.len() {
            assert(more[i] == stack[i]);
        }
    }
    lemma_addressable_bounded(p, more);
}

/// A part of what is in progress is in progress.
pub proof fn lemma_subrange_in_progress(p: PaletteView, stack: Seq<Seq<char>>, from: int, to: int)
    requires
        in_progress(p, stack),
        0 <= from <= to <= stack.len(),
    ensures
        in_progress(p, stack.subrange(from, to)),
{
    let part = stack.subrange(from, to);
    assert forall|i: int, j: int| 0 <= i < part.len() && 0 <= j < part.len() && i != j implies part[i]
        != part[j] by {
        assert(part[i] == stack[from + i]);
        assert(part[j] == stack[from + j]);
    }
    assert forall|i: int| 0 <= i < part.len() implies lookup(p, #[trigger] part[i]) is Some by {
        assert(part[i] == stack[from + i]);
    }
}

/// The entry at `i` of the stack refers to the entry after it, the last
/// entry to `path`.
pub open spec fn link_ok(p: PaletteView, stack: Seq<Seq<char>>, path: Seq<char>, i: int) -> bool {
    lookup(p, stack[i]) == Some(
        ColorSpec::Reference(
            if i + 1 < stack.len() {
                stack[i + 1]
            } else {
                path
            },
        ),
    )
}

/// The stack is the chain of references that led to `path`.
pub open spec fn leads_to(p: PaletteView, stack: Seq<Seq<char>>, path: Seq<char>) -> bool {
    forall|i: int| 0 <= i < stack.len() ==> #[trigger] link_ok(p, stack, path, i)
}

/// A path that resolves with some paths in progress resolves to the same
/// with fewer of them in progress.
pub proof fn lemma_resolve_smaller_stack(
    p: PaletteView,
    path: Seq<char>,
    big: Seq<Seq<char>>,
    small: Seq<Seq<char>>,
)
    requires
        in_progress(p, big),
        in_progress(p, small),
        forall|x: Seq<char>| small.contains(x) ==> big.contains(x),
        resolve_from(p, path, big) is Ok,
    ensures
        resolve_from(p, path, small) == resolve_from(p, path, big),
    decreases slot_count(p) - big.len(),
{
    assert(!big.contains(path));
    assert(!small.contains(path));
    match lookup(p, path) {
        Some(ColorSpec::Reference(next)) => {
            lemma_push_in_progress(p, big, path);
            lemma_push_in_progress(p, small, path);
            assert forall|x: Seq<char>| small.push(path).contains(x) implies big.push(
                path,
            ).contains(x) by {
                lemma_contains_push(small, path, x);
                lemma_contains_push(big, path, x);
            }
            lemma_resolve_smaller_stack(p, next, big.push(path), small.push(path));
        },
        _ => {},
    }
}

/// Where the chain of references that led to `path` has passed `path`
/// before, at `j`, following it again from any later entry fails.
proof fn lemma_cycle_fails(p: PaletteView, stack: Seq<Seq<char>>, path: Seq<char>, j: int, i: int)
    requires
        in_progress(p, stack),
        leads_to(p, stack, path),
        0 <= j <= i < stack.len(),
        stack[j] == path,
    ensures
        resolve_from(p, stack[i], stack.subrange(j, i)) is Err,
    decreases stack.len() - i,
{
    let seen = stack.subrange(j, i);
    lemma_subrange_in_progress(p, stack, j, i);
    lemma_subrange_in_progress(p, stack, j, i + 1);
    assert(link_ok(p, stack, path, i));
    if seen.contains(stack[i]) {
        let k = choose|k: int| 0 <= k < seen.len() && seen[k] == stack[i];
        assert(stack[j + k] == stack[i]);
        assert(false);
    }
    let more = stack.subrange(j, i + 1);
    assert(seen.push(stack[i]) =~= more);
    if i + 1 < stack.len() {
        lemma_cycle_fails(p, stack, path, j, i + 1);
        assert(resolve_from(p, stack[i], seen) == resolve_from(p, stack[i + 1], more));
    } else {
        assert(more[0] == path);
        assert(more.contains(path));
        assert(resolve_from(p, path, more) is Err);
        assert(resolve_from(p, stack[i], seen) == resolve_from(p, path, more));
    }
}

/// A path that resolves with nothing in progress resolves to the same
/// wherever the chain of references reaches it.
pub proof fn lemma_resolved_under_any_stack(p: PaletteView, path: Seq<char>, stack: Seq<Seq<char>>)
    requires
        in_progress(p, stack),
        leads_to(p, stack, path),
        resolve(p, path) is Ok,
    ensures
        resolve_from(p, path, stack) == resolve(p, path),
    decreases slot_count(p) - stack.len(),
{
    let empty = Seq::<Seq<char>>::empty();
    assert(in_progress(p, empty));
    if stack.contains(path) {
        let j = choose|j: int| 0 <= j < stack.len() && stack[j] == path;
        lemma_cycle_fails(p, stack, path, j, j);
        assert(stack.subrange(j, j) =~= empty);
    } else {
        match lookup(p, path) {
            Some(ColorSpec::Reference(next)) => {
                lemma_push_in_progress(p, empty, path);
                lemma_resolve_smaller_stack(p, next, empty.push(path), empty);
                lemma_push_in_progress(p, stack, path);
                let more = stack.push(path);
                assert forall|i: int| 0 <= i < more.len() implies #[trigger] link_ok(
                    p,
                    more,
                    next,
                    i,
                ) by {
                    if i < stack.len() {
                        assert(link_ok(p, stack, path, i));
                    }
                }
                lemma_resolved_under_any_stack(p, next, more);
            },
            _ => {},
        }
    }
}

/// What resolving `path` gives in any state: a remembered colour is given
/// back; else a path of the stack closes a cycle; else a path that names
/// no slot is missing, a literal is normalized, and a reference gives what
/// its target gives with `path` on the stack.
pub open spec fn resolve_with(
    p: PaletteView,
    path: Seq<char>,
    memo: Map<Seq<char>, String>,
    stack: Seq<Seq<char>>,
) -> Result<Seq<char>, FailureView>
    decreases unvisited(p, stack),
    via resolve_with_decreases
{
    if memo.contains_key(path) {
        Ok(memo[path]@)
    } else if stack.contains(path) {
        Err(FailureView::CycleDetected { cycle: stack.push(path) })
    } else {
        match lookup(p, path) {
            None => Err(FailureView::MissingPath { path }),
            Some(ColorSpec::Literal(raw)) => normalize(raw),
            Some(ColorSpec::Reference(next)) => resolve_with(p, next, memo, stack.push(path)),
        }
    }
}

#[via_fn]
proof fn resolve_with_decreases(
    p: PaletteView,
    path: Seq<char>,
    memo: Map<Seq<char>, String>,
    stack: Seq<Seq<char>>,
) {
    if !stack.contains(path) && lookup(p, path) is Some {
        lemma_enter(p, stack, path);
    }
}

/// The paths that resolving `path` enters, in order: none where the path
/// is remembered, is on the stack or names no slot; else the path itself
/// and, behind a reference, the paths that its target enters.
pub open spec fn entered(
    p: PaletteView,
    path: Seq<char>,
    memo: Map<Seq<char>, String>,
    stack: Seq<Seq<char>>,
) -> Seq<Seq<char>>
    decreases unvisited(p, stack),
    via entered_decreases
{
    if memo.contains_key(path) || stack.contains(path) {
        Seq::empty()
    } else {
        match lookup(p, path) {
            None => Seq::empty(),
            Some(ColorSpec::Literal(_)) => seq![path],
            Some(ColorSpec::Reference(next)) => seq![path] + entered(
                p,
                next,
                memo,
                stack.push(path),
            ),
        }
    }
}

#[via_fn]
proof fn entered_decreases(
    p: PaletteView,
    path: Seq<char>,
    memo: Map<Seq<char>, String>,
    stack: Seq<Seq<char>>,
) {
    if !stack.contains(path) && lookup(p, path) is Some {
        lemma_enter(p, stack, path);
    }
}

/// `after` is `before` with the colour `colour` remembered for each of the
/// paths `paths`: it has the keys of `before` and the paths, every entry of
/// `before` is as it was, and every path holds the colour.
pub open spec fn remembered(
    before: Map<Seq<char>, String>,
    after: Map<Seq<char>, String>,
    paths: Seq<Seq<char>>,
    colour: Seq<char>,
) -> bool {
    &&& forall|k: Seq<char>| #[trigger]
        after.contains_key(k) <==> before.contains_key(k) || paths.contains(k)
    &&& forall|k: Seq<char>| #[trigger] before.contains_key(k) ==> after[k] == before[k]
    &&& forall|k: Seq<char>| #[trigger] paths.contains(k) ==> after[k]@ == colour
}

/// What a sequence contains behind a first element: that element, and what
/// the rest contains.
pub proof fn lemma_contains_first(first: Seq<char>, rest: Seq<Seq<char>>, x: Seq<char>)
    ensures
        (seq![first] + rest).contains(x) <==> x == first || rest.contains(x),
{
    let all = seq![first] + rest;
    if rest.contains(x) {
        let i = choose|i: int| 0 <= i < rest.len() && rest[i] == x;
        assert(all[i + 1] == x);
    }
    if x == first {
        assert(all[0] == x);
    }
    if all.contains(x) {
        let i = choose|i: int| 0 <= i < all.len() && all[i] == x;
        if i > 0 {
            assert(rest[i - 1] == x);
        }
    }
}

/// Every remembered colour is what its path resolves to.
pub open spec fn memo_sound(p: PaletteView, memo: Map<Seq<char>, String>) -> bool {
    forall|k: Seq<char>| #[trigger]
        memo.contains_key(k) ==> resolve(p, k) == Ok::<Seq<char>, FailureView>(memo[k]@)
}

/// What is remembered does not change what a path resolves to: where the
/// memo is sound and the stack is the chain of references that led to
/// `path`, resolving with the memo gives what resolving without it gives.
pub proof fn lemma_memo_agrees(
    p: PaletteView,
    path: Seq<char>,
    memo: Map<Seq<char>, String>,
    stack: Seq<Seq<char>>,
)
    requires
        in_progress(p, stack),
        leads_to(p, stack, path),
        memo_sound(p, memo),
    ensures
        resolve_with(p, path, memo, stack) == resolve_from(p, path, stack),
    decreases slot_count(p) - stack.len(),
{
    if memo.contains_key(path) {
        lemma_resolved_under_any_stack(p, path, stack);
    } else if !stack.contains(path) {
        match lookup(p, path) {
            Some(ColorSpec::Reference(next)) => {
                lemma_push_in_progress(p, stack, path);
                lemma_push_leads_to(p, stack, path, next);
                lemma_memo_agrees(p, next, memo, stack.push(path));
            },
            _ => {},
        }
    }
}

/// The chain of references grows by the path that is entered.
pub proof fn lemma_push_leads_to(
    p: PaletteView,
    stack: Seq<Seq<char>>,
    path: Seq<char>,
    next: Seq<char>,
)
    requires
        leads_to(p, stack, path),
        lookup(p, path) == Some(ColorSpec::Reference(next)),
    ensures
        leads_to(p, stack.push(path), next),
{
    let more = stack.push(path);
    assert forall|i: int| 0 <= i < more.len() implies #[trigger] link_ok(p, more, next, i) by {
        if i < stack.len() {
            assert(link_ok(p, stack, path, i));
        }
    }
}

/// Every path that a successful resolution enters resolves, by itself, to
/// the colour that the resolution gives.
pub proof fn lemma_entered_resolve(
    p: PaletteView,
    path: Seq<char>,
    memo: Map<Seq<char>, String>,
    stack: Seq<Seq<char>>,
    k: Seq<char>,
)
    requires
        in_progress(p, stack),
        leads_to(p, stack, path),
        memo_sound(p, memo),
        resolve_with(p, path, memo, stack) is Ok,
        entered(p, path, memo, stack).contains(k),
    ensures
        resolve(p, k) == resolve_with(p, path, memo, stack),
    decreases slot_count(p) - stack.len(),
{
    let empty = Seq::<Seq<char>>::empty();
    assert(in_progress(p, empty));
    lemma_memo_agrees(p, path, memo, stack);
    if k == path {
        assert forall|x: Seq<char>| empty.contains(x) implies stack.contains(x) by {}
        lemma_resolve_smaller_stack(p, path, stack, empty);
    } else {
        match lookup(p, path) {
            Some(ColorSpec::Reference(next)) => {
                lemma_contains_first(path, entered(p, next, memo, stack.push(path)), k);
                lemma_push_in_progress(p, stack, path);
                lemma_push_leads_to(p, stack, path, next);
                lemma_entered_resolve(p, next, memo, stack.push(path), k);
            },
            Some(ColorSpec::Literal(_)) => {
                assert(seq![path][0] == path);
            },
            None => {},
        }
    }
}

/// After a call that left the memo as the contract of `resolve_path` says,
/// a sound memo is still sound, and the outcome is what the path resolves
/// to on the chain of references that led to it.
pub proof fn lemma_memo_stays_sound(
    p: PaletteView,
    path: Seq<char>,
    before: Map<Seq<char>, String>,
    after: Map<Seq<char>, String>,
    stack: Seq<Seq<char>>,
)
    requires
        in_progress(p, stack),
        leads_to(p, stack, path),
        memo_sound(p, before),
        resolve_with(p, path, before, stack) is Err ==> after == before,
        resolve_with(p, path, before, stack) matches Ok(v) ==> remembered(
            before,
            after,
            entered(p, path, before, stack),
            v,
        ),
    ensures
        resolve_with(p, path, before, stack) == resolve_from(p, path, stack),
        memo_sound(p, after),
{
    lemma_memo_agrees(p, path, before, stack);
    match resolve_with(p, path, before, stack) {
        Ok(v) => {
            assert forall|k: Seq<char>| #[trigger] after.contains_key(k) implies resolve(p, k)
                == Ok::<Seq<char>, FailureView>(after[k]@) by {
                if before.contains_key(k) {
                    assert(after[k] == before[k]);
                } else {
                    assert(entered(p, path, before, stack).contains(k));
                    lemma_entered_resolve(p, path, before, stack, k);
                }
            }
        },
        Err(_) => {},
    }
}

/// Resolves `path`, in any state of `memo` and `stack`.
///
/// A path that `memo` holds gives the remembered colour. Else a path that
/// `stack` holds closes a cycle. Else the path is looked up, entered, and a
/// literal is normalized or a reference followed.
///
/// A failure leaves `memo` as it was and `stack` with the paths that were
/// entered. A success leaves `stack` as it was and remembers the colour
/// for every path that was entered, and for no other.
///
/// Where `memo` is sound and `stack` is the chain of references that led to
/// `path`, the outcome is what `path` resolves to on that chain, and `memo`
/// stays sound.
pub fn resolve_path(
    palette: &Palette,
    path: &str,
    memo: &mut StringHashMap<String>,
    stack: &mut Vec<String>,
) -> (r: Result<String, Failure>)
    ensures
        outcome_view(r) == resolve_with(palette@, path@, old(memo)@, views(old(stack)@)),
        old(memo)@.contains_key(path@) ==> final(memo)@ == old(memo)@,
        r is Err ==> final(memo)@ == old(memo)@,
        r is Err ==> views(final(stack)@) == views(old(stack)@) + entered(
            palette@,
            path@,
            old(memo)@,
            views(old(stack)@),
        ),
        r is Ok ==> views(final(stack)@) == views(old(stack)@),
        r matches Ok(v) ==> remembered(
            old(memo)@,
            final(memo)@,
            entered(palette@, path@, old(memo)@, views(old(stack)@)),
            v@,
        ),
        in_progress(palette@, views(old(stack)@)) && leads_to(
            palette@,
            views(old(stack)@),
            path@,
        ) && memo_sound(palette@, old(memo)@) ==> outcome_view(r) == resolve_from(
            palette@,
            path@,
            views(old(stack)@),
        ) && memo_sound(palette@, final(memo)@),
    decreases unvisited(palette@, views(old(stack)@)),
{
    let ghost p = palette@;
    let ghost before = views(stack@);
    let ghost known = memo@;
    let ghost sound = in_progress(p, before) && leads_to(p, before, path@) && memo_sound(p, known);
    match memo.get(path) {
        Some(hit) => {
            let colour = hit.clone();
            proof {
                assert(known.contains_key(path@));
                assert(before + Seq::<Seq<char>>::empty() =~= before);
                if sound {
                    lemma_memo_stays_sound(p, path@, known, known, before);
                }
            }
            return Ok(colour);
        },
        None => {},
    }
    if contains_str(stack, path) {
        let mut cycle = clone_strings(stack);
        cycle.push(path.to_owned());
        proof {
            assert(views(cycle@) =~= before.push(path@));
            assert(before + Seq::<Seq<char>>::empty() =~= before);
            if sound {
                lemma_memo_stays_sound(p, path@, known, known, before);
            }
        }
        return Err(Failure::CycleDetected { cycle });
    }
    let cref = match lookup_color_ref(palette, path) {
        Some(cref) => cref,
        None => {
            proof {
                assert(before + Seq::<Seq<char>>::empty() =~= before);
                if sound {
                    lemma_memo_stays_sound(p, path@, known, known, before);
                }
            }
            return Err(Failure::MissingPath { path: path.to_owned() });
        },
    };
    stack.push(path.to_owned());
    proof {
        assert(views(stack@) =~= before.push(path@));
        lemma_enter(p, before, path@);
    }
    let resolved = match cref {
        ColorRef::Hex(raw) => {
            match normalize_hex(raw.as_str()) {
                Ok(hex) => hex,
                Err(e) => {
                    proof {
                        assert(before.push(path@) =~= before + seq![path@]);
                        if sound {
                            lemma_memo_stays_sound(p, path@, known, known, before);
                        }
                    }
                    return Err(e);
                },
            }
        },
        ColorRef::Path(next) => {
            match resolve_path(palette, next.as_str(), memo, stack) {
                Ok(hex) => hex,
                Err(e) => {
                    proof {
                        let deeper = entered(p, next@, known, before.push(path@));
                        assert(before.push(path@) + deeper =~= before + (seq![path@] + deeper));
                        if sound {
                            lemma_memo_stays_sound(p, path@, known, known, before);
                        }
                    }
                    return Err(e);
                },
            }
        },
    };
    let ghost full = stack@;
    let ghost filled = memo@;
    stack.pop();
    let copy = resolved.clone();
    memo.insert(path.to_owned(), copy);
    proof {
        assert(views(full) == before.push(path@));
        assert forall|k: int| 0 <= k < before.len() implies views(stack@)[k] == before[k] by {
            assert(views(full)[k] == before.push(path@)[k]);
        }
        assert(views(stack@) =~= before);
        let paths = entered(p, path@, known, before);
        let deeper: Seq<Seq<char>> = match cref@ {
            ColorSpec::Literal(_) => Seq::empty(),
            ColorSpec::Reference(next) => entered(p, next, known, before.push(path@)),
        };
        assert(paths =~= seq![path@] + deeper);
        assert(remembered(known, filled, deeper, resolved@)) by {
            if cref@ is Literal {
                assert(filled == known);
                assert forall|k: Seq<char>| !deeper.contains(k) by {}
            }
        }
        assert forall|k: Seq<char>| #[trigger]
            memo@.contains_key(k) <==> known.contains_key(k) || paths.contains(k) by {
            lemma_contains_first(path@, deeper, k);
            assert(filled.contains_key(k) <==> known.contains_key(k) || deeper.contains(k));
        }
        assert forall|k: Seq<char>| #[trigger] known.contains_key(k) implies memo@[k]
            == known[k] by {
            assert(filled[k] == known[k]);
        }
        assert forall|k: Seq<char>| #[trigger] paths.contains(k) implies memo@[k]@
            == resolved@ by {
            lemma_contains_first(path@, deeper, k);
            if k != path@ {
                assert(deeper.contains(k));
                assert(filled[k]@ == resolved@);
            }
        }
        if sound {
            lemma_memo_stays_sound(p, path@, known, memo@, before);
        }
    }
    Ok(resolved)
}

/// Resolves one path of `palette`, with nothing resolved before.
pub fn resolve_reference(palette: &Palette, path: &str) -> (r: Result<String, Failure>)
    ensures
        outcome_view(r) == resolve(palette@, path@),
{
    let mut memo: StringHashMap<String> = StringHashMap::new();
    let mut stack: Vec<String> = Vec::new();
    proof {
        assert(views(stack@) =~= Seq::<Seq<char>>::empty());
    }
    resolve_path(palette, path, &mut memo, &mut stack)
}

/// The path that a value refers to, if it is a reference.
pub open spec fn target_of(value: ColorSpec) -> Option<Seq<char>> {
    match value {
        ColorSpec::Literal(_) => None,
        ColorSpec::Reference(path) => Some(path),
    }
}

/// What a value resolves to: a literal to its canonical form, a reference
/// to what its path resolves to.
pub open spec fn resolve_value(p: PaletteView, value: ColorSpec) -> Result<Seq<char>, FailureView> {
    match value {
        ColorSpec::Literal(raw) => normalize(raw),
        ColorSpec::Reference(path) => resolve(p, path),
    }
}

/// What a slot resolves to. A failure carries the slot's path and, for a
/// reference, the path it refers to.
pub open spec fn resolve_slot(p: PaletteView, slot: Slot) -> Result<Seq<char>, ResolveErrorView> {
    match resolve_value(p, slot.value) {
        Ok(hex) => Ok(hex),
        Err(failure) => Err(
            ResolveErrorView { label: slot.label, target: target_of(slot.value), failure },
        ),
    }
}

/// The slot at `i` fails to resolve and none before it does.
pub open spec fn fails_first_at(p: PaletteView, s: Seq<Slot>, i: int) -> bool {
    &&& 0 <= i < s.len()
    &&& resolve_slot(p, s[i]) is Err
    &&& forall|j: int| 0 <= j < i ==> resolve_slot(p, #[trigger] s[j]) is Ok
}

/// Every slot resolves.
pub open spec fn all_resolve(p: PaletteView, s: Seq<Slot>) -> bool {
    forall|i: int| 0 <= i < s.len() ==> resolve_slot(p, #[trigger] s[i]) is Ok
}

/// What a sequence of slots resolves to: the colour of each, or the error of
/// the first slot that fails.
pub open spec fn resolve_slots(p: PaletteView, s: Seq<Slot>) -> Result<
    Seq<Seq<char>>,
    ResolveErrorView,
> {
    if all_resolve(p, s) {
        Ok(Seq::new(s.len(), |i: int| resolve_slot(p, s[i])->Ok_0))
    } else {
        Err(resolve_slot(p, s[choose|i: int| fails_first_at(p, s, i)])->Err_0)
    }
}

/// The names of a table with new values, taken in order.
pub open spec fn with_values(t: Seq<(Seq<char>, ColorSpec)>, values: Seq<Seq<char>>) -> Seq<
    (Seq<char>, Seq<char>),
> {
    Seq::new(t.len(), |i: int| (t[i].0, values[i]))
}

/// The resolved palette that has the shape of `p` and holds `values`, one
/// for each slot in the fixed order.
pub open spec fn assemble(p: PaletteView, values: Seq<Seq<char>>) -> ResolvedView {
    let l = p.light.len() as int;
    let d = l + p.dark.len();
    let a = d + p.accents.len();
    ResolvedView {
        meta: p.meta,
        light: with_values(p.light, values.subrange(0, l)),
        dark: with_values(p.dark, values.subrange(l, d)),
        accents: with_values(p.accents, values.subrange(d, a)),
        ansi: values.subrange(a, a + 32),
    }
}

/// What a palette resolves to: the palette of the same shape in which every
/// slot holds the colour it resolves to, or the error of the first slot, in
/// the fixed order, that does not resolve.
pub open spec fn resolve_all(p: PaletteView) -> Result<ResolvedView, ResolveErrorView> {
    match resolve_slots(p, slots(p)) {
        Ok(values) => Ok(assemble(p, values)),
        Err(e) => Err(e),
    }
}

/// The first slot that fails decides the outcome.
pub proof fn lemma_first_failure(p: PaletteView, s: Seq<Slot>, i: int)
    requires
        fails_first_at(p, s, i),
    ensures
        resolve_slots(p, s) == Err::<Seq<Seq<char>>, ResolveErrorView>(
            resolve_slot(p, s[i])->Err_0,
        ),
{
    let c = choose|c: int| fails_first_at(p, s, c);
    assert(fails_first_at(p, s, c));
    if c < i {
        assert(resolve_slot(p, s[c]) is Ok);
    }
    if i < c {
        assert(resolve_slot(p, s[i]) is Ok);
    }
}

fn resolve_color(palette: &Palette, cref: &ColorRef, memo: &mut StringHashMap<String>) -> (r: Result<
    String,
    Failure,
>)
    requires
        memo_sound(palette@, old(memo)@),
    ensures
        outcome_view(r) == resolve_value(palette@, cref@),
        memo_sound(palette@, final(memo)@),
{
    match cref {
        ColorRef::Hex(raw) => normalize_hex(raw.as_str()),
        ColorRef::Path(path) => {
            let mut stack: Vec<String> = Vec::new();
            proof {
                assert(views(stack@) =~= Seq::<Seq<char>>::empty());
            }
            resolve_path(palette, path.as_str(), memo, &mut stack)
        },
    }
}

fn target_path(cref: &ColorRef) -> (t: Option<String>)
    ensures
        text_of(t) == target_of(cref@),
{
    match cref {
        ColorRef::Hex(_) => None,
        ColorRef::Path(path) => Some(path.clone()),
    }
}

/// The texts of the outcome of resolving a sequence of slots.
pub open spec fn values_view(r: Result<Vec<String>, ResolveError>) -> Result<
    Seq<Seq<char>>,
    ResolveErrorView,
> {
    match r {
        Ok(values) => Ok(views(values@)),
        Err(e) => Err(e@),
    }
}

fn resolve_each(palette: &Palette, all: &Vec<SlotRef>) -> (r: Result<Vec<String>, ResolveError>)
    ensures
        values_view(r) == resolve_slots(palette@, slot_views(all@)),
{
    let ghost p = palette@;
    let ghost s = slot_views(all@);
    let mut memo: StringHashMap<String> = StringHashMap::new();
    let mut values: Vec<String> = Vec::new();
    let mut i: usize = 0;
    while i < all.len()
        invariant
            p == palette@,
            s == slot_views(all@),
            i <= all.len(),
            values@.len() == i,
            memo_sound(p, memo@),
            forall|j: int| 0 <= j < i ==> resolve_slot(p, #[trigger] s[j]) is Ok,
            forall|j: int| 0 <= j < i ==> resolve_slot(p, s[j])->Ok_0 == #[trigger] values@[j]@,
        decreases all.len() - i,
    {
        let slot = &all[i];
        proof {
            assert(s[i as int] == slot@);
        }
        match resolve_color(palette, slot.value, &mut memo) {
            Ok(hex) => {
                values.push(hex);
            },
            Err(failure) => {
                proof {
                    lemma_first_failure(p, s, i as int);
                }
                return Err(
                    ResolveError {
                        label: slot.label.clone(),
                        target: target_path(slot.value),
                        failure,
                    },
                );
            },
        }
        i = i + 1;
    }
    proof {
        assert(views(values@) =~= Seq::new(s.len(), |i: int| resolve_slot(p, s[i])->Ok_0));
    }
    Ok(values)
}

fn build_table(source: &Table<ColorRef>, values: &Vec<String>, from: usize) -> (t: Table<String>)
    requires
        from + source@.len() <= values.len(),
    ensures
        t@ == with_values(source@, views(values@).subrange(from as int, from + source@.len())),
{
    let ghost part = views(values@).subrange(from as int, from + source@.len());
    let n = source.len();
    let mut t: Table<String> = Table::new();
    let mut i: usize = 0;
    while i < n
        invariant
            n == source@.len(),
            from + n <= values.len(),
            i <= n,
            part == views(values@).subrange(from as int, from + n),
            t@ == with_values(source@, part).take(i as int),
        decreases n - i,
    {
        let key = source.key(i).to_owned();
        let value = values[from + i].clone();
        proof {
            assert(value@ == part[i as int]);
            assert(t@.push((key@, value@)) =~= with_values(source@, part).take(i + 1));
        }
        t.push_entry(key, value);
        i = i + 1;
    }
    proof {
        assert(with_values(source@, part).take(n as int) =~= with_values(source@, part));
    }
    t
}

fn build_row(values: &Vec<String>, from: usize) -> (row: ResolvedAnsiRow)
    requires
        from + 8 <= values.len(),
    ensures
        row@ == views(values@).subrange(from as int, from + 8),
{
    let row = ResolvedAnsiRow {
        black: values[from].clone(),
        red: values[from + 1].clone(),
        green: values[from + 2].clone(),
        yellow: values[from + 3].clone(),
        blue: values[from + 4].clone(),
        magenta: values[from + 5].clone(),
        cyan: values[from + 6].clone(),
        white: values[from + 7].clone(),
    };
    proof {
        assert(row@ =~= views(values@).subrange(from as int, from + 8));
    }
    row
}

/// The texts of the outcome of resolving a palette.
pub open spec fn resolution_view(r: Result<ResolvedPalette, ResolveError>) -> Result<
    ResolvedView,
    ResolveErrorView,
> {
    match r {
        Ok(resolved) => Ok(resolved@),
        Err(e) => Err(e@),
    }
}

/// Four rows of eight, one after the other, are thirty-two values.
proof fn lemma_four_rows(v: Seq<Seq<char>>, base: int)
    requires
        0 <= base,
        base + 32 <= v.len(),
    ensures
        (v.subrange(base, base + 8) + v.subrange(base + 8, base + 16)) + (v.subrange(
            base + 16,
            base + 24,
        ) + v.subrange(base + 24, base + 32)) == v.subrange(base, base + 32),
{
    assert((v.subrange(base, base + 8) + v.subrange(base + 8, base + 16)) + (v.subrange(
        base + 16,
        base + 24,
    ) + v.subrange(base + 24, base + 32)) =~= v.subrange(base, base + 32));
}

/// A palette has as many slots as its three tables hold, and thirty-two.
pub proof fn lemma_slots_len(p: PaletteView)
    ensures
        slots(p).len() == p.light.len() + p.dark.len() + p.accents.len() + 32,
{
}

fn assemble_palette(palette: &Palette, values: &Vec<String>) -> (resolved: ResolvedPalette)
    requires
        values.len() == slots(palette@).len(),
    ensures
        resolved@ == assemble(palette@, views(values@)),
{
    let l = palette.colors.light.len();
    let d = palette.colors.dark.len();
    let a = palette.accents.len();
    proof {
        lemma_slots_len(palette@);
    }
    let light = build_table(&palette.colors.light, values, 0);
    let dark = build_table(&palette.colors.dark, values, l);
    let accents = build_table(&palette.accents, values, l + d);
    let base = l + d + a;
    let light_normal = build_row(values, base);
    let light_bright = build_row(values, base + 8);
    let dark_normal = build_row(values, base + 16);
    let dark_bright = build_row(values, base + 24);
    let ansi = ResolvedAnsi {
        light: ResolvedAnsiScheme { normal: light_normal, bright: light_bright },
        dark: ResolvedAnsiScheme { normal: dark_normal, bright: dark_bright },
    };
    proof {
        lemma_four_rows(views(values@), base as int);
    }
    ResolvedPalette {
        meta: palette.meta.clone(),
        colors: ResolvedColors { light, dark },
        accents,
        ansi,
    }
}

/// Resolves every slot of `palette`, in the fixed order of the slots. The
/// result has the names and the descriptive data of `palette` and holds, in
/// each slot, the canonical colour that the slot resolves to. The first
/// slot that does not resolve gives the error.
pub fn resolve_palette(palette: &Palette) -> (r: Result<ResolvedPalette, ResolveError>)
    ensures
        resolution_view(r) == resolve_all(palette@),
        r matches Ok(resolved) ==> (palette.wf() ==> resolved.wf()),
{
    let all = collect_slots(palette);
    match resolve_each(palette, &all) {
        Ok(values) => {
            proof {
                let s = slots(palette@);
                assert(views(values@) == resolve_slots(palette@, s)->Ok_0);
                assert(views(values@).len() == s.len());
            }
            let resolved = assemble_palette(palette, &values);
            proof {
                assert(keys(resolved.colors.light@) =~= keys(palette.colors.light@));
                assert(keys(resolved.colors.dark@) =~= keys(palette.colors.dark@));
                assert(keys(resolved.accents@) =~= keys(palette.accents@));
            }
            Ok(resolved)
        },
        Err(e) => Err(e),
    }
}

} // verus!
