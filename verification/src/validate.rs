//! The validator: a check of each slot by itself, before any reference is
//! followed.

use vstd::prelude::*;
use vstd::string::*;

use crate::color::{is_hex_color, is_hex_literal};
use crate::error::{ValidationError, ValidationErrorView};
use crate::palette::{ColorRef, ColorSpec, Palette, PaletteView};
use crate::slots::{collect_slots, slot_views, slots, Slot};
use crate::text::contains_char;

verus! {

/// What is wrong with a slot by itself: a literal that is no hex colour, or
/// a reference without a `.`. `None` where nothing is.
pub open spec fn check_slot(slot: Slot) -> Option<ValidationErrorView> {
    match slot.value {
        ColorSpec::Literal(value) => if is_hex_literal(value) {
            None
        } else {
            Some(ValidationErrorView::InvalidHexColor { label: slot.label, value })
        },
        ColorSpec::Reference(value) => if value.contains('.') {
            None
        } else {
            Some(ValidationErrorView::MalformedPath { label: slot.label, value })
        },
    }
}

/// The slot at `i` is refused and none before it is.
pub open spec fn refused_first_at(s: Seq<Slot>, i: int) -> bool {
    &&& 0 <= i < s.len()
    &&& check_slot(s[i]) is Some
    &&& forall|j: int| 0 <= j < i ==> check_slot(#[trigger] s[j]) is None
}

/// Every slot passes.
pub open spec fn all_pass(s: Seq<Slot>) -> bool {
    forall|i: int| 0 <= i < s.len() ==> check_slot(#[trigger] s[i]) is None
}

/// The verdict on a sequence of slots: the error of the first slot that is
/// refused, if any is.
pub open spec fn validate_slots(s: Seq<Slot>) -> Result<(), ValidationErrorView> {
    if all_pass(s) {
        Ok(())
    } else {
        Err(check_slot(s[choose|i: int| refused_first_at(s, i)])->0)
    }
}

/// The verdict on a palette: its slots in their fixed order.
pub open spec fn validate(p: PaletteView) -> Result<(), ValidationErrorView> {
    validate_slots(slots(p))
}

/// The first refused slot decides the verdict.
pub proof fn lemma_first_refused(s: Seq<Slot>, i: int)
    requires
        refused_first_at(s, i),
    ensures
        validate_slots(s) == Err::<(), ValidationErrorView>(check_slot(s[i])->0),
{
    let c = choose|c: int| refused_first_at(s, c);
    assert(refused_first_at(s, c));
    if c < i {
        assert(check_slot(s[c]) is None);
    }
    if i < c {
        assert(check_slot(s[i]) is None);
    }
}

/// The texts of a verdict.
pub open spec fn verdict_view(r: Result<(), ValidationError>) -> Result<(), ValidationErrorView> {
    match r {
        Ok(()) => Ok(()),
        Err(e) => Err(e@),
    }
}

/// Checks every slot of `palette`: a literal has to be `#` and six
/// hexadecimal digits, a reference has to hold a `.`. The first slot that
/// fails, in the fixed order of the slots, gives the error.
pub fn validate_palette(palette: &Palette) -> (r: Result<(), ValidationError>)
    ensures
        verdict_view(r) == validate(palette@),
{
    let all = collect_slots(palette);
    let ghost s = slot_views(all@);
    let mut i: usize = 0;
    while i < all.len()
        invariant
            s == slot_views(all@),
            s == slots(palette@),
            i <= all.len(),
            forall|j: int| 0 <= j < i ==> check_slot(#[trigger] s[j]) is None,
        decreases all.len() - i,
    {
        let slot = &all[i];
        proof {
            assert(s[i as int] == slot@);
        }
        match slot.value {
            ColorRef::Hex(value) => {
                if !is_hex_color(value.as_str()) {
                    proof {
                        lemma_first_refused(s, i as int);
                    }
                    return Err(
                        ValidationError::InvalidHexColor {
                            label: slot.label.clone(),
                            value: value.clone(),
                        },
                    );
                }
            },
            ColorRef::Path(value) => {
                if !contains_char(value.as_str(), '.') {
                    proof {
                        lemma_first_refused(s, i as int);
                    }
                    return Err(
                        ValidationError::MalformedPath {
                            label: slot.label.clone(),
                            value: value.clone(),
                        },
                    );
                }
            },
        }
        i = i + 1;
    }
    Ok(())
}

} // verus!
