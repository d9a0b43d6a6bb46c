//! Equipment: items that are worn in a slot and lend their bonuses to the
//! player while they are.

use crate::game_object::{first_such, lemma_first_such_is, views, GameObject, ObjectView};
use vstd::prelude::*;

verus! {

/// Where a piece of equipment is worn.
#[derive(Clone, Copy, Debug, PartialEq, Eq, Structural)]
pub enum Slot {
    LeftHand,
    RightHand,
    Head,
}

impl Slot {
    /// The slot's name as the messages spell it.
    pub open spec fn label(self) -> Seq<char> {
        match self {
            Slot::LeftHand => "left hand"@,
            Slot::RightHand => "right hand"@,
            Slot::Head => "head"@,
        }
    }

    /// The slot's name as the messages spell it.
    pub fn name(&self) -> (s: &'static str)
        ensures
            s@ == self.label(),
    {
        match self {
            Slot::LeftHand => "left hand",
            Slot::RightHand => "right hand",
            Slot::Head => "head",
        }
    }
}

/// What makes an object wearable.
#[derive(Clone, Copy, Debug, PartialEq, Eq, Structural)]
pub struct Equipment {
    pub slot: Slot,
    pub equipped: bool,
    pub power_bonus: i32,
    pub defense_bonus: i32,
    pub max_hp_bonus: i32,
}

/// Whether `object` is a piece of equipment worn in `slot`.
pub open spec fn worn_in(object: ObjectView, slot: Slot) -> bool {
    object.equipment matches Some(e) && e.equipped && e.slot == slot
}

/// At most one worn piece per slot.
pub open spec fn slots_exclusive(inventory: Seq<ObjectView>) -> bool {
    forall|i: int, j: int, slot: Slot|
        0 <= i < j < inventory.len() && worn_in(inventory[i], slot) ==> !worn_in(
            inventory[j],
            slot,
        )
}

/// Every worn piece is an item.
pub open spec fn worn_are_items(inventory: Seq<ObjectView>) -> bool {
    forall|k: int|
        0 <= k < inventory.len() && ((#[trigger] inventory[k]).equipment matches Some(e)
            && e.equipped) ==> inventory[k].item is Some
}

/// An inventory in order: every worn piece is an item, and no slot holds two.
pub open spec fn orderly(inventory: Seq<ObjectView>) -> bool {
    worn_are_items(inventory) && slots_exclusive(inventory)
}

/// For each inventory entry, whether it is worn in `slot`.
pub open spec fn worn_flags(inventory: Seq<ObjectView>, slot: Slot) -> Seq<bool> {
    Seq::new(inventory.len(), |i: int| worn_in(inventory[i], slot))
}

/// The inventory entry worn in `slot`: the first, should there be several.
pub open spec fn worn_at(inventory: Seq<ObjectView>, slot: Slot) -> Option<int> {
    first_such(worn_flags(inventory, slot))
}

/// The first inventory entry worn in `slot`, if any.
pub fn get_equipped_in_slot(slot: Slot, inventory: &[GameObject]) -> (found: Option<usize>)
    ensures
        match found {
            Some(i) => worn_at(views(inventory@), slot) == Some(i as int),
            None => worn_at(views(inventory@), slot) is None,
        },
        found matches Some(i) ==> i < inventory@.len() && worn_in(inventory@[i as int]@, slot),
        found is None ==> forall|j: int| 0 <= j < inventory@.len() ==> !worn_in(inventory@[j]@, slot),
{
    let ghost hits = worn_flags(views(inventory@), slot);
    let mut i: usize = 0;
    while i < inventory.len()
        invariant
            i <= inventory@.len(),
            hits == worn_flags(views(inventory@), slot),
            forall|j: int| 0 <= j < i ==> !hits[j],
        decreases inventory@.len() - i,
    {
        match inventory[i].equipment {
            Some(e) => {
                if e.equipped && e.slot == slot {
                    proof {
                        lemma_first_such_is(hits, Some(i as int));
                    }
                    return Some(i);
                }
            },
            None => {},
        }
        i += 1;
    }
    proof {
        lemma_first_such_is(hits, None);
        assert forall|j: int| 0 <= j < inventory@.len() implies !worn_in(inventory@[j]@, slot) by {
            assert(!hits[j]);
        }
    }
    None
}

} // verus!
