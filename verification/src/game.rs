//! The world state: tile grid, message log, inventory and dungeon level,
//! together with the inventory's invariants.

use vstd::prelude::*;
use crate::map::Grid;
use crate::object::{Message, Object, Slot};

verus! {

/// The inventory holds at most this many items: one per alphabetic
/// selector.
pub const INVENTORY_CAP: usize = 26;

/// The player's fixed index in the entity store. No other entity's index
/// is stable across a store mutation that removes or relocates entities.
pub const PLAYER: usize = 0;

/// The world state outside the entity store. Created fresh on a new game,
/// mutated on descent, serialized as one unit with the entity store.
#[derive(Clone, Debug, PartialEq)]
pub struct Game {
    pub map: Grid,
    pub log: Vec<Message>,
    pub inventory: Vec<Object>,
    pub dungeon_level: u32,
}

/// Whether `o` is an inventory item worn in slot `s`.
pub open spec fn equipped_in_slot(o: Object, s: Slot) -> bool {
    match o.equipment {
        Some(e) => e.equipped && e.slot == s,
        None => false,
    }
}

/// Whether `o` is worn, in any slot.
pub open spec fn is_equipped(o: Object) -> bool {
    match o.equipment {
        Some(e) => e.equipped,
        None => false,
    }
}

/// At most one inventory item per equipment slot is worn at any time.
pub open spec fn inv_slot_ok(inv: Seq<Object>) -> bool {
    forall|i: int, j: int, s: Slot|
        0 <= i < inv.len() && 0 <= j < inv.len() && i != j && #[trigger] equipped_in_slot(inv[i], s)
            && #[trigger] equipped_in_slot(inv[j], s) ==> false
}

/// The inventory respects its capacity.
pub open spec fn inv_fits(inv: Seq<Object>) -> bool {
    inv.len() <= INVENTORY_CAP
}

/// Every inventory entry is an item: only items can be picked up, and the
/// equip/dequip quirks for non-items never arise inside the inventory.
pub open spec fn inv_items_ok(inv: Seq<Object>) -> bool {
    forall|i: int| 0 <= i < inv.len() ==> (#[trigger] inv[i]).item is Some
}

} // verus!
