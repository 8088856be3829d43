//! Stat composition: an entity's effective power, defense and maximum hit
//! points are its base Fighter values plus, for the player only, the
//! bonuses of every currently worn inventory item.

use vstd::prelude::*;
use crate::game::Game;
use crate::object::{Equipment, Object};

verus! {

/// The power bonus `o` contributes while worn.
pub open spec fn power_bonus_of(o: Object) -> int {
    match o.equipment {
        Some(e) => if e.equipped {
            e.power_bonus as int
        } else {
            0
        },
        None => 0,
    }
}

/// The defense bonus `o` contributes while worn.
pub open spec fn defense_bonus_of(o: Object) -> int {
    match o.equipment {
        Some(e) => if e.equipped {
            e.defense_bonus as int
        } else {
            0
        },
        None => 0,
    }
}

/// The maximum-hp bonus `o` contributes while worn.
pub open spec fn max_hp_bonus_of(o: Object) -> int {
    match o.equipment {
        Some(e) => if e.equipped {
            e.max_hp_bonus as int
        } else {
            0
        },
        None => 0,
    }
}

/// Sum of worn power bonuses over an inventory.
pub open spec fn power_bonus_sum(inv: Seq<Object>) -> int
    decreases inv.len(),
{
    if inv.len() == 0 {
        0
    } else {
        power_bonus_sum(inv.drop_last()) + power_bonus_of(inv.last())
    }
}

/// Sum of worn defense bonuses over an inventory.
pub open spec fn defense_bonus_sum(inv: Seq<Object>) -> int
    decreases inv.len(),
{
    if inv.len() == 0 {
        0
    } else {
        defense_bonus_sum(inv.drop_last()) + defense_bonus_of(inv.last())
    }
}

/// Sum of worn maximum-hp bonuses over an inventory.
pub open spec fn max_hp_bonus_sum(inv: Seq<Object>) -> int
    decreases inv.len(),
{
    if inv.len() == 0 {
        0
    } else {
        max_hp_bonus_sum(inv.drop_last()) + max_hp_bonus_of(inv.last())
    }
}

/// Base power: the Fighter's value, or 0 without a Fighter.
pub open spec fn spec_base_power(o: Object) -> int {
    match o.fighter {
        Some(f) => f.base_power as int,
        None => 0,
    }
}

/// Base defense: the Fighter's value, or 0 without a Fighter.
pub open spec fn spec_base_defense(o: Object) -> int {
    match o.fighter {
        Some(f) => f.base_defense as int,
        None => 0,
    }
}

/// Base maximum hp: the Fighter's value, or 0 without a Fighter.
pub open spec fn spec_base_max_hp(o: Object) -> int {
    match o.fighter {
        Some(f) => f.base_max_hp as int,
        None => 0,
    }
}

/// Effective power: base plus worn bonuses, player only.
pub open spec fn spec_power(o: Object, inv: Seq<Object>) -> int {
    spec_base_power(o) + if o.is_player() {
        power_bonus_sum(inv)
    } else {
        0
    }
}

/// Effective defense: base plus worn bonuses, player only.
pub open spec fn spec_defense(o: Object, inv: Seq<Object>) -> int {
    spec_base_defense(o) + if o.is_player() {
        defense_bonus_sum(inv)
    } else {
        0
    }
}

/// Effective maximum hp: base plus worn bonuses, player only.
pub open spec fn spec_max_hp(o: Object, inv: Seq<Object>) -> int {
    spec_base_max_hp(o) + if o.is_player() {
        max_hp_bonus_sum(inv)
    } else {
        0
    }
}

/// Whether the three effective stats of `o` over `inv` fit in `i32`, and
/// the inventory respects its capacity; the machine-width conditions every
/// stat computation needs.
pub open spec fn stats_fit(o: Object, inv: Seq<Object>) -> bool {
    &&& inv.len() <= crate::game::INVENTORY_CAP
    &&& i32::MIN <= spec_power(o, inv) <= i32::MAX
    &&& i32::MIN <= spec_defense(o, inv) <= i32::MAX
    &&& i32::MIN <= spec_max_hp(o, inv) <= i32::MAX
}

/// The worn items' Equipment records, in inventory order; empty for any
/// entity other than the player.
pub open spec fn equipped_list(inv: Seq<Object>) -> Seq<Equipment>
    decreases inv.len(),
{
    if inv.len() == 0 {
        Seq::empty()
    } else {
        equipped_list(inv.drop_last()) + (match inv.last().equipment {
            Some(e) => if e.equipped {
                seq![e]
            } else {
                Seq::empty()
            },
            None => Seq::empty(),
        })
    }
}

impl Object {
    /// Effective power: base Fighter power plus, for the player, the sum
    /// of worn power bonuses.
    pub fn power(&self, game: &Game) -> (r: i32)
        requires
            game.inventory@.len() <= crate::game::INVENTORY_CAP,
            i32::MIN <= spec_power(*self, game.inventory@) <= i32::MAX,
        ensures
            r as int == spec_power(*self, game.inventory@),
    {
        let base: i64 = match self.fighter {
            Some(f) => f.base_power as i64,
            None => 0,
        };
        let total: i64 = if self.check_is_player() {
            base + sum_power_bonuses(&game.inventory)
        } else {
            base
        };
        total as i32
    }

    /// Effective defense: base Fighter defense plus, for the player, the
    /// sum of worn defense bonuses.
    pub fn defense(&self, game: &Game) -> (r: i32)
        requires
            game.inventory@.len() <= crate::game::INVENTORY_CAP,
            i32::MIN <= spec_defense(*self, game.inventory@) <= i32::MAX,
        ensures
            r as int == spec_defense(*self, game.inventory@),
    {
        let base: i64 = match self.fighter {
            Some(f) => f.base_defense as i64,
            None => 0,
        };
        let total: i64 = if self.check_is_player() {
            base + sum_defense_bonuses(&game.inventory)
        } else {
            base
        };
        total as i32
    }

    /// Effective maximum hp: base Fighter maximum plus, for the player,
    /// the sum of worn maximum-hp bonuses.
    pub fn max_hp(&self, game: &Game) -> (r: i32)
        requires
            game.inventory@.len() <= crate::game::INVENTORY_CAP,
            i32::MIN <= spec_max_hp(*self, game.inventory@) <= i32::MAX,
        ensures
            r as int == spec_max_hp(*self, game.inventory@),
    {
        let base: i64 = match self.fighter {
            Some(f) => f.base_max_hp as i64,
            None => 0,
        };
        let total: i64 = if self.check_is_player() {
            base + sum_max_hp_bonuses(&game.inventory)
        } else {
            base
        };
        total as i32
    }

    /// The Equipment records of every worn inventory item, for the player;
    /// no other entity gathers equipment.
    pub fn get_all_equipped(&self, game: &Game) -> (r: Vec<Equipment>)
        ensures
            r@ == (if self.is_player() {
                equipped_list(game.inventory@)
            } else {
                Seq::<Equipment>::empty()
            }),
    {
        let mut r: Vec<Equipment> = Vec::new();
        if !self.check_is_player() {
            return r;
        }
        let inv = &game.inventory;
        let mut k: usize = 0;
        while k < inv.len()
            invariant
                k <= inv@.len(),
                r@ == equipped_list(inv@.take(k as int)),
            decreases inv@.len() - k,
        {
            proof {
                assert(inv@.take(k + 1int).drop_last() =~= inv@.take(k as int));
                assert(inv@.take(k + 1int).last() == inv@[k as int]);
            }
            match inv[k].equipment {
                Some(e) => {
                    if e.equipped {
                        r.push(e);
                    }
                },
                None => {},
            }
            k = k + 1;
        }
        proof {
            assert(inv@.take(inv@.len() as int) =~= inv@);
        }
        r
    }
}

/// Sum of worn power bonuses, computed in 64 bits so no partial sum can
/// overflow for an inventory within capacity.
fn sum_power_bonuses(inv: &Vec<Object>) -> (r: i64)
    requires
        inv@.len() <= crate::game::INVENTORY_CAP,
    ensures
        r as int == power_bonus_sum(inv@),
{
    let mut acc: i64 = 0;
    let mut k: usize = 0;
    while k < inv.len()
        invariant
            k <= inv@.len() <= crate::game::INVENTORY_CAP,
            acc as int == power_bonus_sum(inv@.take(k as int)),
            -(k as int) * 0x8000_0000 <= acc as int <= (k as int) * 0x8000_0000,
        decreases inv@.len() - k,
    {
        proof {
            assert(inv@.take(k + 1int).drop_last() =~= inv@.take(k as int));
            assert(inv@.take(k + 1int).last() == inv@[k as int]);
        }
        let b: i64 = match inv[k].equipment {
            Some(e) => if e.equipped {
                e.power_bonus as i64
            } else {
                0
            },
            None => 0,
        };
        acc = acc + b;
        k = k + 1;
    }
    proof {
        assert(inv@.take(inv@.len() as int) =~= inv@);
    }
    acc
}

/// Sum of worn defense bonuses, in 64 bits.
fn sum_defense_bonuses(inv: &Vec<Object>) -> (r: i64)
    requires
        inv@.len() <= crate::game::INVENTORY_CAP,
    ensures
        r as int == defense_bonus_sum(inv@),
{
    let mut acc: i64 = 0;
    let mut k: usize = 0;
    while k < inv.len()
        invariant
            k <= inv@.len() <= crate::game::INVENTORY_CAP,
            acc as int == defense_bonus_sum(inv@.take(k as int)),
            -(k as int) * 0x8000_0000 <= acc as int <= (k as int) * 0x8000_0000,
        decreases inv@.len() - k,
    {
        proof {
            assert(inv@.take(k + 1int).drop_last() =~= inv@.take(k as int));
            assert(inv@.take(k + 1int).last() == inv@[k as int]);
        }
        let b: i64 = match inv[k].equipment {
            Some(e) => if e.equipped {
                e.defense_bonus as i64
            } else {
                0
            },
            None => 0,
        };
        acc = acc + b;
        k = k + 1;
    }
    proof {
        assert(inv@.take(inv@.len() as int) =~= inv@);
    }
    acc
}

/// Sum of worn maximum-hp bonuses, in 64 bits.
fn sum_max_hp_bonuses(inv: &Vec<Object>) -> (r: i64)
    requires
        inv@.len() <= crate::game::INVENTORY_CAP,
    ensures
        r as int == max_hp_bonus_sum(inv@),
{
    let mut acc: i64 = 0;
    let mut k: usize = 0;
    while k < inv.len()
        invariant
            k <= inv@.len() <= crate::game::INVENTORY_CAP,
            acc as int == max_hp_bonus_sum(inv@.take(k as int)),
            -(k as int) * 0x8000_0000 <= acc as int <= (k as int) * 0x8000_0000,
        decreases inv@.len() - k,
    {
        proof {
            assert(inv@.take(k + 1int).drop_last() =~= inv@.take(k as int));
            assert(inv@.take(k + 1int).last() == inv@[k as int]);
        }
        let b: i64 = match inv[k].equipment {
            Some(e) => if e.equipped {
                e.max_hp_bonus as i64
            } else {
                0
            },
            None => 0,
        };
        acc = acc + b;
        k = k + 1;
    }
    proof {
        assert(inv@.take(inv@.len() as int) =~= inv@);
    }
    acc
}

/// Effective-stat law: the player's effective power, defense and maximum
/// hp equal base plus the sum of the worn inventory bonuses; for any other
/// entity they equal the base Fighter values exactly, with no equipment
/// contribution.
pub proof fn lemma_effective_stats(o: Object, inv: Seq<Object>)
    ensures
        o.is_player() ==> {
            &&& spec_power(o, inv) == spec_base_power(o) + power_bonus_sum(inv)
            &&& spec_defense(o, inv) == spec_base_defense(o) + defense_bonus_sum(inv)
            &&& spec_max_hp(o, inv) == spec_base_max_hp(o) + max_hp_bonus_sum(inv)
        },
        !o.is_player() ==> {
            &&& spec_power(o, inv) == spec_base_power(o)
            &&& spec_defense(o, inv) == spec_base_defense(o)
            &&& spec_max_hp(o, inv) == spec_base_max_hp(o)
        },
{
}

} // verus!
