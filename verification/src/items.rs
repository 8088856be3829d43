//! Item use and the equipment rules: equipping and unequipping, the
//! one-item-per-slot discipline, and the outcome classification that
//! decides whether an action consumes a turn.

use vstd::prelude::*;
use crate::game::{equipped_in_slot, inv_items_ok, inv_slot_ok, is_equipped, Game, INVENTORY_CAP,
    PLAYER};
use crate::object::{
    positions_ok, spec_distance_sq, Color, DeathCallback, Equipment, Fighter, Item, Message,
    Object, Slot,
};
use crate::stats::spec_max_hp;

verus! {

/// Hit points restored by a healing potion.
pub const HEAL_AMOUNT: i32 = 40;

/// Attack increase announced by an attack scroll.
pub const ATTACK_BUFF: i32 = 2;

/// Base power at or above which an attack scroll refuses to apply.
pub const PLAYER_MAX_ATTACK: i32 = 9;

/// Damage a lightning bolt deals, bypassing defense.
pub const LIGHTNING_DAMAGE: i32 = 40;

/// How far a lightning bolt reaches.
pub const LIGHTNING_RANGE: i32 = 5;

/// What applying a use-effect did, which in turn dictates the turn
/// economy: whether the item is spent and whether monsters get to react.
#[derive(Clone, Copy, Debug, PartialEq, Eq, Structural)]
pub enum UseResult {
    UsedUp,
    Cancelled,
    UseAndKept,
    UseAndTakeTurn,
}

/// The entity after an equip attempt: the worn flag turns on only for an
/// item that has an Equipment component and is not already worn.
pub open spec fn equip_result(o: Object) -> Object {
    if o.item is None {
        o
    } else {
        match o.equipment {
            Some(e) => if !e.equipped {
                Object { equipment: Some(Equipment { equipped: true, ..e }), ..o }
            } else {
                o
            },
            None => o,
        }
    }
}

/// The log after an equip attempt: an error for a non-item or an entity
/// without Equipment, a confirmation when the flag turns on, silence when
/// it was already worn.
pub open spec fn equip_msgs(log: Seq<Message>, o: Object) -> Seq<Message> {
    if o.item is None {
        log.push(Message::CannotEquipNotItem { name: o.name })
    } else {
        match o.equipment {
            Some(e) => if !e.equipped {
                log.push(Message::Equipped { name: o.name, slot: e.slot })
            } else {
                log
            },
            None => log.push(Message::CannotEquipNotEquipment { name: o.name }),
        }
    }
}

/// The entity after a dequip attempt: the worn flag turns off only for an
/// item that has an Equipment component and is currently worn.
pub open spec fn dequip_result(o: Object) -> Object {
    if o.item is None {
        o
    } else {
        match o.equipment {
            Some(e) => if e.equipped {
                Object { equipment: Some(Equipment { equipped: false, ..e }), ..o }
            } else {
                o
            },
            None => o,
        }
    }
}

/// The log after a dequip attempt, mirroring `equip_msgs`.
pub open spec fn dequip_msgs(log: Seq<Message>, o: Object) -> Seq<Message> {
    if o.item is None {
        log.push(Message::CannotDequipNotItem { name: o.name })
    } else {
        match o.equipment {
            Some(e) => if e.equipped {
                log.push(Message::Dequipped { name: o.name, slot: e.slot })
            } else {
                log
            },
            None => log.push(Message::CannotDequipNotEquipment { name: o.name }),
        }
    }
}

impl Object {
    /// Marks this entity as worn, if it is an item with an Equipment
    /// component that is not already worn; logs the outcome.
    pub fn equip(&mut self, log: &mut Vec<Message>)
        ensures
            *final(self) == equip_result(*old(self)),
            final(log)@ == equip_msgs(old(log)@, *old(self)),
    {
        if self.item.is_none() {
            log.push(Message::CannotEquipNotItem { name: self.name.clone() });
            return ;
        }
        match self.equipment {
            Some(e) => {
                if !e.equipped {
                    self.equipment = Some(Equipment { equipped: true, ..e });
                    log.push(Message::Equipped { name: self.name.clone(), slot: e.slot });
                }
            },
            None => {
                log.push(Message::CannotEquipNotEquipment { name: self.name.clone() });
            },
        }
    }

    /// Clears this entity's worn flag, if it is an item with an Equipment
    /// component that is currently worn; logs the outcome.
    pub fn dequip(&mut self, log: &mut Vec<Message>)
        ensures
            *final(self) == dequip_result(*old(self)),
            final(log)@ == dequip_msgs(old(log)@, *old(self)),
    {
        if self.item.is_none() {
            log.push(Message::CannotDequipNotItem { name: self.name.clone() });
            return ;
        }
        match self.equipment {
            Some(e) => {
                if e.equipped {
                    self.equipment = Some(Equipment { equipped: false, ..e });
                    log.push(Message::Dequipped { name: self.name.clone(), slot: e.slot });
                }
            },
            None => {
                log.push(Message::CannotDequipNotEquipment { name: self.name.clone() });
            },
        }
    }
}

/// The first inventory index at or after `k` holding an item worn in slot
/// `s`, if any.
pub open spec fn first_equipped_from(inv: Seq<Object>, s: Slot, k: int) -> Option<int>
    decreases inv.len() - k,
{
    if k < 0 || k >= inv.len() {
        None
    } else if equipped_in_slot(inv[k], s) {
        Some(k)
    } else {
        first_equipped_from(inv, s, k + 1)
    }
}

/// The inventory index of the item currently worn in slot `s`, searching
/// from the front, if any item is worn there.
pub fn get_equipped_in_slot(slot: Slot, inventory: &Vec<Object>) -> (r: Option<usize>)
    ensures
        match r {
            Some(i) => i < inventory@.len() && first_equipped_from(inventory@, slot, 0) == Some(
                i as int,
            ),
            None => first_equipped_from(inventory@, slot, 0) is None,
        },
        r matches Some(i) ==> equipped_in_slot(inventory@[i as int], slot),
        r is None ==> forall|j: int|
            0 <= j < inventory@.len() ==> !equipped_in_slot(inventory@[j], slot),
{
    let mut k: usize = 0;
    while k < inventory.len()
        invariant
            k <= inventory@.len(),
            first_equipped_from(inventory@, slot, 0) == first_equipped_from(
                inventory@,
                slot,
                k as int,
            ),
            forall|j: int| 0 <= j < k ==> !equipped_in_slot(inventory@[j], slot),
        decreases inventory@.len() - k,
    {
        let worn = match &inventory[k].equipment {
            Some(e) => e.equipped && e.slot == slot,
            None => false,
        };
        if worn {
            return Some(k);
        }
        k = k + 1;
    }
    None
}

/// Updating one entry preserves the one-per-slot discipline, provided the
/// new entry is worn only in a slot its predecessor was worn in, or in a
/// slot nothing was worn in.
pub proof fn lemma_slot_ok_update(inv: Seq<Object>, id: int, o1: Object)
    requires
        inv_slot_ok(inv),
        0 <= id < inv.len(),
        forall|s: Slot|
            #[trigger] equipped_in_slot(o1, s) ==> equipped_in_slot(inv[id], s) || (forall|k: int|
                0 <= k < inv.len() ==> !equipped_in_slot(inv[k], s)),
    ensures
        inv_slot_ok(inv.update(id, o1)),
{
    let inv1 = inv.update(id, o1);
    assert forall|i: int, j: int, s: Slot|
        0 <= i < inv1.len() && 0 <= j < inv1.len() && i != j && #[trigger] equipped_in_slot(
            inv1[i],
            s,
        ) && #[trigger] equipped_in_slot(inv1[j], s) implies false by {
        if i == id {
            assert(equipped_in_slot(o1, s));
            assert(equipped_in_slot(inv[j], s));
            if equipped_in_slot(inv[id], s) {
                assert(false);
            } else {
                assert(!equipped_in_slot(inv[j], s));
            }
        } else if j == id {
            assert(equipped_in_slot(o1, s));
            assert(equipped_in_slot(inv[i], s));
            if equipped_in_slot(inv[id], s) {
                assert(false);
            } else {
                assert(!equipped_in_slot(inv[i], s));
            }
        } else {
            assert(equipped_in_slot(inv[i], s));
            assert(equipped_in_slot(inv[j], s));
        }
    }
}

/// How toggling the worn state of inventory entry `id` relates the world
/// before and after: an entity without Equipment cancels with an error
/// message; a worn item is taken off; an item to be put on first displaces
/// whatever item currently occupies its slot; the item is kept either way.
pub open spec fn toggle_rel(id: int, g0: Game, g1: Game, r: UseResult) -> bool {
    let inv0 = g0.inventory@;
    let log0 = g0.log@;
    &&& g1.map == g0.map
    &&& g1.dungeon_level == g0.dungeon_level
    &&& g1.inventory@.len() == inv0.len()
    &&& match inv0[id].equipment {
        None => {
            &&& r == UseResult::Cancelled
            &&& g1 == (Game { log: g1.log, ..g0 })
            &&& g1.log@ == log0.push(Message::CannotEquipNotEquipment { name: inv0[id].name })
        },
        Some(e) => {
            &&& r == UseResult::UseAndKept
            &&& if e.equipped {
                &&& g1.inventory@ == inv0.update(id, dequip_result(inv0[id]))
                &&& g1.log@ == dequip_msgs(log0, inv0[id])
            } else {
                match first_equipped_from(inv0, e.slot, 0) {
                    Some(c) => {
                        &&& g1.inventory@ == inv0.update(c, dequip_result(inv0[c])).update(
                            id,
                            equip_result(inv0[id]),
                        )
                        &&& g1.log@ == equip_msgs(dequip_msgs(log0, inv0[c]), inv0[id])
                    },
                    None => {
                        &&& g1.inventory@ == inv0.update(id, equip_result(inv0[id]))
                        &&& g1.log@ == equip_msgs(log0, inv0[id])
                    },
                }
            }
        },
    }
}

/// Toggles the worn state of inventory entry `inventory_id`, as
/// `toggle_rel` states, preserving the one-per-slot discipline.
pub fn toggle_equipment(inventory_id: usize, game: &mut Game) -> (r: UseResult)
    requires
        inventory_id < old(game).inventory@.len(),
    ensures
        toggle_rel(inventory_id as int, *old(game), *final(game), r),
        inv_slot_ok(old(game).inventory@) && inv_items_ok(old(game).inventory@) ==> inv_slot_ok(
            final(game).inventory@,
        ),
{
    let equipment = match game.inventory[inventory_id].equipment {
        Some(e) => e,
        None => {
            let name = game.inventory[inventory_id].name.clone();
            game.log.push(Message::CannotEquipNotEquipment { name });
            return UseResult::Cancelled;
        },
    };
    if equipment.equipped {
        game.inventory[inventory_id].dequip(&mut game.log);
        proof {
            let inv0 = old(game).inventory@;
            let id = inventory_id as int;
            if inv_slot_ok(inv0) && inv_items_ok(inv0) {
                lemma_slot_ok_update(inv0, id, dequip_result(inv0[id]));
            }
        }
    } else {
        let current = get_equipped_in_slot(equipment.slot, &game.inventory);
        match current {
            Some(c) => {
                game.inventory[c].dequip(&mut game.log);
            },
            None => {},
        }
        game.inventory[inventory_id].equip(&mut game.log);
        proof {
            let inv0 = old(game).inventory@;
            let id = inventory_id as int;
            let e = inv0[id].equipment.unwrap();
            if inv_slot_ok(inv0) && inv_items_ok(inv0) {
                match first_equipped_from(inv0, e.slot, 0) {
                    Some(c) => {
                        let mid = inv0.update(c, dequip_result(inv0[c]));
                        lemma_slot_ok_update(inv0, c, dequip_result(inv0[c]));
                        assert(equipped_in_slot(inv0[c], e.slot));
                        assert(inv0[c].item is Some);
                        assert(!equipped_in_slot(mid[c], e.slot));
                        assert forall|s: Slot| #[trigger] equipped_in_slot(
                            equip_result(mid[id]),
                            s,
                        ) implies equipped_in_slot(mid[id], s) || (forall|k: int|
                            0 <= k < mid.len() ==> !equipped_in_slot(mid[k], s)) by {
                            if !equipped_in_slot(mid[id], s) {
                                assert(s == e.slot);
                                assert forall|k: int| 0 <= k < mid.len() implies !equipped_in_slot(
                                    mid[k],
                                    s,
                                ) by {
                                    if k != c {
                                        assert(mid[k] == inv0[k]);
                                        if equipped_in_slot(inv0[k], s) {
                                            assert(equipped_in_slot(inv0[c], s));
                                            assert(false);
                                        }
                                    }
                                }
                            }
                        }
                        lemma_slot_ok_update(mid, id, equip_result(mid[id]));
                    },
                    None => {
                        assert forall|k: int| 0 <= k < inv0.len() implies !equipped_in_slot(
                            inv0[k],
                            e.slot,
                        ) by {}
                        lemma_slot_ok_update(inv0, id, equip_result(inv0[id]));
                    },
                }
            }
        }
    }
    UseResult::UseAndKept
}

/// The entity after healing by `amount`, clamped to `max_hp`; an entity
/// without a Fighter is untouched.
pub open spec fn heal_result(o: Object, amount: int, max_hp: int) -> Object {
    match o.fighter {
        Some(f) => {
            let hp1 = if f.hp + amount > max_hp {
                max_hp
            } else {
                f.hp + amount
            };
            Object { fighter: Some(Fighter { hp: hp1 as i32, ..f }), ..o }
        },
        None => o,
    }
}

impl Object {
    /// Applies a named effect to this entity. The one effect understood is
    /// "heal": raise hit points by `amount`, clamped to the effective
    /// maximum; any other name does nothing.
    pub fn cast(&mut self, cast_type: &str, amount: i32, game: &Game)
        requires
            cast_type@ == "heal"@ ==> {
                &&& game.inventory@.len() <= INVENTORY_CAP
                &&& i32::MIN <= spec_max_hp(*old(self), game.inventory@) <= i32::MAX
                &&& (old(self).fighter matches Some(f) ==> i32::MIN <= f.hp + amount <= i32::MAX)
            },
        ensures
            cast_type@ == "heal"@ ==> *final(self) == heal_result(
                *old(self),
                amount as int,
                spec_max_hp(*old(self), game.inventory@),
            ),
            cast_type@ != "heal"@ ==> *final(self) == *old(self),
    {
        let ty = String::from_str(cast_type);
        let heal_name = String::from_str("heal");
        if ty == heal_name {
            let max_hp = self.max_hp(game);
            match self.fighter {
                Some(f) => {
                    let mut hp1: i32 = f.hp + amount;
                    if hp1 > max_hp {
                        hp1 = max_hp;
                    }
                    self.fighter = Some(Fighter { hp: hp1, ..f });
                },
                None => {},
            }
        }
    }
}

/// The machine-width conditions the heal effect needs: a player entity
/// exists, its effective maximum fits `i32`, and the healed hit points
/// cannot overflow.
pub open spec fn cast_heal_fits(objs: Seq<Object>, g: Game) -> bool {
    &&& objs.len() > 0
    &&& g.inventory@.len() <= INVENTORY_CAP
    &&& i32::MIN <= spec_max_hp(objs[0], g.inventory@) <= i32::MAX
    &&& (objs[0].fighter matches Some(f) ==> i32::MIN <= f.hp + HEAL_AMOUNT <= i32::MAX)
}

/// How the heal effect relates store and world before and after: refused
/// at full health, otherwise the player's hit points rise by the fixed
/// amount, clamped to the effective maximum.
pub open spec fn cast_heal_rel(
    objs0: Seq<Object>,
    g0: Game,
    objs1: Seq<Object>,
    g1: Game,
    r: UseResult,
) -> bool {
    let p0 = objs0[0];
    let mhp = spec_max_hp(p0, g0.inventory@);
    &&& g1 == (Game { log: g1.log, ..g0 })
    &&& match p0.fighter {
        None => objs1 == objs0 && g1.log == g0.log && r == UseResult::Cancelled,
        Some(f) => {
            if f.hp == mhp {
                &&& objs1 == objs0
                &&& g1.log@ == g0.log@.push(Message::AlreadyFullHealth)
                &&& r == UseResult::Cancelled
            } else {
                &&& objs1 == objs0.update(0, heal_result(p0, HEAL_AMOUNT as int, mhp))
                &&& g1.log@ == g0.log@.push(Message::WoundsHeal)
                &&& r == UseResult::UsedUp
            }
        },
    }
}

/// The heal effect: refuses (Cancelled) if the player is already at
/// effective maximum hit points, otherwise heals by the fixed amount,
/// clamped to the effective maximum.
pub fn cast_heal(objects: &mut Vec<Object>, game: &mut Game) -> (r: UseResult)
    requires
        cast_heal_fits(old(objects)@, *old(game)),
    ensures
        cast_heal_rel(old(objects)@, *old(game), final(objects)@, *final(game), r),
{
    let player_fighter = objects[PLAYER].fighter;
    match player_fighter {
        Some(f) => {
            let mhp = objects[PLAYER].max_hp(game);
            if f.hp == mhp {
                game.log.push(Message::AlreadyFullHealth);
                return UseResult::Cancelled;
            }
            game.log.push(Message::WoundsHeal);
            objects[PLAYER].cast("heal", HEAL_AMOUNT, game);
            UseResult::UsedUp
        },
        None => UseResult::Cancelled,
    }
}

/// How the attack-scroll effect relates store and world before and after:
/// it refuses above the power cap; otherwise it announces the buff and is
/// spent, while the Fighter's stats are left untouched.
pub open spec fn cast_attack_buff_rel(
    objs0: Seq<Object>,
    g0: Game,
    objs1: Seq<Object>,
    g1: Game,
    r: UseResult,
) -> bool {
    &&& objs1 == objs0
    &&& g1 == (Game { log: g1.log, ..g0 })
    &&& match objs0[0].fighter {
        None => g1.log == g0.log && r == UseResult::Cancelled,
        Some(f) => {
            if f.base_power >= PLAYER_MAX_ATTACK {
                &&& g1.log@ == g0.log@.push(Message::AttackTooHigh)
                &&& r == UseResult::Cancelled
            } else {
                &&& g1.log@ == g0.log@.push(Message::AttackBuffed { amount: ATTACK_BUFF })
                &&& r == UseResult::UsedUp
            }
        },
    }
}

/// The attack-scroll effect: refused above the power cap, otherwise spent
/// with an announcement; no stat changes.
pub fn cast_attack_buff(objects: &mut Vec<Object>, game: &mut Game) -> (r: UseResult)
    requires
        old(objects)@.len() > 0,
    ensures
        cast_attack_buff_rel(old(objects)@, *old(game), final(objects)@, *final(game), r),
{
    let player_fighter = objects[PLAYER].fighter;
    match player_fighter {
        Some(f) => {
            if f.base_power >= PLAYER_MAX_ATTACK {
                game.log.push(Message::AttackTooHigh);
                return UseResult::Cancelled;
            }
            proof {
                reveal_strlit("attack_buff");
                reveal_strlit("heal");
                assert("attack_buff"@.len() == 11);
                assert("heal"@.len() == 4);
                assert("attack_buff"@ != "heal"@);
            }
            objects[PLAYER].cast("attack_buff", ATTACK_BUFF, game);
            proof {
                assert(objects@ =~= old(objects)@);
            }
            game.log.push(Message::AttackBuffed { amount: ATTACK_BUFF });
            UseResult::UsedUp
        },
        None => UseResult::Cancelled,
    }
}

/// Whether store entry `k` is something a lightning bolt can strike: a
/// non-player entity bearing both Fighter and Ai whose tile is currently
/// visible.
pub open spec fn lightning_target(objs: Seq<Object>, vis: Seq<bool>, k: int) -> bool {
    &&& 0 < k < objs.len()
    &&& objs[k].fighter is Some
    &&& objs[k].ai is Some
    &&& vis[k]
}

/// The squared distance from the player (store entry 0) to entry `k`.
pub open spec fn player_dist_sq(objs: Seq<Object>, k: int) -> int {
    spec_distance_sq(objs[0].x as int, objs[0].y as int, objs[k].x as int, objs[k].y as int)
}

/// The nearest visible Fighter+Ai entity other than the player, if one is
/// strictly nearer than `max_range + 1`; ties keep the earliest index.
pub fn closest_monster(max_range: i32, objects: &Vec<Object>, visible: &Vec<bool>) -> (r: Option<
    usize,
>)
    requires
        visible@.len() == objects@.len(),
        objects@.len() > 0,
        positions_ok(objects@),
        0 <= max_range <= 1000,
    ensures
        ({
            let range2 = (max_range + 1) * (max_range + 1);
            match r {
                Some(i) => {
                    &&& lightning_target(objects@, visible@, i as int)
                    &&& player_dist_sq(objects@, i as int) < range2
                    &&& forall|j: int|
                        #[trigger] lightning_target(objects@, visible@, j) ==> player_dist_sq(
                            objects@,
                            j,
                        ) >= player_dist_sq(objects@, i as int)
                    &&& forall|j: int|
                        #[trigger] lightning_target(objects@, visible@, j) && j < i as int
                            ==> player_dist_sq(objects@, j) > player_dist_sq(objects@, i as int)
                },
                None => forall|j: int|
                    #[trigger] lightning_target(objects@, visible@, j) ==> player_dist_sq(
                        objects@,
                        j,
                    ) >= range2,
            }
        }),
{
    let mut closest_enemy: Option<usize> = None;
    proof {
        assert(0 <= (max_range + 1) * (max_range + 1) <= 1002001int) by (nonlinear_arith)
            requires
                0 <= max_range <= 1000,
        ;
    }
    let mut closest_dist: i64 = (max_range as i64 + 1) * (max_range as i64 + 1);
    let mut k: usize = 0;
    while k < objects.len()
        invariant
            visible@.len() == objects@.len(),
            objects@.len() > 0,
            positions_ok(objects@),
            0 <= max_range <= 1000,
            k <= objects@.len(),
            closest_dist <= (max_range + 1) * (max_range + 1) <= 1002001,
            match closest_enemy {
                Some(i) => {
                    &&& lightning_target(objects@, visible@, i as int)
                    &&& (i as int) < k as int
                    &&& player_dist_sq(objects@, i as int) == closest_dist
                    &&& closest_dist < (max_range + 1) * (max_range + 1)
                    &&& forall|j: int|
                        #[trigger] lightning_target(objects@, visible@, j) && j < k as int
                            ==> player_dist_sq(objects@, j) >= closest_dist
                    &&& forall|j: int|
                        #[trigger] lightning_target(objects@, visible@, j) && j < i as int
                            ==> player_dist_sq(objects@, j) > closest_dist
                },
                None => {
                    &&& closest_dist == (max_range + 1) * (max_range + 1)
                    &&& forall|j: int|
                        #[trigger] lightning_target(objects@, visible@, j) && j < k as int
                            ==> player_dist_sq(objects@, j) >= closest_dist
                },
            },
        decreases objects@.len() - k,
    {
        if k != PLAYER && objects[k].fighter.is_some() && objects[k].ai.is_some() && visible[k] {
            let dist = objects[PLAYER].distance_sq(&objects[k]);
            if dist < closest_dist {
                closest_enemy = Some(k);
                closest_dist = dist;
            }
        }
        k = k + 1;
    }
    closest_enemy
}

/// How a lightning strike on store entry `m` relates the store and the log
/// before and after: fixed damage bypassing defense, the death pipeline if
/// the target falls, and the kill's xp credited to the player.
pub open spec fn lightning_effect_rel(
    objs0: Seq<Object>,
    m: int,
    objs1: Seq<Object>,
    log0: Seq<Message>,
    log1: Seq<Message>,
) -> bool {
    let t0 = objs0[m];
    let log_hit = log0.push(Message::Lightning { target: t0.name, damage: LIGHTNING_DAMAGE });
    match t0.fighter {
        Some(f) => {
            let hp1 = f.hp - LIGHTNING_DAMAGE;
            let t_damaged = Object {
                alive: false,
                fighter: Some(Fighter { hp: hp1 as i32, ..f }),
                ..t0
            };
            if hp1 <= 0 && t0.alive {
                let p1 = Object {
                    fighter: Some(
                        Fighter {
                            xp: (objs0[0].fighter.unwrap().xp + f.xp) as i32,
                            ..objs0[0].fighter.unwrap()
                        },
                    ),
                    ..objs0[0]
                };
                &&& objs1 == objs0.update(m, objs1[m]).update(0, p1)
                &&& match f.on_death {
                    DeathCallback::Player => {
                        &&& objs1[m] == (Object {
                            glyph: '%',
                            color: (Color { r: 255, g: 165, b: 165 }),
                            ..t_damaged
                        })
                        &&& log1 == log_hit.push(Message::PlayerDied)
                    },
                    DeathCallback::Monster => {
                        &&& objs1[m] == (Object {
                            glyph: '%',
                            color: (Color { r: 191, g: 0, b: 0 }),
                            blocks: false,
                            fighter: None,
                            ai: None,
                            name: objs1[m].name,
                            ..t_damaged
                        })
                        &&& objs1[m].name@ == "remains of "@ + t0.name@
                        &&& log1 == log_hit.push(Message::MonsterDied { name: t0.name, xp: f.xp })
                    },
                }
            } else {
                &&& objs1 == objs0.update(m, Object { fighter: Some(Fighter { hp: hp1 as i32, ..f }), ..t0 })
                &&& log1 == log_hit
            }
        },
        None => objs1 == objs0 && log1 == log_hit,
    }
}

/// The machine-width conditions the lightning effect needs: the player has
/// a Fighter, and for any possible target neither the damage nor the xp
/// credit can overflow.
pub open spec fn cast_lightning_fits(objs: Seq<Object>, vis: Seq<bool>, g: Game) -> bool {
    &&& objs.len() > 0
    &&& vis.len() == objs.len()
    &&& positions_ok(objs)
    &&& objs[0].fighter is Some
    &&& forall|k: int|
        #[trigger] lightning_target(objs, vis, k) ==> {
            &&& objs[k].fighter.unwrap().hp - LIGHTNING_DAMAGE >= i32::MIN
            &&& i32::MIN <= objs[0].fighter.unwrap().xp + objs[k].fighter.unwrap().xp <= i32::MAX
        }
}

/// How the lightning effect relates store and world before and after: the
/// nearest visible Fighter+Ai entity within range is struck as
/// `lightning_effect_rel` states and a turn is consumed; with no target in
/// range nothing changes but a log entry and the use cancels.
pub open spec fn cast_lightning_rel(
    objs0: Seq<Object>,
    vis: Seq<bool>,
    g0: Game,
    objs1: Seq<Object>,
    g1: Game,
    r: UseResult,
) -> bool {
    let range2 = (LIGHTNING_RANGE + 1) * (LIGHTNING_RANGE + 1);
    &&& g1 == (Game { log: g1.log, ..g0 })
    &&& if exists|k: int|
        #[trigger] lightning_target(objs0, vis, k) && player_dist_sq(objs0, k) < range2 {
        &&& r == UseResult::UseAndTakeTurn
        &&& exists|m: int|
            #![auto]
            {
                &&& lightning_target(objs0, vis, m)
                &&& player_dist_sq(objs0, m) < range2
                &&& forall|j: int|
                    #[trigger] lightning_target(objs0, vis, j) ==> player_dist_sq(objs0, j)
                        >= player_dist_sq(objs0, m)
                &&& lightning_effect_rel(objs0, m, objs1, g0.log@, g1.log@)
            }
    } else {
        &&& r == UseResult::Cancelled
        &&& objs1 == objs0
        &&& g1.log@ == g0.log@.push(Message::NoEnemyInRange)
    }
}

/// The lightning effect: strikes the nearest visible Fighter+Ai entity
/// within range with fixed damage that bypasses defense, crediting its xp
/// to the player on a kill and consuming a turn; with no target in range
/// it cancels.
pub fn cast_lightning(objects: &mut Vec<Object>, game: &mut Game, visible: &Vec<bool>) -> (r:
    UseResult)
    requires
        cast_lightning_fits(old(objects)@, visible@, *old(game)),
    ensures
        cast_lightning_rel(
            old(objects)@,
            visible@,
            *old(game),
            final(objects)@,
            *final(game),
            r,
        ),
{
    let monster_id = closest_monster(LIGHTNING_RANGE, objects, visible);
    match monster_id {
        Some(mid) => {
            let target_name = objects[mid].name.clone();
            game.log.push(Message::Lightning { target: target_name, damage: LIGHTNING_DAMAGE });
            let xp_gain = objects[mid].take_damage(LIGHTNING_DAMAGE, game);
            match xp_gain {
                Some(xp) => {
                    let player_fighter = objects[PLAYER].fighter;
                    match player_fighter {
                        Some(f) => {
                            objects[PLAYER].fighter = Some(Fighter { xp: f.xp + xp, ..f });
                        },
                        None => {},
                    }
                },
                None => {},
            }
            UseResult::UseAndTakeTurn
        },
        None => {
            game.log.push(Message::NoEnemyInRange);
            UseResult::Cancelled
        },
    }
}

/// Appending an item that is not worn preserves the one-per-slot
/// discipline.
pub proof fn lemma_slot_ok_push(inv: Seq<Object>, o: Object)
    requires
        inv_slot_ok(inv),
        !is_equipped(o),
    ensures
        inv_slot_ok(inv.push(o)),
{
    let inv1 = inv.push(o);
    assert forall|i: int, j: int, s: Slot|
        0 <= i < inv1.len() && 0 <= j < inv1.len() && i != j && #[trigger] equipped_in_slot(
            inv1[i],
            s,
        ) && #[trigger] equipped_in_slot(inv1[j], s) implies false by {
        if i == inv.len() {
            assert(inv1[i] == o);
        } else if j == inv.len() {
            assert(inv1[j] == o);
        } else {
            assert(equipped_in_slot(inv[i], s));
            assert(equipped_in_slot(inv[j], s));
        }
    }
}

/// Removing an entry preserves the one-per-slot discipline.
pub proof fn lemma_slot_ok_remove(inv: Seq<Object>, id: int)
    requires
        inv_slot_ok(inv),
        0 <= id < inv.len(),
    ensures
        inv_slot_ok(inv.remove(id)),
{
    let inv1 = inv.remove(id);
    assert forall|i: int, j: int, s: Slot|
        0 <= i < inv1.len() && 0 <= j < inv1.len() && i != j && #[trigger] equipped_in_slot(
            inv1[i],
            s,
        ) && #[trigger] equipped_in_slot(inv1[j], s) implies false by {
        let i0: int = if i < id {
            i
        } else {
            i + 1
        };
        let j0: int = if j < id {
            j
        } else {
            j + 1
        };
        assert(inv1[i] == inv[i0]);
        assert(inv1[j] == inv[j0]);
        assert(equipped_in_slot(inv[i0], s));
        assert(equipped_in_slot(inv[j0], s));
    }
}

/// Whether a player action consumed a turn; monsters react only to actions
/// that did.
#[derive(Clone, Copy, Debug, PartialEq, Eq, Structural)]
pub enum PlayerAction {
    TookTurn,
    DidntTakeTurn,
    Exit,
}

/// One player intent other than using an inventory item (that one is
/// classified by `use_item` itself, since its outcome depends on the
/// effect).
#[derive(Clone, Copy, Debug, PartialEq, Eq, Structural)]
pub enum PlayerIntent {
    Move,
    PickUp,
    DropItem,
    Descend,
    ShowCharacter,
    Quit,
}

/// The turn economy of one resolved intent: quitting always exits; any
/// other intent of a dead player is silently ignored without consuming a
/// turn; a living player's movement consumes the turn; picking up,
/// dropping, descending and the character sheet do not.
pub open spec fn spec_classify_intent(intent: PlayerIntent, player_alive: bool) -> PlayerAction {
    if intent == PlayerIntent::Quit {
        PlayerAction::Exit
    } else if !player_alive {
        PlayerAction::DidntTakeTurn
    } else {
        match intent {
            PlayerIntent::Move => PlayerAction::TookTurn,
            _ => PlayerAction::DidntTakeTurn,
        }
    }
}

/// Classifies one resolved intent for the turn driver: whether the AI
/// sweep runs afterwards, and when the session ends.
pub fn classify_intent(intent: PlayerIntent, player_alive: bool) -> (r: PlayerAction)
    ensures
        r == spec_classify_intent(intent, player_alive),
{
    if matches!(intent, PlayerIntent::Quit) {
        PlayerAction::Exit
    } else if !player_alive {
        PlayerAction::DidntTakeTurn
    } else {
        match intent {
            PlayerIntent::Move => PlayerAction::TookTurn,
            _ => PlayerAction::DidntTakeTurn,
        }
    }
}

/// Which effect relation one use of item variant `it` establishes between
/// the states before and after the effect ran.
pub open spec fn effect_rel(
    it: Item,
    id: int,
    objs0: Seq<Object>,
    vis: Seq<bool>,
    g0: Game,
    objs1: Seq<Object>,
    gm: Game,
    u: UseResult,
) -> bool {
    match it {
        Item::Heal => cast_heal_rel(objs0, g0, objs1, gm, u),
        Item::AttackBuff => cast_attack_buff_rel(objs0, g0, objs1, gm, u),
        Item::Lightning => cast_lightning_rel(objs0, vis, g0, objs1, gm, u),
        Item::Sword | Item::Chest | Item::Targe => objs1 == objs0 && toggle_rel(id, g0, gm, u),
    }
}

/// Uses inventory entry `inventory_id`: dispatches its item variant to the
/// matching effect, then classifies the action. An effect that reports
/// UsedUp or UseAndTakeTurn removes the item from the inventory; only
/// UseAndTakeTurn consumes the turn; a cancelled use logs so; an entity
/// without an Item component cannot be used.
pub fn use_item(
    inventory_id: usize,
    objects: &mut Vec<Object>,
    game: &mut Game,
    visible: &Vec<bool>,
) -> (r: PlayerAction)
    requires
        inventory_id < old(game).inventory@.len(),
        old(game).inventory@[inventory_id as int].item matches Some(Item::Heal) ==> cast_heal_fits(
            old(objects)@,
            *old(game),
        ),
        old(game).inventory@[inventory_id as int].item matches Some(Item::AttackBuff) ==> old(
            objects,
        )@.len() > 0,
        old(game).inventory@[inventory_id as int].item matches Some(Item::Lightning)
            ==> cast_lightning_fits(old(objects)@, visible@, *old(game)),
    ensures
        inv_slot_ok(old(game).inventory@) && inv_items_ok(old(game).inventory@) ==> inv_slot_ok(
            final(game).inventory@,
        ),
        ({
            let objs0 = old(objects)@;
            let g0 = *old(game);
            let inv0 = g0.inventory@;
            let id = inventory_id as int;
            match inv0[id].item {
                None => {
                    &&& r == PlayerAction::DidntTakeTurn
                    &&& final(objects)@ == objs0
                    &&& *final(game) == (Game { log: final(game).log, ..g0 })
                    &&& final(game).log@ == g0.log@.push(
                        Message::CannotUse { name: inv0[id].name },
                    )
                },
                Some(it) => exists|gm: Game, u: UseResult|
                    #![trigger effect_rel(it, id, objs0, visible@, g0, final(objects)@, gm, u)]
                    {
                        &&& effect_rel(it, id, objs0, visible@, g0, final(objects)@, gm, u)
                        &&& match u {
                            UseResult::UsedUp => {
                                &&& *final(game) == (Game {
                                    inventory: final(game).inventory,
                                    log: gm.log,
                                    ..gm
                                })
                                &&& final(game).inventory@ == gm.inventory@.remove(id)
                                &&& r == PlayerAction::DidntTakeTurn
                            },
                            UseResult::UseAndTakeTurn => {
                                &&& *final(game) == (Game {
                                    inventory: final(game).inventory,
                                    log: gm.log,
                                    ..gm
                                })
                                &&& final(game).inventory@ == gm.inventory@.remove(id)
                                &&& r == PlayerAction::TookTurn
                            },
                            UseResult::UseAndKept => {
                                &&& *final(game) == gm
                                &&& r == PlayerAction::DidntTakeTurn
                            },
                            UseResult::Cancelled => {
                                &&& *final(game) == (Game { log: final(game).log, ..gm })
                                &&& final(game).log@ == gm.log@.push(Message::CancelledUse)
                                &&& r == PlayerAction::DidntTakeTurn
                            },
                        }
                    },
            }
        }),
{
    let item_kind = game.inventory[inventory_id].item;
    match item_kind {
        Some(it) => {
            let u = match it {
                Item::Heal => cast_heal(objects, game),
                Item::AttackBuff => cast_attack_buff(objects, game),
                Item::Lightning => cast_lightning(objects, game, visible),
                Item::Sword => toggle_equipment(inventory_id, game),
                Item::Chest => toggle_equipment(inventory_id, game),
                Item::Targe => toggle_equipment(inventory_id, game),
            };
            proof {
                assert(effect_rel(
                    it,
                    inventory_id as int,
                    old(objects)@,
                    visible@,
                    *old(game),
                    objects@,
                    *game,
                    u,
                ));
            }
            match u {
                UseResult::UsedUp => {
                    let ghost inv_mid = game.inventory@;
                    game.inventory.remove(inventory_id);
                    proof {
                        if inv_slot_ok(old(game).inventory@) {
                            lemma_slot_ok_remove(inv_mid, inventory_id as int);
                        }
                    }
                    PlayerAction::DidntTakeTurn
                },
                UseResult::UseAndTakeTurn => {
                    let ghost inv_mid = game.inventory@;
                    game.inventory.remove(inventory_id);
                    proof {
                        if inv_slot_ok(old(game).inventory@) {
                            lemma_slot_ok_remove(inv_mid, inventory_id as int);
                        }
                    }
                    PlayerAction::TookTurn
                },
                UseResult::UseAndKept => PlayerAction::DidntTakeTurn,
                UseResult::Cancelled => {
                    game.log.push(Message::CancelledUse);
                    PlayerAction::DidntTakeTurn
                },
            }
        },
        None => {
            let name = game.inventory[inventory_id].name.clone();
            game.log.push(Message::CannotUse { name });
            PlayerAction::DidntTakeTurn
        },
    }
}

/// Puts entity `object_id` of the main store into the inventory, unless
/// the inventory is full; pick-up reorders the store by swapping the last
/// entity into the vacated index.
pub fn pick_item_up(object_id: usize, objects: &mut Vec<Object>, game: &mut Game)
    requires
        object_id < old(objects)@.len(),
        object_id != PLAYER,
    ensures
        final(game).map == old(game).map,
        final(game).dungeon_level == old(game).dungeon_level,
        ({
            let objs0 = old(objects)@;
            let inv0 = old(game).inventory@;
            let log0 = old(game).log@;
            let oid = object_id as int;
            if inv0.len() >= INVENTORY_CAP {
                &&& final(objects)@ == objs0
                &&& final(game).inventory@ == inv0
                &&& final(game).log@ == log0.push(Message::InventoryFull { name: objs0[oid].name })
            } else {
                &&& final(objects)@ == objs0.update(oid, objs0.last()).drop_last()
                &&& final(game).inventory@ == inv0.push(objs0[oid])
                &&& final(game).log@ == log0.push(Message::PickedUp { name: objs0[oid].name })
            }
        }),
        inv_slot_ok(old(game).inventory@) && !is_equipped(old(objects)@[object_id as int])
            ==> inv_slot_ok(final(game).inventory@),
        inv_items_ok(old(game).inventory@) && old(objects)@[object_id as int].item is Some
            ==> inv_items_ok(final(game).inventory@),
        old(game).inventory@.len() <= INVENTORY_CAP ==> final(game).inventory@.len()
            <= INVENTORY_CAP,
{
    if game.inventory.len() >= INVENTORY_CAP {
        let name = objects[object_id].name.clone();
        game.log.push(Message::InventoryFull { name });
    } else {
        let item = objects.swap_remove(object_id);
        game.log.push(Message::PickedUp { name: item.name.clone() });
        game.inventory.push(item);
        proof {
            let inv0 = old(game).inventory@;
            let o = old(objects)@[object_id as int];
            if inv_slot_ok(inv0) && !is_equipped(o) {
                lemma_slot_ok_push(inv0, o);
            }
        }
    }
}

/// Takes inventory entry `inventory_id` out of the inventory, clearing its
/// worn flag first if it has Equipment, and places it on the player's tile
/// in the main store.
pub fn drop_item(inventory_id: usize, objects: &mut Vec<Object>, game: &mut Game)
    requires
        inventory_id < old(game).inventory@.len(),
        old(objects)@.len() > 0,
    ensures
        final(game).map == old(game).map,
        final(game).dungeon_level == old(game).dungeon_level,
        ({
            let objs0 = old(objects)@;
            let inv0 = old(game).inventory@;
            let log0 = old(game).log@;
            let id = inventory_id as int;
            let o0 = inv0[id];
            let o_de = if o0.equipment is Some {
                dequip_result(o0)
            } else {
                o0
            };
            let o1 = Object { x: objs0[0].x, y: objs0[0].y, ..o_de };
            &&& final(game).inventory@ == inv0.remove(id)
            &&& final(objects)@ == objs0.push(o1)
            &&& final(game).log@ == (if o0.equipment is Some {
                dequip_msgs(log0, o0)
            } else {
                log0
            }).push(Message::Dropped { name: o0.name })
        }),
        inv_slot_ok(old(game).inventory@) ==> inv_slot_ok(final(game).inventory@),
        inv_items_ok(old(game).inventory@) ==> inv_items_ok(final(game).inventory@),
        inv_items_ok(old(game).inventory@) ==> !is_equipped(final(objects)@.last()),
{
    let mut item = game.inventory.remove(inventory_id);
    if item.equipment.is_some() {
        item.dequip(&mut game.log);
    }
    let (px, py): (i32, i32) = objects[PLAYER].pos();
    item.set_pos(px, py);
    game.log.push(Message::Dropped { name: item.name.clone() });
    objects.push(item);
    proof {
        let inv0 = old(game).inventory@;
        if inv_slot_ok(inv0) {
            lemma_slot_ok_remove(inv0, inventory_id as int);
        }
    }
}

} // verus!
