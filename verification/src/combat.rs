//! Combat resolution: damage between two entities, the death pipeline with
//! its once-only callback, and disjoint index-based access into the entity
//! store for attacker/defender pairs.

use vstd::prelude::*;
use crate::game::Game;
use crate::object::{Color, DeathCallback, Fighter, Message, Object};
use crate::stats::{spec_defense, spec_power};

verus! {

/// Two mutable references into one slice at distinct indices. Operations
/// that need an attacker and a defender take these rather than aliased
/// references.
pub fn mut_two<T>(first_index: usize, second_index: usize, items: &mut [T]) -> (r: (
    &mut T,
    &mut T,
))
    requires
        first_index != second_index,
        first_index < old(items)@.len(),
        second_index < old(items)@.len(),
    ensures
        *r.0 == old(items)@[first_index as int],
        *r.1 == old(items)@[second_index as int],
        final(items)@.len() == old(items)@.len(),
        final(items)@[first_index as int] == *final(r.0),
        final(items)@[second_index as int] == *final(r.1),
        forall|i: int|
            0 <= i < old(items)@.len() && i != first_index && i != second_index
                ==> final(items)@[i] == old(items)@[i],
{
    let split_at_index = if first_index > second_index {
        first_index
    } else {
        second_index
    };
    let low_index = if first_index > second_index {
        second_index
    } else {
        first_index
    };
    let (left, right) = items.split_at_mut(split_at_index);
    let (_, low_tail) = left.split_at_mut(low_index);
    let low_ref = low_tail.first_mut().unwrap();
    let high_ref = right.first_mut().unwrap();
    if first_index < second_index {
        (low_ref, high_ref)
    } else {
        (high_ref, low_ref)
    }
}

/// How the player-death transform relates the entity and world before and
/// after: the glyph and colour change, a message is logged, and nothing
/// else moves.
pub open spec fn player_death_rel(o0: Object, o1: Object, g0: Game, g1: Game) -> bool {
    &&& o1 == (Object { glyph: '%', color: (Color { r: 255, g: 165, b: 165 }), ..o0 })
    &&& g1 == (Game { log: g1.log, ..g0 })
    &&& g1.log@ == g0.log@.push(Message::PlayerDied)
}

/// How the monster-death transform relates the entity and world before and
/// after: the entity becomes inert remains (no Fighter, no Ai, does not
/// block, renamed), and the kill is logged with its xp value.
pub open spec fn monster_death_rel(o0: Object, o1: Object, g0: Game, g1: Game) -> bool {
    &&& o1 == (Object {
        glyph: '%',
        color: (Color { r: 191, g: 0, b: 0 }),
        blocks: false,
        fighter: None,
        ai: None,
        name: o1.name,
        ..o0
    })
    &&& o1.name@ == "remains of "@ + o0.name@
    &&& g1 == (Game { log: g1.log, ..g0 })
    &&& g1.log@ == g0.log@.push(
        Message::MonsterDied { name: o0.name, xp: o0.fighter.unwrap().xp },
    )
}

/// The player-death transform: mark the corpse, log the death.
pub fn player_death(player: &mut Object, game: &mut Game)
    ensures
        player_death_rel(*old(player), *final(player), *old(game), *final(game)),
{
    game.log.push(Message::PlayerDied);
    player.glyph = '%';
    player.color = Color { r: 255, g: 165, b: 165 };
}

/// The monster-death transform: log the kill, convert the entity in place
/// into inert remains.
pub fn monster_death(monster: &mut Object, game: &mut Game)
    requires
        old(monster).fighter is Some,
    ensures
        monster_death_rel(*old(monster), *final(monster), *old(game), *final(game)),
{
    let xp: i32 = match monster.fighter {
        Some(f) => f.xp,
        None => 0,
    };
    game.log.push(Message::MonsterDied { name: monster.name.clone(), xp });
    monster.glyph = '%';
    monster.color = Color { r: 191, g: 0, b: 0 };
    monster.blocks = false;
    monster.fighter = None;
    monster.ai = None;
    let new_name = String::from_str("remains of ").concat(monster.name.as_str());
    monster.name = new_name;
}

impl DeathCallback {
    /// Dispatches the death transform bound to this tag.
    pub fn callback(self, object: &mut Object, game: &mut Game)
        requires
            self is Monster ==> old(object).fighter is Some,
        ensures
            self is Player ==> player_death_rel(
                *old(object),
                *final(object),
                *old(game),
                *final(game),
            ),
            self is Monster ==> monster_death_rel(
                *old(object),
                *final(object),
                *old(game),
                *final(game),
            ),
    {
        match self {
            DeathCallback::Player => player_death(object, game),
            DeathCallback::Monster => monster_death(object, game),
        }
    }
}

/// How `take_damage` relates the entity and world before and after, and
/// its returned xp. Damage is applied if positive; the death pipeline runs
/// only if the entity was still alive, flips `alive`, fires the callback
/// once, and hands the banked xp to the caller.
pub open spec fn take_damage_rel(
    o0: Object,
    o1: Object,
    g0: Game,
    g1: Game,
    damage: int,
    r: Option<i32>,
) -> bool {
    match o0.fighter {
        None => o1 == o0 && g1 == g0 && r is None,
        Some(f) => {
            let hp1 = if damage > 0 {
                f.hp - damage
            } else {
                f.hp as int
            };
            let o_damaged = Object {
                alive: false,
                fighter: Some(Fighter { hp: hp1 as i32, ..f }),
                ..o0
            };
            if hp1 <= 0 && o0.alive {
                &&& r == Some(f.xp)
                &&& match f.on_death {
                    DeathCallback::Player => player_death_rel(o_damaged, o1, g0, g1),
                    DeathCallback::Monster => monster_death_rel(o_damaged, o1, g0, g1),
                }
            } else {
                &&& r is None
                &&& o1 == (Object { fighter: Some(Fighter { hp: hp1 as i32, ..f }), ..o0 })
                &&& g1 == g0
            }
        },
    }
}

impl Object {
    /// Applies `damage` if positive; if hit points fall to zero or below
    /// and the entity was still alive, marks it dead, fires its death
    /// callback exactly once, and returns the xp banked on its Fighter so
    /// the caller can credit the attacker.
    pub fn take_damage(&mut self, damage: i32, game: &mut Game) -> (r: Option<i32>)
        requires
            old(self).fighter matches Some(f) ==> f.hp - damage >= i32::MIN,
        ensures
            take_damage_rel(*old(self), *final(self), *old(game), *final(game), damage as int, r),
    {
        match self.fighter {
            Some(f) => {
                if damage > 0 {
                    self.fighter = Some(Fighter { hp: f.hp - damage, ..f });
                }
            },
            None => {},
        }
        match self.fighter {
            Some(f) => {
                if f.hp <= 0 && self.alive {
                    self.alive = false;
                    f.on_death.callback(self, game);
                    return Some(f.xp);
                }
            },
            None => {},
        }
        None
    }
}

/// Already-dead entities stay dead: once an entity's hit points are at or
/// below zero (which, under the liveness invariant, means it is no longer
/// alive), further damage neither re-fires the death callback nor
/// re-credits xp — no message is logged, the components and flags are
/// untouched — though the damage itself still accumulates.
pub proof fn lemma_take_damage_already_dead(
    o0: Object,
    o1: Object,
    g0: Game,
    g1: Game,
    damage: int,
    r: Option<i32>,
)
    requires
        take_damage_rel(o0, o1, g0, g1, damage, r),
        o0.fighter matches Some(f) && f.hp <= 0,
        o0.alive ==> (o0.fighter matches Some(f) && f.hp > 0),
        damage > 0 ==> o0.fighter.unwrap().hp - damage >= i32::MIN,
    ensures
        r is None,
        g1 == g0,
        o1.ai == o0.ai,
        o1.blocks == o0.blocks,
        o1.alive == o0.alive,
        o1.name == o0.name,
        o1.fighter matches Some(f1) && f1.on_death == o0.fighter.unwrap().on_death
            && f1.xp == o0.fighter.unwrap().xp,
        o1.fighter.unwrap().hp == (if damage > 0 {
            o0.fighter.unwrap().hp - damage
        } else {
            o0.fighter.unwrap().hp as int
        }),
{
}

/// Whether attacker `a` and target `t` are within the machine widths the
/// combat arithmetic needs: the effective stats and their difference fit
/// `i32`, the target's hit points cannot underflow, and the xp credit
/// cannot overflow.
pub open spec fn attack_fits(a: Object, t: Object, g: Game) -> bool {
    let power = spec_power(a, g.inventory@);
    let defense = spec_defense(t, g.inventory@);
    &&& g.inventory@.len() <= crate::game::INVENTORY_CAP
    &&& a.fighter is Some
    &&& i32::MIN <= power <= i32::MAX
    &&& i32::MIN <= defense <= i32::MAX
    &&& i32::MIN <= power - defense <= i32::MAX
    &&& (t.fighter matches Some(f) ==> f.hp - (power - defense) >= i32::MIN)
    &&& (t.fighter matches Some(f) ==> i32::MIN <= a.fighter.unwrap().xp + f.xp <= i32::MAX)
}

/// How one attack relates attacker, target and world before and after,
/// given whether the miss draw was triggered. Damage is effective power
/// minus effective defense, forced to -1 on a miss; positive damage is
/// applied through the death pipeline and the kill's xp is credited to the
/// attacker; negative damage logs a miss, zero damage logs no effect.
pub open spec fn attack_rel(
    a0: Object,
    t0: Object,
    g0: Game,
    a1: Object,
    t1: Object,
    g1: Game,
    missed: bool,
) -> bool {
    let damage = if missed {
        -1int
    } else {
        spec_power(a0, g0.inventory@) - spec_defense(t0, g0.inventory@)
    };
    &&& g1 == (Game { log: g1.log, ..g0 })
    &&& if damage > 0 {
        let log_hit = g0.log@.push(
            Message::Attack { attacker: a0.name, target: t0.name, damage: damage as i32 },
        );
        match t0.fighter {
            Some(f) => {
                let hp1 = f.hp - damage;
                let t_damaged = Object {
                    alive: false,
                    fighter: Some(Fighter { hp: hp1 as i32, ..f }),
                    ..t0
                };
                if hp1 <= 0 && t0.alive {
                    &&& a1 == (Object {
                        fighter: Some(
                            Fighter {
                                xp: (a0.fighter.unwrap().xp + f.xp) as i32,
                                ..a0.fighter.unwrap()
                            },
                        ),
                        ..a0
                    })
                    &&& match f.on_death {
                        DeathCallback::Player => {
                            &&& t1 == (Object {
                                glyph: '%',
                                color: (Color { r: 255, g: 165, b: 165 }),
                                ..t_damaged
                            })
                            &&& g1.log@ == log_hit.push(Message::PlayerDied)
                        },
                        DeathCallback::Monster => {
                            &&& t1 == (Object {
                                glyph: '%',
                                color: (Color { r: 191, g: 0, b: 0 }),
                                blocks: false,
                                fighter: None,
                                ai: None,
                                name: t1.name,
                                ..t_damaged
                            })
                            &&& t1.name@ == "remains of "@ + t0.name@
                            &&& g1.log@ == log_hit.push(
                                Message::MonsterDied { name: t0.name, xp: f.xp },
                            )
                        },
                    }
                } else {
                    &&& a1 == a0
                    &&& t1 == (Object { fighter: Some(Fighter { hp: hp1 as i32, ..f }), ..t0 })
                    &&& g1.log@ == log_hit
                }
            },
            None => a1 == a0 && t1 == t0 && g1.log@ == log_hit,
        }
    } else if damage < 0 {
        &&& a1 == a0
        &&& t1 == t0
        &&& g1.log@ == g0.log@.push(Message::Miss { attacker: a0.name, target: t0.name })
    } else {
        &&& a1 == a0
        &&& t1 == t0
        &&& g1.log@ == g0.log@.push(Message::NoEffect { attacker: a0.name, target: t0.name })
    }
}

impl Object {
    /// One attack against `target` with the miss draw's outcome supplied
    /// by the caller; `forced_miss` true stands for the one-in-ten draw
    /// that forces the interaction to a miss regardless of the arithmetic.
    pub fn attack_with_roll(&mut self, target: &mut Object, forced_miss: bool, game: &mut Game)
        requires
            attack_fits(*old(self), *old(target), *old(game)),
        ensures
            attack_rel(
                *old(self),
                *old(target),
                *old(game),
                *final(self),
                *final(target),
                *final(game),
                forced_miss,
            ),
    {
        let power = self.power(game);
        let defense = target.defense(game);
        let mut damage: i32 = power - defense;
        if forced_miss {
            damage = -1;
        }
        if damage > 0 {
            game.log.push(
                Message::Attack {
                    attacker: self.name.clone(),
                    target: target.name.clone(),
                    damage,
                },
            );
            let xp_gain = target.take_damage(damage, game);
            match xp_gain {
                Some(xp) => {
                    match self.fighter {
                        Some(f) => {
                            self.fighter = Some(Fighter { xp: f.xp + xp, ..f });
                        },
                        None => {},
                    }
                },
                None => {},
            }
        } else if damage < 0 {
            game.log.push(
                Message::Miss { attacker: self.name.clone(), target: target.name.clone() },
            );
        } else {
            game.log.push(
                Message::NoEffect { attacker: self.name.clone(), target: target.name.clone() },
            );
        }
    }

    /// One attack against `target`, drawing the miss chance (one in ten)
    /// from the random stream. Whatever the draw, the attack relation
    /// holds for some outcome of it.
    pub fn attack(&mut self, target: &mut Object, game: &mut Game)
        requires
            attack_fits(*old(self), *old(target), *old(game)),
        ensures
            exists|missed: bool|
                attack_rel(
                    *old(self),
                    *old(target),
                    *old(game),
                    *final(self),
                    *final(target),
                    *final(game),
                    missed,
                ),
    {
        let roll = crate::rng::rand_range_u32(0, 10);
        let forced_miss = roll == 0;
        self.attack_with_roll(target, forced_miss, game);
    }
}

} // verus!
