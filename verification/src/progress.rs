//! Level progression and world lifecycle: xp thresholds, the stat choice
//! applied on leveling, descent to the next dungeon level, and the fresh
//! world a new game starts from.

use vstd::prelude::*;
use crate::ai::sweep_ready;
use crate::game::{inv_items_ok, inv_slot_ok, Game, INVENTORY_CAP};
use crate::generate::{level_entity_ok, make_map, map_layout};
use crate::items::heal_result;
use crate::map::{grid_wf, in_bounds, tile_at, Rect};
use crate::object::{Color, DeathCallback, Equipment, Fighter, Item, Message, Object, Slot};
use crate::stats::spec_max_hp;

verus! {

pub const LEVEL_UP_BASE: i32 = 200;

pub const LEVEL_UP_FACTOR: i32 = 150;

/// The xp total at which a character of `level` levels up.
pub open spec fn spec_level_up_xp(level: int) -> int {
    LEVEL_UP_BASE + level * LEVEL_UP_FACTOR
}

/// Computes the level-up threshold for `level`.
pub fn level_up_xp(level: i32) -> (r: i32)
    requires
        1 <= level <= 10000000,
    ensures
        r == spec_level_up_xp(level as int),
{
    LEVEL_UP_BASE + level * LEVEL_UP_FACTOR
}

/// Whether a level-up choice is outstanding: banked xp has reached the
/// threshold for the current character level. The driver must resolve the
/// choice before any further turns proceed.
pub open spec fn level_up_pending_spec(o: Object) -> bool {
    o.fighter matches Some(f) && f.xp >= spec_level_up_xp(o.level as int)
}

/// Checks whether a level-up choice is outstanding for this entity.
pub fn level_up_pending(player: &Object) -> (r: bool)
    requires
        1 <= player.level <= 10000000,
    ensures
        r == level_up_pending_spec(*player),
{
    match player.fighter {
        Some(f) => f.xp >= level_up_xp(player.level),
        None => false,
    }
}

/// The stat a player raises on leveling up.
#[derive(Clone, Copy, Debug, PartialEq, Eq, Structural)]
pub enum StatChoice {
    Constitution,
    Strength,
    Agility,
}

/// Applies one resolved level-up: the character level rises by one, the
/// level is announced in the log, exactly the chosen stat delta is
/// applied (+20 max and current hp, or +1 power, or +1 defense), and the
/// threshold is subtracted from banked xp, which stays nonnegative.
pub fn level_up_apply(player: &mut Object, choice: StatChoice, game: &mut Game)
    requires
        1 <= old(player).level <= 10000000,
        level_up_pending_spec(*old(player)),
        old(player).fighter.unwrap().base_max_hp + 20 <= i32::MAX,
        old(player).fighter.unwrap().hp + 20 <= i32::MAX,
        old(player).fighter.unwrap().base_power < i32::MAX,
        old(player).fighter.unwrap().base_defense < i32::MAX,
    ensures
        *final(game) == (Game { log: final(game).log, ..*old(game) }),
        final(game).log@ == old(game).log@.push(
            Message::ReachedLevel { level: (old(player).level + 1) as i32 },
        ),
        final(player).level == old(player).level + 1,
        ({
            let f = old(player).fighter.unwrap();
            let xp1 = f.xp - spec_level_up_xp(old(player).level as int);
            &&& xp1 >= 0
            &&& match choice {
                StatChoice::Constitution => *final(player) == (Object {
                    level: (old(player).level + 1) as i32,
                    fighter: Some(
                        Fighter {
                            base_max_hp: (f.base_max_hp + 20) as i32,
                            hp: (f.hp + 20) as i32,
                            xp: xp1 as i32,
                            ..f
                        },
                    ),
                    ..*old(player)
                }),
                StatChoice::Strength => *final(player) == (Object {
                    level: (old(player).level + 1) as i32,
                    fighter: Some(
                        Fighter { base_power: (f.base_power + 1) as i32, xp: xp1 as i32, ..f },
                    ),
                    ..*old(player)
                }),
                StatChoice::Agility => *final(player) == (Object {
                    level: (old(player).level + 1) as i32,
                    fighter: Some(
                        Fighter { base_defense: (f.base_defense + 1) as i32, xp: xp1 as i32, ..f },
                    ),
                    ..*old(player)
                }),
            }
        }),
{
    let threshold = level_up_xp(player.level);
    player.level = player.level + 1;
    game.log.push(Message::ReachedLevel { level: player.level });
    match player.fighter {
        Some(f) => {
            let f2 = match choice {
                StatChoice::Constitution => Fighter {
                    base_max_hp: f.base_max_hp + 20,
                    hp: f.hp + 20,
                    xp: f.xp - threshold,
                    ..f
                },
                StatChoice::Strength => Fighter {
                    base_power: f.base_power + 1,
                    xp: f.xp - threshold,
                    ..f
                },
                StatChoice::Agility => Fighter {
                    base_defense: f.base_defense + 1,
                    xp: f.xp - threshold,
                    ..f
                },
            };
            player.fighter = Some(f2);
        },
        None => {},
    }
}

/// The leveling law: one below the threshold no level-up is pending; at
/// the threshold one is; the threshold is positive, and spending exactly
/// the threshold leaves zero banked xp, which does not reach the next
/// level's threshold — so a level-up at the exact threshold happens
/// exactly once.
pub proof fn lemma_leveling_threshold(o: Object)
    requires
        1 <= o.level,
        o.fighter is Some,
    ensures
        spec_level_up_xp(o.level as int) > 0,
        o.fighter.unwrap().xp == spec_level_up_xp(o.level as int) - 1 ==> !level_up_pending_spec(
            o,
        ),
        o.fighter.unwrap().xp >= spec_level_up_xp(o.level as int) ==> level_up_pending_spec(o),
        o.fighter.unwrap().xp - spec_level_up_xp(o.level as int) < spec_level_up_xp(
            o.level as int + 1,
        ) || o.fighter.unwrap().xp > 2 * spec_level_up_xp(o.level as int),
{
}

/// Descends one dungeon level: the player rests, healing by half the
/// effective maximum; the dungeon level counter rises by one (it never
/// decreases); and the grid and population are regenerated at the new
/// level. The visibility oracle must be recomputed against the new grid.
pub fn next_level(objects: &mut Vec<Object>, game: &mut Game)
    requires
        old(objects)@.len() >= 1,
        old(game).inventory@.len() <= INVENTORY_CAP,
        0 <= spec_max_hp(old(objects)@[0], old(game).inventory@) <= i32::MAX,
        old(objects)@[0].fighter matches Some(f) ==> f.hp + spec_max_hp(
            old(objects)@[0],
            old(game).inventory@,
        ) / 2 <= i32::MAX,
        old(game).dungeon_level < 1000000,
    ensures
        final(game).dungeon_level == old(game).dungeon_level + 1,
        final(game).inventory == old(game).inventory,
        grid_wf(final(game).map@),
        final(objects)@.len() >= 2,
        ({
            let healed = heal_result(
                old(objects)@[0],
                spec_max_hp(old(objects)@[0], old(game).inventory@) / 2,
                spec_max_hp(old(objects)@[0], old(game).inventory@),
            );
            &&& final(objects)@[0] == (Object {
                x: final(objects)@[0].x,
                y: final(objects)@[0].y,
                ..healed
            })
            &&& in_bounds(final(objects)@[0].x as int, final(objects)@[0].y as int)
        }),
        forall|i: int| 1 <= i < final(objects)@.len() ==> level_entity_ok(#[trigger] final(objects)@[i]),
        exists|rooms: Seq<Rect>, orders: Seq<bool>|
            #![trigger map_layout(final(game).map@, rooms, orders)]
            {
                &&& map_layout(final(game).map@, rooms, orders)
                &&& (final(objects)@[0].x as int, final(objects)@[0].y as int)
                    == rooms[0].spec_center()
                &&& rooms[0].spec_interior(
                    final(objects)@[0].x as int,
                    final(objects)@[0].y as int,
                )
                &&& (final(objects)@.last().x as int, final(objects)@.last().y as int)
                    == rooms[rooms.len() - 1].spec_center()
            },
        !tile_at(final(game).map@, final(objects)@[0].x as int, final(objects)@[0].y as int).blocked,
        ({
            let stairs = final(objects)@.last();
            &&& stairs.name@ == "stairs"@
            &&& stairs.glyph == '<'
            &&& !stairs.blocks
            &&& !stairs.alive
            &&& stairs.fighter is None
            &&& stairs.ai is None
            &&& stairs.item is None
            &&& stairs.equipment is None
            &&& stairs.always_visible
        }),
        final(game).log@.len() == old(game).log@.len() + 2,
        final(game).log@[old(game).log@.len() as int] == Message::Rest,
        final(game).log@[old(game).log@.len() + 1int] == Message::Descend,
{
    game.log.push(Message::Rest);
    let heal_hp = objects[0].max_hp(game) / 2;
    objects[0].cast("heal", heal_hp, game);
    game.log.push(Message::Descend);
    game.dungeon_level = game.dungeon_level + 1;
    let (new_map, room_list) = make_map(objects, game.dungeon_level);
    game.map = new_map;
    proof {
        let ow = choose|orders: Seq<bool>| #[trigger] map_layout(game.map@, room_list@, orders);
        assert(map_layout(game.map@, room_list@, ow));
    }
}

/// A fresh world: the player (with base combat stats and a player death
/// tag) alone in a newly generated first level, a dagger already equipped
/// in the inventory, the dungeon level at one, and a welcome in the log.
/// The result satisfies every invariant the turn machinery relies on.
pub fn new_game() -> (r: (Vec<Object>, Game))
    ensures
        r.0@.len() >= 2,
        r.0@[0].is_player(),
        r.0@[0].name@ == "player"@,
        r.0@[0].glyph == '@',
        r.0@[0].alive,
        r.0@[0].level == 1,
        r.0@[0].fighter == Some(
            Fighter {
                base_max_hp: 100,
                hp: 100,
                base_defense: 1,
                base_power: 4,
                on_death: DeathCallback::Player,
                xp: 0,
            },
        ),
        in_bounds(r.0@[0].x as int, r.0@[0].y as int),
        forall|i: int| 1 <= i < r.0@.len() ==> level_entity_ok(#[trigger] r.0@[i]),
        grid_wf(r.1.map@),
        r.1.dungeon_level == 1,
        r.1.log@ =~= seq![Message::Welcome],
        r.1.inventory@.len() == 1,
        r.1.inventory@[0].name@ == "dagger"@,
        r.1.inventory@[0].item == Some(Item::Sword),
        r.1.inventory@[0].equipment == Some(
            Equipment {
                slot: Slot::LeftHand,
                equipped: true,
                max_hp_bonus: 0,
                defense_bonus: 0,
                power_bonus: 3,
            },
        ),
        inv_slot_ok(r.1.inventory@),
        inv_items_ok(r.1.inventory@),
        sweep_ready(r.0@, r.1),
        exists|rooms: Seq<Rect>, orders: Seq<bool>|
            #![trigger map_layout(r.1.map@, rooms, orders)]
            {
                &&& map_layout(r.1.map@, rooms, orders)
                &&& (r.0@[0].x as int, r.0@[0].y as int) == rooms[0].spec_center()
                &&& rooms[0].spec_interior(r.0@[0].x as int, r.0@[0].y as int)
                &&& (r.0@.last().x as int, r.0@.last().y as int) == rooms[rooms.len()
                    - 1].spec_center()
            },
        !tile_at(r.1.map@, r.0@[0].x as int, r.0@[0].y as int).blocked,
        ({
            let stairs = r.0@.last();
            &&& stairs.name@ == "stairs"@
            &&& stairs.glyph == '<'
            &&& !stairs.blocks
            &&& !stairs.alive
            &&& stairs.fighter is None
            &&& stairs.ai is None
            &&& stairs.item is None
            &&& stairs.equipment is None
            &&& stairs.always_visible
        }),
{
    let mut player = Object::new(0, 0, '@', "player", Color { r: 255, g: 255, b: 255 }, true);
    player.fighter = Some(
        Fighter {
            base_max_hp: 100,
            hp: 100,
            base_defense: 1,
            base_power: 4,
            on_death: DeathCallback::Player,
            xp: 0,
        },
    );
    player.alive = true;
    proof {
        reveal_strlit("player");
    }
    let mut objects: Vec<Object> = Vec::new();
    objects.push(player);
    let (map, room_list) = make_map(&mut objects, 1);
    proof {
        let ow = choose|orders: Seq<bool>| #[trigger] map_layout(map@, room_list@, orders);
        assert(map_layout(map@, room_list@, ow));
    }
    let mut game = Game { map, log: Vec::new(), inventory: Vec::new(), dungeon_level: 1 };
    let mut dagger = Object::new(0, 0, '-', "dagger", Color { r: 0, g: 191, b: 255 }, false);
    dagger.item = Some(Item::Sword);
    dagger.equipment = Some(
        Equipment {
            slot: Slot::LeftHand,
            equipped: true,
            max_hp_bonus: 0,
            defense_bonus: 0,
            power_bonus: 3,
        },
    );
    game.inventory.push(dagger);
    game.log.push(Message::Welcome);
    (objects, game)
}

} // verus!
