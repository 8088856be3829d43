//! Dungeon generation: level-scaled transition tables, weighted species
//! selection from a uniform draw, the monster and item spawn constructors,
//! room population, and whole-level generation.

use vstd::prelude::*;
use crate::ai::fighter_stats_bounded;
use crate::map::{
    create_room, grid_wf, h_tunnel_covers, in_bounds, is_blocked, spec_is_blocked, tile_at,
    v_tunnel_covers, Grid, Rect, Tile, MAP_HEIGHT, MAP_WIDTH,
};
use crate::object::{Ai, Color, DeathCallback, Equipment, Fighter, Item, Object, Slot};
use crate::rng::rand_range_u32;

verus! {

/// One step of a level-indexed table: at or above `level`, the table
/// yields `value` (unless a later step also applies).
#[derive(Clone, Copy, Debug, PartialEq, Eq, Structural)]
pub struct Transition {
    pub level: u32,
    pub value: u32,
}

/// The value of the last table entry whose threshold is at or below
/// `level`; 0 when none applies.
pub open spec fn spec_transition(table: Seq<Transition>, level: u32) -> u32
    decreases table.len(),
{
    if table.len() == 0 {
        0
    } else if level >= table.last().level {
        table.last().value
    } else {
        spec_transition(table.drop_last(), level)
    }
}

/// Looks `level` up in a transition table, scanning from the back.
pub fn from_dungeon_level(table: &Vec<Transition>, level: u32) -> (r: u32)
    ensures
        r == spec_transition(table@, level),
        r == 0 || exists|i: int| 0 <= i < table@.len() && (#[trigger] table@[i]).value == r,
{
    proof {
        assert(table@.take(table@.len() as int) =~= table@);
    }
    let mut k: usize = table.len();
    while k > 0
        invariant
            k <= table@.len(),
            spec_transition(table@, level) == spec_transition(table@.take(k as int), level),
        decreases k,
    {
        k = k - 1;
        proof {
            assert(table@.take(k + 1int).drop_last() =~= table@.take(k as int));
            assert(table@.take(k + 1int).last() == table@[k as int]);
        }
        if level >= table[k].level {
            return table[k].value;
        }
    }
    0
}

/// The lookup is a step function: if entry `i` applies (its threshold is
/// at or below `level`) and no later entry applies, the lookup yields
/// entry `i`'s value — for a table sorted by ascending threshold, the
/// value of the highest threshold at or below `level`; if no entry
/// applies, it yields 0.
pub proof fn lemma_transition_step_function(table: Seq<Transition>, level: u32)
    ensures
        (forall|i: int| 0 <= i < table.len() ==> level < (#[trigger] table[i]).level)
            ==> spec_transition(table, level) == 0,
        forall|i: int|
            0 <= i < table.len() && level >= (#[trigger] table[i]).level && (forall|j: int|
                i < j < table.len() ==> level < (#[trigger] table[j]).level) ==> spec_transition(
                table,
                level,
            ) == table[i].value,
    decreases table.len(),
{
    if table.len() > 0 {
        lemma_transition_step_function(table.drop_last(), level);
        if level >= table.last().level {
        } else {
            assert forall|i: int|
                0 <= i < table.len() && level >= (#[trigger] table[i]).level && (forall|j: int|
                    i < j < table.len() ==> level < (#[trigger] table[j]).level) implies spec_transition(
                table,
                level,
            ) == table[i].value by {
                assert(i < table.len() - 1);
                assert(table.drop_last()[i] == table[i]);
                assert(forall|j: int|
                    i < j < table.drop_last().len() ==> level < (#[trigger] table.drop_last()[j]).level);
            }
        }
    }
}

/// Sum of the first `k` weights.
pub open spec fn weight_prefix_sum(ws: Seq<u32>, k: int) -> int
    decreases k,
{
    if k <= 0 {
        0
    } else {
        weight_prefix_sum(ws, k - 1) + ws[k - 1]
    }
}

/// Prefix sums of nonnegative weights grow monotonically.
pub proof fn lemma_weight_prefix_mono(ws: Seq<u32>, a: int, b: int)
    requires
        0 <= a <= b <= ws.len(),
    ensures
        weight_prefix_sum(ws, a) <= weight_prefix_sum(ws, b),
    decreases b - a,
{
    if a < b {
        lemma_weight_prefix_mono(ws, a, b - 1);
    }
}

/// The bucket of a weighted table that a uniform draw falls into: the
/// index whose cumulative-weight interval contains `roll`. A zero-weight
/// entry has an empty interval and is never chosen.
pub fn weighted_index(weights: &Vec<u32>, roll: u32) -> (r: usize)
    requires
        weight_prefix_sum(weights@, weights@.len() as int) <= u32::MAX,
        roll < weight_prefix_sum(weights@, weights@.len() as int),
    ensures
        r < weights@.len(),
        weight_prefix_sum(weights@, r as int) <= roll < weight_prefix_sum(weights@, r + 1),
        weights@[r as int] > 0,
{
    let mut k: usize = 0;
    let mut acc: u64 = 0;
    while k < weights.len()
        invariant
            k <= weights@.len(),
            acc == weight_prefix_sum(weights@, k as int),
            weight_prefix_sum(weights@, weights@.len() as int) <= u32::MAX,
            roll < weight_prefix_sum(weights@, weights@.len() as int),
            acc <= roll,
        decreases weights@.len() - k,
    {
        proof {
            lemma_weight_prefix_mono(weights@, k + 1, weights@.len() as int);
        }
        let next: u64 = acc + weights[k] as u64;
        if (roll as u64) < next {
            return k;
        }
        acc = next;
        k = k + 1;
    }
    proof {
        assert(false);
    }
    0
}

/// The bounds every spawned entity satisfies beyond its room: on the grid,
/// not the player, stats within the machine-width envelope, alive exactly
/// when it fights, and nothing spawned already worn.
pub open spec fn level_entity_ok(o: Object) -> bool {
    &&& in_bounds(o.x as int, o.y as int)
    &&& o.pos_ok()
    &&& !o.is_player()
    &&& fighter_stats_bounded(o)
    &&& (o.fighter matches Some(f) ==> 0 <= f.xp <= 1000000 && f.on_death == DeathCallback::Monster
        && o.alive && f.hp > 0)
    &&& (o.ai is Some ==> o.fighter is Some)
    &&& (o.equipment matches Some(e) ==> !e.equipped)
}

/// The level-scaled table for the monster cap per room.
pub open spec fn monster_count_table() -> Seq<Transition> {
    seq![
        Transition { level: 1, value: 2 },
        Transition { level: 4, value: 3 },
        Transition { level: 6, value: 5 },
        Transition { level: 10, value: 7 },
    ]
}

/// The level-scaled table for the item cap per room.
pub open spec fn item_count_table() -> Seq<Transition> {
    seq![Transition { level: 1, value: 1 }, Transition { level: 4, value: 2 }]
}

/// The component shape every spawned monster has: alive, blocking, basic
/// AI, no item or equipment, character level one.
pub open spec fn spawned_monster_shape(o: Object) -> bool {
    &&& o.alive
    &&& o.blocks
    &&& o.ai == Some(Ai::Basic)
    &&& o.item is None
    &&& o.equipment is None
    &&& o.level == 1
    &&& !o.always_visible
}

/// The exact stats and look of a spawned chicken.
pub open spec fn is_poulet(o: Object) -> bool {
    &&& o.glyph == 'p'
    &&& o.color == (Color { r: 127, g: 127, b: 127 })
    &&& o.name@ == "poulet"@
    &&& o.fighter == Some(
        Fighter {
            base_max_hp: 15,
            hp: 15,
            base_defense: 0,
            base_power: 3,
            on_death: DeathCallback::Monster,
            xp: 20,
        },
    )
}

/// The exact stats and look of a spawned orc at `level`.
pub open spec fn is_orc(o: Object, level: u32) -> bool {
    &&& o.glyph == 'o'
    &&& o.color == (Color { r: 114, g: 255, b: 114 })
    &&& o.name@ == "orc"@
    &&& o.fighter == Some(
        Fighter {
            base_max_hp: (10 + (20 + level as int) / 2) as i32,
            hp: (10 + (20 + level as int) / 2) as i32,
            base_defense: ((5 + level as int) / 2) as i32,
            base_power: (4 + (5 + level as int) / 2) as i32,
            on_death: DeathCallback::Monster,
            xp: 35,
        },
    )
}

/// The exact stats and look of a spawned troll at `level`.
pub open spec fn is_troll(o: Object, level: u32) -> bool {
    &&& o.glyph == 'T'
    &&& o.color == (Color { r: 114, g: 255, b: 114 })
    &&& o.name@ == "troll"@
    &&& o.fighter == Some(
        Fighter {
            base_max_hp: (15 + (20 + level as int) / 2) as i32,
            hp: (15 + (20 + level as int) / 2) as i32,
            base_defense: (1 + (5 + level as int) / 2) as i32,
            base_power: (5 + (5 + level as int) / 2) as i32,
            on_death: DeathCallback::Monster,
            xp: 55,
        },
    )
}

/// The exact stats and look of a spawned boss at `level`.
pub open spec fn is_boss(o: Object, level: u32) -> bool {
    &&& o.glyph == 'W'
    &&& o.color == (Color { r: 255, g: 0, b: 0 })
    &&& o.name@ == "BOSS"@
    &&& o.fighter == Some(
        Fighter {
            base_max_hp: (60 + (20 + level as int) / 2) as i32,
            hp: (60 + (20 + level as int) / 2) as i32,
            base_defense: (4 + (5 + level as int) / 2) as i32,
            base_power: (8 + (5 + level as int) / 2) as i32,
            on_death: DeathCallback::Monster,
            xp: 110,
        },
    )
}

/// A spawned monster is exactly one of the four species at this level.
pub open spec fn spawned_monster_ok(o: Object, level: u32) -> bool {
    &&& spawned_monster_shape(o)
    &&& (is_poulet(o) || is_orc(o, level) || is_troll(o, level) || is_boss(o, level))
}

/// The component shape every spawned item has: inert, non-blocking,
/// always drawn once explored.
pub open spec fn spawned_item_shape(o: Object) -> bool {
    &&& !o.alive
    &&& !o.blocks
    &&& o.fighter is None
    &&& o.ai is None
    &&& o.level == 1
    &&& o.always_visible
}

pub open spec fn is_healing_potion(o: Object) -> bool {
    &&& o.glyph == '!'
    &&& o.color == (Color { r: 127, g: 0, b: 255 })
    &&& o.name@ == "healing potion"@
    &&& o.item == Some(Item::Heal)
    &&& o.equipment is None
}

pub open spec fn is_lightning_scroll(o: Object) -> bool {
    &&& o.glyph == '#'
    &&& o.color == (Color { r: 255, g: 255, b: 114 })
    &&& o.name@ == "scroll of lightning bolt"@
    &&& o.item == Some(Item::Lightning)
    &&& o.equipment is None
}

pub open spec fn is_sword_item(o: Object) -> bool {
    &&& o.glyph == '/'
    &&& o.color == (Color { r: 0, g: 191, b: 255 })
    &&& o.name@ == "sword"@
    &&& o.item == Some(Item::Sword)
    &&& o.equipment == Some(
        Equipment {
            slot: Slot::RightHand,
            equipped: false,
            max_hp_bonus: 0,
            power_bonus: 3,
            defense_bonus: 0,
        },
    )
}

pub open spec fn is_targe_item(o: Object) -> bool {
    &&& o.glyph == '0'
    &&& o.color == (Color { r: 63, g: 0, b: 191 })
    &&& o.name@ == "targe"@
    &&& o.item == Some(Item::Targe)
    &&& o.equipment == Some(
        Equipment {
            slot: Slot::LeftHand,
            equipped: false,
            max_hp_bonus: 0,
            power_bonus: 0,
            defense_bonus: 1,
        },
    )
}

pub open spec fn is_chainmail_item(o: Object) -> bool {
    &&& o.glyph == '='
    &&& o.color == (Color { r: 196, g: 136, b: 124 })
    &&& o.name@ == "chainmail armor"@
    &&& o.item == Some(Item::Chest)
    &&& o.equipment == Some(
        Equipment {
            slot: Slot::Chest,
            equipped: false,
            max_hp_bonus: 10,
            power_bonus: 0,
            defense_bonus: 2,
        },
    )
}

/// A spawned item is exactly one of the five ground items.
pub open spec fn spawned_item_ok(o: Object) -> bool {
    &&& spawned_item_shape(o)
    &&& (is_healing_potion(o) || is_lightning_scroll(o) || is_sword_item(o) || is_targe_item(o)
        || is_chainmail_item(o))
}

/// Spawns landed only on free tiles, observably: no appended entity
/// stands on a terrain-blocked tile, and no two blocking entities share a
/// tile where at least one of the pair was appended.
pub open spec fn spawn_tiles_ok(objs1: Seq<Object>, lo: int, g: Seq<Vec<Tile>>) -> bool {
    &&& forall|i: int|
        lo <= i < objs1.len() ==> !tile_at(
            g,
            (#[trigger] objs1[i]).x as int,
            objs1[i].y as int,
        ).blocked
    &&& forall|i: int, j: int|
        lo <= i < objs1.len() && 0 <= j < objs1.len() && i != j && (#[trigger] objs1[i]).blocks
            && (#[trigger] objs1[j]).blocks ==> !(objs1[i].x == objs1[j].x && objs1[i].y
            == objs1[j].y)
}

/// The appended entities split into at most the table-valued number of
/// monsters followed by at most the table-valued number of items, each
/// equal to one spawn constructor's result.
pub open spec fn population_split_ok(
    objs0: Seq<Object>,
    objs1: Seq<Object>,
    level: u32,
    split: int,
) -> bool {
    &&& objs0.len() <= split <= objs1.len()
    &&& split - objs0.len() <= spec_transition(monster_count_table(), level)
    &&& objs1.len() - split <= spec_transition(item_count_table(), level)
    &&& forall|i: int|
        objs0.len() <= i < split ==> spawned_monster_ok(#[trigger] objs1[i], level)
    &&& forall|i: int| split <= i < objs1.len() ==> spawned_item_ok(#[trigger] objs1[i])
}

/// Some split of the appended entities satisfies `population_split_ok`.
pub open spec fn population_ok(
    objs0: Seq<Object>,
    objs1: Seq<Object>,
    level: u32,
) -> bool {
    exists|split: int| #[trigger] population_split_ok(objs0, objs1, level, split)
}

/// A chicken: weak, unscaled early-game prey.
pub fn make_poulet(x: i32, y: i32) -> (o: Object)
    ensures
        o == (Object {
            x,
            y,
            glyph: 'p',
            color: (Color { r: 127, g: 127, b: 127 }),
            name: o.name,
            blocks: true,
            alive: false,
            fighter: Some(
                Fighter {
                    base_max_hp: 15,
                    hp: 15,
                    base_defense: 0,
                    base_power: 3,
                    on_death: DeathCallback::Monster,
                    xp: 20,
                },
            ),
            ai: Some(Ai::Basic),
            item: None,
            level: 1,
            equipment: None,
            always_visible: false,
        }),
        o.name@ == "poulet"@,
        !o.is_player(),
{
    let mut poulet = Object::new(x, y, 'p', "poulet", Color { r: 127, g: 127, b: 127 }, true);
    poulet.fighter = Some(
        Fighter {
            base_max_hp: 15,
            hp: 15,
            base_defense: 0,
            base_power: 3,
            on_death: DeathCallback::Monster,
            xp: 20,
        },
    );
    poulet.ai = Some(Ai::Basic);
    proof {
        reveal_strlit("poulet");
        reveal_strlit("player");
        assert("poulet"@.len() == 6);
        assert("player"@.len() == 6);
        assert("poulet"@[1] == 'o');
        assert("player"@[1] == 'l');
        assert("poulet"@ != "player"@);
    }
    poulet
}

/// An orc, scaled with the dungeon level.
pub fn make_orc(x: i32, y: i32, level: u32) -> (o: Object)
    requires
        1 <= level <= 1000000,
    ensures
        o == (Object {
            x,
            y,
            glyph: 'o',
            color: (Color { r: 114, g: 255, b: 114 }),
            name: o.name,
            blocks: true,
            alive: false,
            fighter: Some(
                Fighter {
                    base_max_hp: (10 + (20 + level as int) / 2) as i32,
                    hp: (10 + (20 + level as int) / 2) as i32,
                    base_defense: ((5 + level as int) / 2) as i32,
                    base_power: (4 + (5 + level as int) / 2) as i32,
                    on_death: DeathCallback::Monster,
                    xp: 35,
                },
            ),
            ai: Some(Ai::Basic),
            item: None,
            level: 1,
            equipment: None,
            always_visible: false,
        }),
        o.name@ == "orc"@,
        !o.is_player(),
{
    let mut orc = Object::new(x, y, 'o', "orc", Color { r: 114, g: 255, b: 114 }, true);
    let hp_multiplier: i32 = (20 + level as i32) / 2;
    let attack_multiplier: i32 = (5 + level as i32) / 2;
    let defense_multiplier: i32 = (5 + level as i32) / 2;
    orc.fighter = Some(
        Fighter {
            base_max_hp: 10 + hp_multiplier,
            hp: 10 + hp_multiplier,
            base_defense: defense_multiplier,
            base_power: 4 + attack_multiplier,
            on_death: DeathCallback::Monster,
            xp: 35,
        },
    );
    orc.ai = Some(Ai::Basic);
    proof {
        reveal_strlit("orc");
        reveal_strlit("player");
        assert("orc"@.len() == 3);
        assert("player"@.len() == 6);
        assert("orc"@ != "player"@);
    }
    orc
}

/// A troll, scaled with the dungeon level.
pub fn make_troll(x: i32, y: i32, level: u32) -> (o: Object)
    requires
        1 <= level <= 1000000,
    ensures
        o == (Object {
            x,
            y,
            glyph: 'T',
            color: (Color { r: 114, g: 255, b: 114 }),
            name: o.name,
            blocks: true,
            alive: false,
            fighter: Some(
                Fighter {
                    base_max_hp: (15 + (20 + level as int) / 2) as i32,
                    hp: (15 + (20 + level as int) / 2) as i32,
                    base_defense: (1 + (5 + level as int) / 2) as i32,
                    base_power: (5 + (5 + level as int) / 2) as i32,
                    on_death: DeathCallback::Monster,
                    xp: 55,
                },
            ),
            ai: Some(Ai::Basic),
            item: None,
            level: 1,
            equipment: None,
            always_visible: false,
        }),
        o.name@ == "troll"@,
        !o.is_player(),
{
    let mut troll = Object::new(x, y, 'T', "troll", Color { r: 114, g: 255, b: 114 }, true);
    let hp_multiplier: i32 = (20 + level as i32) / 2;
    let attack_multiplier: i32 = (5 + level as i32) / 2;
    let defense_multiplier: i32 = (5 + level as i32) / 2;
    troll.fighter = Some(
        Fighter {
            base_max_hp: 15 + hp_multiplier,
            hp: 15 + hp_multiplier,
            base_defense: 1 + defense_multiplier,
            base_power: 5 + attack_multiplier,
            on_death: DeathCallback::Monster,
            xp: 55,
        },
    );
    troll.ai = Some(Ai::Basic);
    proof {
        reveal_strlit("troll");
        reveal_strlit("player");
        assert("troll"@.len() == 5);
        assert("player"@.len() == 6);
        assert("troll"@ != "player"@);
    }
    troll
}

/// The boss, scaled with the dungeon level.
pub fn make_boss(x: i32, y: i32, level: u32) -> (o: Object)
    requires
        1 <= level <= 1000000,
    ensures
        o == (Object {
            x,
            y,
            glyph: 'W',
            color: (Color { r: 255, g: 0, b: 0 }),
            name: o.name,
            blocks: true,
            alive: false,
            fighter: Some(
                Fighter {
                    base_max_hp: (60 + (20 + level as int) / 2) as i32,
                    hp: (60 + (20 + level as int) / 2) as i32,
                    base_defense: (4 + (5 + level as int) / 2) as i32,
                    base_power: (8 + (5 + level as int) / 2) as i32,
                    on_death: DeathCallback::Monster,
                    xp: 110,
                },
            ),
            ai: Some(Ai::Basic),
            item: None,
            level: 1,
            equipment: None,
            always_visible: false,
        }),
        o.name@ == "BOSS"@,
        !o.is_player(),
{
    let mut boss = Object::new(x, y, 'W', "BOSS", Color { r: 255, g: 0, b: 0 }, true);
    let hp_multiplier: i32 = (20 + level as i32) / 2;
    let attack_multiplier: i32 = (5 + level as i32) / 2;
    let defense_multiplier: i32 = (5 + level as i32) / 2;
    boss.fighter = Some(
        Fighter {
            base_max_hp: 60 + hp_multiplier,
            hp: 60 + hp_multiplier,
            base_defense: 4 + defense_multiplier,
            base_power: 8 + attack_multiplier,
            on_death: DeathCallback::Monster,
            xp: 110,
        },
    );
    boss.ai = Some(Ai::Basic);
    proof {
        reveal_strlit("BOSS");
        reveal_strlit("player");
        assert("BOSS"@.len() == 4);
        assert("player"@.len() == 6);
        assert("BOSS"@ != "player"@);
    }
    boss
}

/// A healing potion on the ground.
pub fn make_healing_potion(x: i32, y: i32) -> (o: Object)
    ensures
        o == (Object {
            x,
            y,
            glyph: '!',
            color: (Color { r: 127, g: 0, b: 255 }),
            name: o.name,
            blocks: false,
            alive: false,
            fighter: None,
            ai: None,
            item: Some(Item::Heal),
            level: 1,
            equipment: None,
            always_visible: false,
        }),
        o.name@ == "healing potion"@,
        !o.is_player(),
{
    let mut object = Object::new(x, y, '!', "healing potion", Color { r: 127, g: 0, b: 255 }, false);
    object.item = Some(Item::Heal);
    proof {
        reveal_strlit("healing potion");
        reveal_strlit("player");
        assert("healing potion"@.len() == 14);
        assert("player"@.len() == 6);
        assert("healing potion"@ != "player"@);
    }
    object
}

/// A scroll of lightning bolt on the ground.
pub fn make_lightning_scroll(x: i32, y: i32) -> (o: Object)
    ensures
        o == (Object {
            x,
            y,
            glyph: '#',
            color: (Color { r: 255, g: 255, b: 114 }),
            name: o.name,
            blocks: false,
            alive: false,
            fighter: None,
            ai: None,
            item: Some(Item::Lightning),
            level: 1,
            equipment: None,
            always_visible: false,
        }),
        o.name@ == "scroll of lightning bolt"@,
        !o.is_player(),
{
    let mut object = Object::new(
        x,
        y,
        '#',
        "scroll of lightning bolt",
        Color { r: 255, g: 255, b: 114 },
        false,
    );
    object.item = Some(Item::Lightning);
    proof {
        reveal_strlit("scroll of lightning bolt");
        reveal_strlit("player");
        assert("scroll of lightning bolt"@.len() == 24);
        assert("player"@.len() == 6);
        assert("scroll of lightning bolt"@ != "player"@);
    }
    object
}

/// A sword on the ground: a right-hand weapon granting +3 power.
pub fn make_sword(x: i32, y: i32) -> (o: Object)
    ensures
        o == (Object {
            x,
            y,
            glyph: '/',
            color: (Color { r: 0, g: 191, b: 255 }),
            name: o.name,
            blocks: false,
            alive: false,
            fighter: None,
            ai: None,
            item: Some(Item::Sword),
            level: 1,
            equipment: Some(
                Equipment {
                    slot: Slot::RightHand,
                    equipped: false,
                    max_hp_bonus: 0,
                    power_bonus: 3,
                    defense_bonus: 0,
                },
            ),
            always_visible: false,
        }),
        o.name@ == "sword"@,
        !o.is_player(),
{
    let mut object = Object::new(x, y, '/', "sword", Color { r: 0, g: 191, b: 255 }, false);
    object.item = Some(Item::Sword);
    object.equipment = Some(
        Equipment {
            slot: Slot::RightHand,
            equipped: false,
            max_hp_bonus: 0,
            power_bonus: 3,
            defense_bonus: 0,
        },
    );
    proof {
        reveal_strlit("sword");
        reveal_strlit("player");
        assert("sword"@.len() == 5);
        assert("player"@.len() == 6);
        assert("sword"@ != "player"@);
    }
    object
}

/// Chainmail armor on the ground: chest equipment granting +2 defense and
/// +10 maximum hp.
pub fn make_chainmail(x: i32, y: i32) -> (o: Object)
    ensures
        o == (Object {
            x,
            y,
            glyph: '=',
            color: (Color { r: 196, g: 136, b: 124 }),
            name: o.name,
            blocks: false,
            alive: false,
            fighter: None,
            ai: None,
            item: Some(Item::Chest),
            level: 1,
            equipment: Some(
                Equipment {
                    slot: Slot::Chest,
                    equipped: false,
                    max_hp_bonus: 10,
                    power_bonus: 0,
                    defense_bonus: 2,
                },
            ),
            always_visible: false,
        }),
        o.name@ == "chainmail armor"@,
        !o.is_player(),
{
    let mut object = Object::new(
        x,
        y,
        '=',
        "chainmail armor",
        Color { r: 196, g: 136, b: 124 },
        false,
    );
    object.item = Some(Item::Chest);
    object.equipment = Some(
        Equipment {
            slot: Slot::Chest,
            equipped: false,
            max_hp_bonus: 10,
            power_bonus: 0,
            defense_bonus: 2,
        },
    );
    proof {
        reveal_strlit("chainmail armor");
        reveal_strlit("player");
        assert("chainmail armor"@.len() == 15);
        assert("player"@.len() == 6);
        assert("chainmail armor"@ != "player"@);
    }
    object
}

/// A targe on the ground: a left-hand shield granting +1 defense.
pub fn make_targe(x: i32, y: i32) -> (o: Object)
    ensures
        o == (Object {
            x,
            y,
            glyph: '0',
            color: (Color { r: 63, g: 0, b: 191 }),
            name: o.name,
            blocks: false,
            alive: false,
            fighter: None,
            ai: None,
            item: Some(Item::Targe),
            level: 1,
            equipment: Some(
                Equipment {
                    slot: Slot::LeftHand,
                    equipped: false,
                    max_hp_bonus: 0,
                    power_bonus: 0,
                    defense_bonus: 1,
                },
            ),
            always_visible: false,
        }),
        o.name@ == "targe"@,
        !o.is_player(),
{
    let mut object = Object::new(x, y, '0', "targe", Color { r: 63, g: 0, b: 191 }, false);
    object.item = Some(Item::Targe);
    object.equipment = Some(
        Equipment {
            slot: Slot::LeftHand,
            equipped: false,
            max_hp_bonus: 0,
            power_bonus: 0,
            defense_bonus: 1,
        },
    );
    proof {
        reveal_strlit("targe");
        reveal_strlit("player");
        assert("targe"@.len() == 5);
        assert("player"@.len() == 6);
        assert("targe"@ != "player"@);
    }
    object
}

/// Whether room population left the entity store as it promises: all old
/// entries untouched, every appended entry inside the room and within the
/// spawned-entity bounds.
pub open spec fn placed_ok(objs0: Seq<Object>, objs1: Seq<Object>, room: Rect) -> bool {
    &&& objs1.len() >= objs0.len()
    &&& objs1.take(objs0.len() as int) == objs0
    &&& forall|i: int|
        objs0.len() <= i < objs1.len() ==> room.spec_interior(
            (#[trigger] objs1[i]).x as int,
            objs1[i].y as int,
        ) && level_entity_ok(objs1[i])
}

/// Populates one room: up to a level-scaled number of monsters and items,
/// each species and item kind drawn from a level-scaled weighted table,
/// each spawn skipped (not retried) when its chosen tile is blocked by
/// terrain or a blocking entity.
pub fn place_object(room: Rect, map: &Grid, objects: &mut Vec<Object>, level: u32)
    requires
        grid_wf(map@),
        1 <= level <= 1000000,
        0 <= room.x1,
        room.x2 < MAP_WIDTH,
        0 <= room.y1,
        room.y2 < MAP_HEIGHT,
        room.x1 + 1 < room.x2,
        room.y1 + 1 < room.y2,
    ensures
        placed_ok(old(objects)@, final(objects)@, room),
        spawn_tiles_ok(final(objects)@, old(objects)@.len() as int, map@),
        population_ok(old(objects)@, final(objects)@, level),
{
    proof {
        assert(objects@.take(objects@.len() as int) =~= objects@);
    }
    let monster_count_tbl: Vec<Transition> = vec![
        Transition { level: 1, value: 2 },
        Transition { level: 4, value: 3 },
        Transition { level: 6, value: 5 },
        Transition { level: 10, value: 7 },
    ];
    let max_monsters = from_dungeon_level(&monster_count_tbl, level);
    proof {
        assert(monster_count_tbl@ =~= monster_count_table());
    }
    let poulet_chance = from_dungeon_level(
        &vec![
            Transition { level: 1, value: 60 },
            Transition { level: 2, value: 30 },
            Transition { level: 4, value: 0 },
        ],
        level,
    );
    let orc_chance = from_dungeon_level(
        &vec![Transition { level: 2, value: 30 }, Transition { level: 5, value: 30 }],
        level,
    );
    let troll_chance = from_dungeon_level(
        &vec![
            Transition { level: 4, value: 15 },
            Transition { level: 5, value: 30 },
            Transition { level: 7, value: 60 },
        ],
        level,
    );
    let boss_chance = from_dungeon_level(
        &vec![
            Transition { level: 3, value: 10 },
            Transition { level: 5, value: 15 },
            Transition { level: 7, value: 20 },
        ],
        level,
    );
    assert(max_monsters <= 7);
    assert(poulet_chance <= 60 && orc_chance <= 30 && troll_chance <= 60 && boss_chance <= 20);
    let monster_weights: Vec<u32> = vec![poulet_chance, orc_chance, troll_chance, boss_chance];
    let monster_total: u32 = poulet_chance + orc_chance + troll_chance + boss_chance;
    proof {
        assert(monster_weights@ =~= seq![poulet_chance, orc_chance, troll_chance, boss_chance]);
        assert(weight_prefix_sum(monster_weights@, 0) == 0);
        assert(weight_prefix_sum(monster_weights@, 1) == poulet_chance);
        assert(weight_prefix_sum(monster_weights@, 2) == poulet_chance + orc_chance);
        assert(weight_prefix_sum(monster_weights@, 3) == poulet_chance + orc_chance
            + troll_chance);
        assert(weight_prefix_sum(monster_weights@, 4) == monster_total);
    }
    let num_monsters = rand_range_u32(0, max_monsters + 1);
    let mut n: u32 = 0;
    while n < num_monsters
        invariant
            grid_wf(map@),
            1 <= level <= 1000000,
            0 <= room.x1,
            room.x2 < MAP_WIDTH,
            0 <= room.y1,
            room.y2 < MAP_HEIGHT,
            room.x1 + 1 < room.x2,
            room.y1 + 1 < room.y2,
            monster_weights@.len() == 4,
            weight_prefix_sum(monster_weights@, 4) == monster_total,
            monster_total <= 240,
            n <= num_monsters,
            num_monsters <= spec_transition(monster_count_table(), level),
            objects@.len() <= old(objects)@.len() + n,
            placed_ok(old(objects)@, objects@, room),
            spawn_tiles_ok(objects@, old(objects)@.len() as int, map@),
            forall|i: int|
                old(objects)@.len() <= i < objects@.len() ==> spawned_monster_ok(
                    #[trigger] objects@[i],
                    level,
                ),
        decreases num_monsters - n,
    {
        let x: i32 = rand_range_u32((room.x1 + 1) as u32, room.x2 as u32) as i32;
        let y: i32 = rand_range_u32((room.y1 + 1) as u32, room.y2 as u32) as i32;
        if monster_total > 0 && !is_blocked(x, y, map, objects) {
            let roll = rand_range_u32(0, monster_total);
            let idx = weighted_index(&monster_weights, roll);
            let mut monster = if idx == 0 {
                make_poulet(x, y)
            } else if idx == 1 {
                make_orc(x, y, level)
            } else if idx == 2 {
                make_troll(x, y, level)
            } else {
                make_boss(x, y, level)
            };
            monster.alive = true;
            let ghost pre = objects@;
            objects.push(monster);
            proof {
                assert(objects@.take(old(objects)@.len() as int) =~= pre.take(
                    old(objects)@.len() as int,
                ));
                assert(spawned_monster_ok(monster, level));
                let lo = old(objects)@.len() as int;
                assert forall|i: int, j: int|
                    lo <= i < objects@.len() && 0 <= j < objects@.len() && i != j
                        && (#[trigger] objects@[i]).blocks && (#[trigger] objects@[j]).blocks
                        implies !(objects@[i].x == objects@[j].x && objects@[i].y
                        == objects@[j].y) by {
                    if i < pre.len() && j < pre.len() {
                        assert(objects@[i] == pre[i]);
                        assert(objects@[j] == pre[j]);
                    } else if i == pre.len() {
                        assert(objects@[i] == monster);
                        assert(objects@[j] == pre[j]);
                        assert(!spec_is_blocked(x as int, y as int, map@, pre));
                    } else {
                        assert(objects@[j] == monster);
                        assert(objects@[i] == pre[i]);
                        assert(!spec_is_blocked(x as int, y as int, map@, pre));
                    }
                }
            }
        }
        n = n + 1;
    }
    let item_count_tbl: Vec<Transition> = vec![
        Transition { level: 1, value: 1 },
        Transition { level: 4, value: 2 },
    ];
    let max_items = from_dungeon_level(&item_count_tbl, level);
    proof {
        assert(item_count_tbl@ =~= item_count_table());
    }
    let lightning_chance = from_dungeon_level(&vec![Transition { level: 4, value: 10 }], level);
    let sword_chance = from_dungeon_level(&vec![Transition { level: 3, value: 5 }], level);
    let targe_chance = from_dungeon_level(&vec![Transition { level: 6, value: 5 }], level);
    let chest_chance = from_dungeon_level(&vec![Transition { level: 8, value: 5 }], level);
    assert(max_items <= 2);
    assert(lightning_chance <= 10 && sword_chance <= 5 && targe_chance <= 5 && chest_chance <= 5);
    let item_weights: Vec<u32> = vec![
        35u32,
        lightning_chance,
        sword_chance,
        targe_chance,
        chest_chance,
    ];
    let item_total: u32 = 35 + lightning_chance + sword_chance + targe_chance + chest_chance;
    proof {
        assert(item_weights@ =~= seq![
            35u32,
            lightning_chance,
            sword_chance,
            targe_chance,
            chest_chance,
        ]);
        assert(weight_prefix_sum(item_weights@, 0) == 0);
        assert(weight_prefix_sum(item_weights@, 1) == 35);
        assert(weight_prefix_sum(item_weights@, 2) == 35 + lightning_chance);
        assert(weight_prefix_sum(item_weights@, 3) == 35 + lightning_chance + sword_chance);
        assert(weight_prefix_sum(item_weights@, 4) == 35 + lightning_chance + sword_chance
            + targe_chance);
        assert(weight_prefix_sum(item_weights@, 5) == item_total);
    }
    let ghost mid = objects@;
    proof {
        assert(objects@.take(objects@.len() as int) =~= objects@);
    }
    let num_items = rand_range_u32(0, max_items + 1);
    let mut m: u32 = 0;
    while m < num_items
        invariant
            grid_wf(map@),
            1 <= level <= 1000000,
            0 <= room.x1,
            room.x2 < MAP_WIDTH,
            0 <= room.y1,
            room.y2 < MAP_HEIGHT,
            room.x1 + 1 < room.x2,
            room.y1 + 1 < room.y2,
            item_weights@.len() == 5,
            weight_prefix_sum(item_weights@, 5) == item_total,
            35 <= item_total <= 60,
            m <= num_items,
            num_items <= spec_transition(item_count_table(), level),
            old(objects)@.len() <= mid.len(),
            mid.len() - old(objects)@.len() <= spec_transition(monster_count_table(), level),
            objects@.len() <= mid.len() + m,
            placed_ok(mid, objects@, room),
            placed_ok(old(objects)@, mid, room),
            placed_ok(old(objects)@, objects@, room),
            spawn_tiles_ok(objects@, old(objects)@.len() as int, map@),
            forall|i: int|
                old(objects)@.len() <= i < mid.len() ==> spawned_monster_ok(
                    #[trigger] objects@[i],
                    level,
                ),
            forall|i: int|
                mid.len() <= i < objects@.len() ==> spawned_item_ok(#[trigger] objects@[i]),
        decreases num_items - m,
    {
        let x: i32 = rand_range_u32((room.x1 + 1) as u32, room.x2 as u32) as i32;
        let y: i32 = rand_range_u32((room.y1 + 1) as u32, room.y2 as u32) as i32;
        if !is_blocked(x, y, map, objects) {
            let roll = rand_range_u32(0, item_total);
            let idx = weighted_index(&item_weights, roll);
            let mut item = if idx == 0 {
                make_healing_potion(x, y)
            } else if idx == 1 {
                make_lightning_scroll(x, y)
            } else if idx == 2 {
                make_sword(x, y)
            } else if idx == 3 {
                make_targe(x, y)
            } else {
                make_chainmail(x, y)
            };
            item.always_visible = true;
            let ghost pre = objects@;
            objects.push(item);
            proof {
                assert(objects@.take(old(objects)@.len() as int) =~= pre.take(
                    old(objects)@.len() as int,
                ));
                assert(objects@.take(mid.len() as int) =~= pre.take(mid.len() as int));
                assert(spawned_item_ok(item));
                let lo = old(objects)@.len() as int;
                assert forall|i: int, j: int|
                    lo <= i < objects@.len() && 0 <= j < objects@.len() && i != j
                        && (#[trigger] objects@[i]).blocks && (#[trigger] objects@[j]).blocks
                        implies !(objects@[i].x == objects@[j].x && objects@[i].y
                        == objects@[j].y) by {
                    if i < pre.len() && j < pre.len() {
                        assert(objects@[i] == pre[i]);
                        assert(objects@[j] == pre[j]);
                    } else if i == pre.len() {
                        assert(objects@[i] == item);
                    } else {
                        assert(objects@[j] == item);
                    }
                }
            }
        }
        m = m + 1;
    }
    proof {
        assert(population_split_ok(old(objects)@, objects@, level, mid.len() as int));
    }
}

/// The corner bounds every accepted room satisfies: strictly inside the
/// grid with a carvable interior.
pub open spec fn room_geometry_ok(r: Rect) -> bool {
    &&& 0 <= r.x1
    &&& r.x1 + 1 < r.x2
    &&& r.x2 < MAP_WIDTH
    &&& 0 <= r.y1
    &&& r.y1 + 1 < r.y2
    &&& r.y2 < MAP_HEIGHT
}

/// No two accepted rooms' bounding rectangles intersect.
pub open spec fn rooms_disjoint(rooms: Seq<Rect>) -> bool {
    forall|i: int, j: int|
        0 <= i < j < rooms.len() ==> !(#[trigger] rooms[i]).spec_intersect(#[trigger] rooms[j])
}

/// Each side of an accepted room spans the configured 6 to 10 cells.
pub open spec fn room_size_ok(r: Rect) -> bool {
    &&& 6 <= r.x2 - r.x1 <= 10
    &&& 6 <= r.y2 - r.y1 <= 10
}

/// The tiles one L-corridor covers between two room centres, in the given
/// axis order: the first leg leaves the previous centre, the second
/// enters the new one.
pub open spec fn tunnel_covers(
    c0: (int, int),
    c1: (int, int),
    horiz_first: bool,
    x: int,
    y: int,
) -> bool {
    if horiz_first {
        h_tunnel_covers(c0.0, c1.0, c0.1, x, y) || v_tunnel_covers(c0.1, c1.1, c1.0, x, y)
    } else {
        v_tunnel_covers(c0.1, c1.1, c0.0, x, y) || h_tunnel_covers(c0.0, c1.0, c1.1, x, y)
    }
}

/// Whether (x, y) lies strictly inside some accepted room.
pub open spec fn rooms_cover(rooms: Seq<Rect>, x: int, y: int) -> bool {
    exists|k: int| 0 <= k < rooms.len() && (#[trigger] rooms[k]).spec_interior(x, y)
}

/// Whether (x, y) lies on the corridor carved between some consecutive
/// pair of accepted rooms, in that pair's chosen axis order.
pub open spec fn corridors_cover(rooms: Seq<Rect>, orders: Seq<bool>, x: int, y: int) -> bool {
    exists|k: int|
        1 <= k < rooms.len() && tunnel_covers(
            (#[trigger] rooms[k - 1]).spec_center(),
            rooms[k].spec_center(),
            orders[k],
            x,
            y,
        )
}

/// The grid is carved exactly along the accepted rooms and their chosen
/// corridors: empty there, wall everywhere else.
pub open spec fn carved_exactly(g: Seq<Vec<Tile>>, rooms: Seq<Rect>, orders: Seq<bool>) -> bool {
    forall|x: int, y: int|
        in_bounds(x, y) ==> tile_at(g, x, y) == (if rooms_cover(rooms, x, y) || corridors_cover(
            rooms,
            orders,
            x,
            y,
        ) {
            Tile { blocked: false, block_sight: false, explored: false }
        } else {
            Tile { blocked: true, block_sight: true, explored: false }
        })
}

/// The level layout generation promises of its grid: one to thirty rooms,
/// each 6-10 cells per side, within the grid and pairwise disjoint, and
/// the grid carved exactly along them and one L-corridor per consecutive
/// pair of room centres.
pub open spec fn map_layout(g: Seq<Vec<Tile>>, rooms: Seq<Rect>, orders: Seq<bool>) -> bool {
    &&& 1 <= rooms.len() <= 30
    &&& forall|i: int| 0 <= i < rooms.len() ==> room_geometry_ok(#[trigger] rooms[i])
    &&& forall|i: int| 0 <= i < rooms.len() ==> room_size_ok(#[trigger] rooms[i])
    &&& rooms_disjoint(rooms)
    &&& orders.len() == rooms.len()
    &&& carved_exactly(g, rooms, orders)
}

/// How accepting one more room extends the covered tiles: its interior
/// joins the room cover, and — past the first room — the corridor from
/// the previous last centre joins the corridor cover.
pub proof fn lemma_cover_push(
    rooms: Seq<Rect>,
    orders: Seq<bool>,
    nr: Rect,
    ord: bool,
    x: int,
    y: int,
)
    requires
        orders.len() == rooms.len(),
    ensures
        rooms_cover(rooms.push(nr), x, y) == (rooms_cover(rooms, x, y) || nr.spec_interior(x, y)),
        rooms.len() >= 1 ==> corridors_cover(rooms.push(nr), orders.push(ord), x, y) == (
        corridors_cover(rooms, orders, x, y) || tunnel_covers(
            rooms[rooms.len() - 1].spec_center(),
            nr.spec_center(),
            ord,
            x,
            y,
        )),
        rooms.len() == 0 ==> !corridors_cover(rooms.push(nr), orders.push(ord), x, y),
{
    let rs1 = rooms.push(nr);
    let os1 = orders.push(ord);
    if rooms_cover(rs1, x, y) {
        let k = choose|k: int| 0 <= k < rs1.len() && (#[trigger] rs1[k]).spec_interior(x, y);
        if k < rooms.len() {
            assert(rs1[k] == rooms[k]);
            assert(rooms_cover(rooms, x, y));
        } else {
            assert(rs1[k] == nr);
        }
    }
    if rooms_cover(rooms, x, y) {
        let k = choose|k: int| 0 <= k < rooms.len() && (#[trigger] rooms[k]).spec_interior(x, y);
        assert(rs1[k] == rooms[k]);
        assert(rooms_cover(rs1, x, y));
    }
    if nr.spec_interior(x, y) {
        assert(rs1[rooms.len() as int] == nr);
        assert(rooms_cover(rs1, x, y));
    }
    if corridors_cover(rs1, os1, x, y) {
        let k = choose|k: int|
            1 <= k < rs1.len() && tunnel_covers(
                (#[trigger] rs1[k - 1]).spec_center(),
                rs1[k].spec_center(),
                os1[k],
                x,
                y,
            );
        if k < rooms.len() {
            assert(rs1[k - 1] == rooms[k - 1]);
            assert(rs1[k] == rooms[k]);
            assert(os1[k] == orders[k]);
            assert(corridors_cover(rooms, orders, x, y));
        } else {
            assert(k == rooms.len());
            assert(rs1[k - 1] == rooms[k - 1]);
            assert(rs1[k] == nr);
            assert(os1[k] == ord);
        }
    }
    if corridors_cover(rooms, orders, x, y) {
        let k = choose|k: int|
            1 <= k < rooms.len() && tunnel_covers(
                (#[trigger] rooms[k - 1]).spec_center(),
                rooms[k].spec_center(),
                orders[k],
                x,
                y,
            );
        assert(rs1[k - 1] == rooms[k - 1]);
        assert(rs1[k] == rooms[k]);
        assert(os1[k] == orders[k]);
        assert(corridors_cover(rs1, os1, x, y));
    }
    if rooms.len() >= 1 && tunnel_covers(
        rooms[rooms.len() - 1].spec_center(),
        nr.spec_center(),
        ord,
        x,
        y,
    ) {
        let k = rooms.len() as int;
        assert(rs1[k - 1] == rooms[k - 1]);
        assert(rs1[k] == nr);
        assert(os1[k] == ord);
        assert(corridors_cover(rs1, os1, x, y));
    }
}

/// Generates a dungeon level: a fully-walled grid with up to a fixed
/// number of non-overlapping rooms carved into it and connected by
/// L-shaped corridors; the entity store is truncated to the player, the
/// player is placed at the first room's centre, each room is populated,
/// and a stairs marker is appended at the last room's centre. Returns the
/// grid and the accepted rooms.
pub fn make_map(objects: &mut Vec<Object>, level: u32) -> (r: (Grid, Vec<Rect>))
    requires
        old(objects)@.len() >= 1,
        1 <= level <= 1000000,
    ensures
        grid_wf(r.0@),
        r.1@.len() >= 1,
        forall|i: int| 0 <= i < r.1@.len() ==> room_geometry_ok(#[trigger] r.1@[i]),
        rooms_disjoint(r.1@),
        exists|orders: Seq<bool>| #[trigger] map_layout(r.0@, r.1@, orders),
        final(objects)@.len() >= 2,
        final(objects)@[0] == (Object {
            x: final(objects)@[0].x,
            y: final(objects)@[0].y,
            ..old(objects)@[0]
        }),
        (final(objects)@[0].x as int, final(objects)@[0].y as int) == r.1@[0].spec_center(),
        r.1@[0].spec_interior(final(objects)@[0].x as int, final(objects)@[0].y as int),
        !tile_at(r.0@, final(objects)@[0].x as int, final(objects)@[0].y as int).blocked,
        forall|i: int| 1 <= i < final(objects)@.len() ==> level_entity_ok(#[trigger] final(objects)@[i]),
        ({
            let stairs = final(objects)@.last();
            let c = r.1@[r.1@.len() - 1].spec_center();
            &&& stairs.name@ == "stairs"@
            &&& stairs.glyph == '<'
            &&& (stairs.x as int, stairs.y as int) == c
            &&& !stairs.blocks
            &&& !stairs.alive
            &&& stairs.fighter is None
            &&& stairs.ai is None
            &&& stairs.item is None
            &&& stairs.equipment is None
            &&& stairs.always_visible
        }),
{
    let mut map: Grid = Vec::new();
    let mut cx: usize = 0;
    while cx < MAP_WIDTH as usize
        invariant
            map@.len() == cx <= MAP_WIDTH,
            forall|i: int| 0 <= i < map@.len() ==> (#[trigger] map@[i])@.len() == MAP_HEIGHT,
            forall|i: int, j: int|
                0 <= i < map@.len() && 0 <= j < MAP_HEIGHT ==> #[trigger] tile_at(map@, i, j)
                    == (Tile { blocked: true, block_sight: true, explored: false }),
        decreases MAP_WIDTH as usize - cx,
    {
        let mut col: Vec<Tile> = Vec::new();
        let mut cy: usize = 0;
        while cy < MAP_HEIGHT as usize
            invariant
                col@.len() == cy <= MAP_HEIGHT,
                forall|j: int|
                    0 <= j < col@.len() ==> #[trigger] col@[j] == (Tile {
                        blocked: true,
                        block_sight: true,
                        explored: false,
                    }),
            decreases MAP_HEIGHT as usize - cy,
        {
            col.push(Tile::wall());
            cy = cy + 1;
        }
        let ghost cols_before = map@;
        map.push(col);
        proof {
            assert forall|i: int, j: int|
                0 <= i < map@.len() && 0 <= j < MAP_HEIGHT implies #[trigger] tile_at(map@, i, j)
                == (Tile { blocked: true, block_sight: true, explored: false }) by {
                if i < cols_before.len() {
                    assert(map@[i] == cols_before[i]);
                    assert(tile_at(cols_before, i, j) == (Tile {
                        blocked: true,
                        block_sight: true,
                        explored: false,
                    }));
                } else {
                    assert(map@[i]@ == col@);
                }
            }
        }
        cx = cx + 1;
    }
    objects.truncate(1);
    proof {
        assert(carved_exactly(map@, Seq::<Rect>::empty(), Seq::<bool>::empty()));
    }
    let mut rooms: Vec<Rect> = Vec::new();
    let ghost mut orders: Seq<bool> = Seq::empty();
    let mut attempt: u32 = 0;
    while attempt < 30
        invariant
            grid_wf(map@),
            1 <= level <= 1000000,
            attempt <= 30,
            attempt >= 1 ==> rooms@.len() >= 1,
            rooms@.len() <= attempt,
            orders.len() == rooms@.len(),
            forall|i: int| 0 <= i < rooms@.len() ==> room_geometry_ok(#[trigger] rooms@[i]),
            forall|i: int| 0 <= i < rooms@.len() ==> room_size_ok(#[trigger] rooms@[i]),
            rooms_disjoint(rooms@),
            carved_exactly(map@, rooms@, orders),
            objects@.len() >= 1,
            objects@[0] == (Object { x: objects@[0].x, y: objects@[0].y, ..old(objects)@[0] }),
            rooms@.len() >= 1 ==> {
                &&& (objects@[0].x as int, objects@[0].y as int) == rooms@[0].spec_center()
                &&& rooms@[0].spec_interior(objects@[0].x as int, objects@[0].y as int)
            },
            forall|i: int| 1 <= i < objects@.len() ==> level_entity_ok(#[trigger] objects@[i]),
        decreases 30 - attempt,
    {
        let w: i32 = rand_range_u32(6, 11) as i32;
        let h: i32 = rand_range_u32(6, 11) as i32;
        let x: i32 = rand_range_u32(0, (MAP_WIDTH - w) as u32) as i32;
        let y: i32 = rand_range_u32(0, (MAP_HEIGHT - h) as u32) as i32;
        let new_room = Rect::new(x, y, w, h);
        let mut failed = false;
        let mut ri: usize = 0;
        while ri < rooms.len()
            invariant_except_break
                ri <= rooms@.len(),
                !failed,
                forall|j: int| 0 <= j < ri ==> !new_room.spec_intersect(#[trigger] rooms@[j]),
            ensures
                !failed ==> forall|j: int|
                    0 <= j < rooms@.len() ==> !new_room.spec_intersect(#[trigger] rooms@[j]),
                failed ==> rooms@.len() >= 1,
            decreases rooms@.len() - ri,
        {
            if new_room.intersect_with(&rooms[ri]) {
                failed = true;
                break ;
            }
            ri = ri + 1;
        }
        if !failed {
            let ghost g0 = map@;
            let ghost rooms0 = rooms@;
            let ghost orders0 = orders;
            create_room(new_room, &mut map);
            let ghost g1 = map@;
            let ghost pre = objects@;
            place_object(new_room, &map, objects, level);
            proof {
                assert forall|i: int| 0 <= i < pre.len() implies objects@[i] == pre[i] by {
                    assert(objects@.take(pre.len() as int)[i] == pre[i]);
                }
            }
            let ghost placed = objects@;
            let ghost mut ordval = true;
            let (new_x, new_y): (i32, i32) = new_room.center();
            if rooms.len() == 0 {
                objects[0].set_pos(new_x, new_y);
                proof {
                    assert(new_room.spec_interior(new_x as int, new_y as int));
                }
            } else {
                let prev = rooms[rooms.len() - 1];
                let (prev_x, prev_y): (i32, i32) = prev.center();
                let horiz_first = crate::rng::rand_bool();
                proof {
                    ordval = horiz_first;
                }
                if horiz_first {
                    crate::map::create_h_tunnel(prev_x, new_x, prev_y, &mut map);
                    crate::map::create_v_tunnel(prev_y, new_y, new_x, &mut map);
                } else {
                    crate::map::create_v_tunnel(prev_y, new_y, prev_x, &mut map);
                    crate::map::create_h_tunnel(prev_x, new_x, new_y, &mut map);
                }
            }
            proof {
                assert forall|i: int| 1 <= i < objects@.len() implies level_entity_ok(
                    objects@[i],
                ) by {
                    assert(objects@[i] == placed[i]);
                    if i < pre.len() {
                        assert(placed[i] == pre[i]);
                        assert(level_entity_ok(pre[i]));
                    } else {
                        assert(level_entity_ok(placed[i]));
                    }
                }
            }
            rooms.push(new_room);
            proof {
                orders = orders.push(ordval);
                let wall_tile = Tile { blocked: true, block_sight: true, explored: false };
                let empty_tile = Tile { blocked: false, block_sight: false, explored: false };
                let cp = if rooms0.len() >= 1 {
                    rooms0[rooms0.len() - 1].spec_center()
                } else {
                    (0int, 0int)
                };
                let cn = new_room.spec_center();
                assert forall|xx: int, yy: int| in_bounds(xx, yy) implies tile_at(map@, xx, yy)
                    == (if rooms_cover(rooms@, xx, yy) || corridors_cover(rooms@, orders, xx, yy) {
                    empty_tile
                } else {
                    wall_tile
                }) by {
                    lemma_cover_push(rooms0, orders0, new_room, ordval, xx, yy);
                    let cover0 = rooms_cover(rooms0, xx, yy) || corridors_cover(
                        rooms0,
                        orders0,
                        xx,
                        yy,
                    );
                    assert(tile_at(g0, xx, yy) == (if cover0 {
                        empty_tile
                    } else {
                        wall_tile
                    }));
                    assert(tile_at(g1, xx, yy) == (if new_room.spec_interior(xx, yy) {
                        empty_tile
                    } else {
                        tile_at(g0, xx, yy)
                    }));
                    if rooms0.len() == 0 {
                        assert(map@ == g1);
                    } else {
                        if ordval {
                            assert(tile_at(map@, xx, yy) == (if v_tunnel_covers(
                                cp.1,
                                cn.1,
                                cn.0,
                                xx,
                                yy,
                            ) {
                                empty_tile
                            } else if h_tunnel_covers(cp.0, cn.0, cp.1, xx, yy) {
                                empty_tile
                            } else {
                                tile_at(g1, xx, yy)
                            }));
                        } else {
                            assert(tile_at(map@, xx, yy) == (if h_tunnel_covers(
                                cp.0,
                                cn.0,
                                cn.1,
                                xx,
                                yy,
                            ) {
                                empty_tile
                            } else if v_tunnel_covers(cp.1, cn.1, cp.0, xx, yy) {
                                empty_tile
                            } else {
                                tile_at(g1, xx, yy)
                            }));
                        }
                    }
                }
            }
        }
        attempt = attempt + 1;
    }
    let last_room = rooms[rooms.len() - 1];
    let (last_x, last_y): (i32, i32) = last_room.center();
    let mut stairs = Object::new(last_x, last_y, '<', "stairs", Color { r: 255, g: 255, b: 255 }, false);
    stairs.always_visible = true;
    proof {
        reveal_strlit("stairs");
        reveal_strlit("player");
        assert("stairs"@.len() == 6);
        assert("player"@.len() == 6);
        assert("stairs"@[0] == 's');
        assert("player"@[0] == 'p');
        assert("stairs"@ != "player"@);
    }
    objects.push(stairs);
    proof {
        assert(map_layout(map@, rooms@, orders));
        let empty_tile = Tile { blocked: false, block_sight: false, explored: false };
        let px = objects@[0].x as int;
        let py = objects@[0].y as int;
        assert(rooms_cover(rooms@, px, py)) by {
            assert(rooms@[0].spec_interior(px, py));
        }
        assert(in_bounds(px, py));
        assert(tile_at(map@, px, py) == empty_tile);
    }
    (map, rooms)
}

} // verus!
