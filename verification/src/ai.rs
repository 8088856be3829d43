//! The monster AI decision procedure and the player's move-or-attack
//! resolution. Each AI-bearing entity, re-evaluated once per player turn,
//! chases the player while at distance, and attacks in melee range; a
//! monster whose tile the visibility oracle does not cover idles.

use vstd::prelude::*;
use crate::combat::{attack_fits, attack_rel, mut_two};
use crate::game::{Game, INVENTORY_CAP, PLAYER};
use crate::map::{grid_wf, move_by, move_by_result, Tile};
use crate::object::{
    coord_ok, positions_ok, spec_distance_sq, Ai, DeathCallback, Fighter, Object,
};
use crate::stats::{
    defense_bonus_sum, max_hp_bonus_sum, power_bonus_sum, spec_defense, spec_power,
};

verus! {

/// One component of the unit step toward a target: the normalized offset
/// rounded to the nearest of the eight compass steps. The component along
/// `d` is nonzero exactly when it dominates: `3*d*d > o*o` restates
/// `|d| / sqrt(d*d + o*o) >= 1/2` (the boundary cannot fall on integers).
pub open spec fn step_component(d: int, o: int) -> int {
    if 3 * (d * d) > o * o {
        if d > 0 {
            1int
        } else {
            -1int
        }
    } else {
        0int
    }
}

/// Computes both components of the unit step along (dx, dy).
pub fn step_toward(dx: i32, dy: i32) -> (r: (i32, i32))
    requires
        -2000000 <= dx <= 2000000,
        -2000000 <= dy <= 2000000,
    ensures
        r.0 as int == step_component(dx as int, dy as int),
        r.1 as int == step_component(dy as int, dx as int),
{
    let dx64: i64 = dx as i64;
    let dy64: i64 = dy as i64;
    proof {
        assert(0 <= dx64 * dx64 <= 4000000000000int && 0 <= dy64 * dy64 <= 4000000000000int)
            by (nonlinear_arith)
            requires
                -2000000 <= dx64 <= 2000000,
                -2000000 <= dy64 <= 2000000,
        ;
    }
    let sx: i32 = if 3 * (dx64 * dx64) > dy64 * dy64 {
        if dx > 0 {
            1
        } else {
            -1
        }
    } else {
        0
    };
    let sy: i32 = if 3 * (dy64 * dy64) > dx64 * dx64 {
        if dy > 0 {
            1
        } else {
            -1
        }
    } else {
        0
    };
    (sx, sy)
}

/// Moves entity `id` one compass step toward (target_x, target_y),
/// blocked-tile checks applied before the move commits.
pub fn move_towards(id: usize, target_x: i32, target_y: i32, map: &Vec<Vec<Tile>>, objects: &mut Vec<
    Object,
>)
    requires
        grid_wf(map@),
        id < old(objects)@.len(),
        old(objects)@[id as int].pos_ok(),
        coord_ok(target_x as int),
        coord_ok(target_y as int),
    ensures
        final(objects)@.len() == old(objects)@.len(),
        ({
            let o = old(objects)@[id as int];
            let sdx = step_component(target_x - o.x, target_y - o.y);
            let sdy = step_component(target_y - o.y, target_x - o.x);
            final(objects)@ == move_by_result(old(objects)@, id as int, sdx, sdy, map@)
        }),
{
    let dx: i32 = target_x - objects[id].x;
    let dy: i32 = target_y - objects[id].y;
    let (sdx, sdy): (i32, i32) = step_toward(dx, dy);
    move_by(id, sdx, sdy, map, objects);
}

/// Bound on equipment bonuses that keeps every stat computation well
/// inside `i32`.
pub open spec fn bonuses_bounded(inv: Seq<Object>) -> bool {
    forall|i: int|
        0 <= i < inv.len() ==> ((#[trigger] inv[i]).equipment matches Some(e) ==> {
            &&& -1000000 <= e.power_bonus <= 1000000
            &&& -1000000 <= e.defense_bonus <= 1000000
            &&& -1000000 <= e.max_hp_bonus <= 1000000
        })
}

/// Bound on one entity's Fighter stats: base values within a million, hit
/// points within a generous envelope that damage accumulation on a corpse
/// cannot leave.
pub open spec fn fighter_stats_bounded(o: Object) -> bool {
    o.fighter matches Some(f) ==> {
        &&& -1000000 <= f.base_power <= 1000000
        &&& -1000000 <= f.base_defense <= 1000000
        &&& -1000000 <= f.base_max_hp <= 1000000
        &&& -200000000 <= f.hp <= 1000000
    }
}

/// Bound on a monster's banked xp: within a million until the moment it
/// kills the player and banks the player's own total.
pub open spec fn monster_xp_ok(objs: Seq<Object>, k: int) -> bool {
    objs[k].fighter matches Some(f) ==> {
        &&& 0 <= f.xp <= 1001000000
        &&& ((objs[0].fighter matches Some(pf) && pf.hp > 0) ==> f.xp <= 1000000)
    }
}

/// The world shape the AI sweep relies on and preserves: the player at
/// index 0 (and only there), every stat within the machine-width envelope,
/// and every AI-bearing entity a fighter.
pub open spec fn sweep_ready(objs: Seq<Object>, g: Game) -> bool {
    &&& objs.len() > 0
    &&& grid_wf(g.map@)
    &&& positions_ok(objs)
    &&& g.inventory@.len() <= INVENTORY_CAP
    &&& bonuses_bounded(g.inventory@)
    &&& objs[0].is_player()
    &&& objs[0].ai is None
    &&& (objs[0].fighter matches Some(f) ==> f.on_death == DeathCallback::Player && 0 <= f.xp
        <= 1000000000)
    &&& forall|k: int| 0 < k < objs.len() ==> !(#[trigger] objs[k]).is_player()
    &&& forall|k: int| 0 <= k < objs.len() ==> fighter_stats_bounded(#[trigger] objs[k])
    &&& forall|k: int| 0 < k < objs.len() ==> monster_xp_ok(objs, k)
    &&& forall|k: int|
        0 < k < objs.len() && (#[trigger] objs[k]).ai is Some ==> objs[k].fighter is Some
}

/// The sums of bounded bonuses are themselves bounded by the inventory
/// size.
pub proof fn lemma_bonus_sums_bounded(inv: Seq<Object>)
    requires
        bonuses_bounded(inv),
    ensures
        -1000000 * inv.len() <= power_bonus_sum(inv) <= 1000000 * inv.len(),
        -1000000 * inv.len() <= defense_bonus_sum(inv) <= 1000000 * inv.len(),
        -1000000 * inv.len() <= max_hp_bonus_sum(inv) <= 1000000 * inv.len(),
    decreases inv.len(),
{
    if inv.len() > 0 {
        assert(bonuses_bounded(inv.drop_last())) by {
            assert(forall|i: int|
                0 <= i < inv.len() - 1 ==> #[trigger] inv.drop_last()[i] == inv[i]);
        }
        lemma_bonus_sums_bounded(inv.drop_last());
        assert(inv[inv.len() - 1] == inv.last());
    }
}

/// How one basic-AI turn relates store and world before and after: idle
/// when not visible; a step toward the player at distance two or more; a
/// melee attack when adjacent and the player has positive hit points.
pub open spec fn ai_basic_rel(
    objs0: Seq<Object>,
    g0: Game,
    objs1: Seq<Object>,
    g1: Game,
    mid: int,
    monster_visible: bool,
) -> bool {
    let m = objs0[mid];
    let p = objs0[0];
    let d2 = spec_distance_sq(m.x as int, m.y as int, p.x as int, p.y as int);
    if !monster_visible {
        objs1 == objs0 && g1 == g0
    } else if d2 >= 4 {
        let sdx = step_component(p.x - m.x, p.y - m.y);
        let sdy = step_component(p.y - m.y, p.x - m.x);
        objs1 == move_by_result(objs0, mid, sdx, sdy, g0.map@) && g1 == g0
    } else if p.fighter matches Some(f) && f.hp > 0 {
        &&& objs1.len() == objs0.len()
        &&& forall|k: int| 0 <= k < objs0.len() && k != mid && k != 0 ==> objs1[k] == objs0[k]
        &&& exists|missed: bool|
            attack_rel(objs0[mid], objs0[0], g0, objs1[mid], objs1[0], g1, missed)
    } else {
        objs1 == objs0 && g1 == g0
    }
}

/// One turn of the basic pursue-and-melee behaviour, returning the
/// behaviour for the next turn.
pub fn ai_basic(monster_id: usize, objects: &mut Vec<Object>, monster_visible: bool, game: &mut Game) -> (new_ai: Ai)
    requires
        sweep_ready(old(objects)@, *old(game)),
        0 < monster_id < old(objects)@.len(),
        old(objects)@[monster_id as int].ai is Some,
    ensures
        new_ai == Ai::Basic,
        final(objects)@.len() == old(objects)@.len(),
        ai_basic_rel(
            old(objects)@,
            *old(game),
            final(objects)@,
            *final(game),
            monster_id as int,
            monster_visible,
        ),
{
    if monster_visible {
        let d2 = objects[monster_id].distance_sq(&objects[PLAYER]);
        if d2 >= 4 {
            let (px, py): (i32, i32) = objects[PLAYER].pos();
            move_towards(monster_id, px, py, &game.map, objects);
        } else {
            let player_alive_hp = match objects[PLAYER].fighter {
                Some(f) => f.hp > 0,
                None => false,
            };
            if player_alive_hp {
                proof {
                    lemma_bonus_sums_bounded(old(game).inventory@);
                    let objs0 = old(objects)@;
                    let mi = monster_id as int;
                    assert(monster_xp_ok(objs0, mi));
                    assert(attack_fits(objs0[mi], objs0[0], *old(game)));
                }
                let (monster, player) = mut_two(monster_id, PLAYER, objects.as_mut_slice());
                monster.attack(player, game);
            }
        }
    }
    Ai::Basic
}

/// Re-evaluates entity `monster_id` for this turn: an AI-bearing entity
/// runs its behaviour; anything else idles.
pub fn ai_take_turn(monster_id: usize, game: &mut Game, objects: &mut Vec<Object>, monster_visible: bool)
    requires
        sweep_ready(old(objects)@, *old(game)),
        monster_id < old(objects)@.len(),
    ensures
        final(objects)@.len() == old(objects)@.len(),
        match old(objects)@[monster_id as int].ai {
            Some(Ai::Basic) => ai_basic_rel(
                old(objects)@,
                *old(game),
                final(objects)@,
                *final(game),
                monster_id as int,
                monster_visible,
            ),
            None => final(objects)@ == old(objects)@ && *final(game) == *old(game),
        },
{
    let has_ai = objects[monster_id].ai.is_some();
    if has_ai {
        let _new_ai = ai_basic(monster_id, objects, monster_visible, game);
    }
}

/// One basic-AI turn keeps the world in the shape the sweep relies on, and
/// touches at most the acting monster, the player, and the log.
pub proof fn lemma_sweep_preserved(
    objs0: Seq<Object>,
    g0: Game,
    objs1: Seq<Object>,
    g1: Game,
    mid: int,
    vis: bool,
)
    requires
        sweep_ready(objs0, g0),
        0 < mid < objs0.len(),
        objs0[mid].ai is Some,
        ai_basic_rel(objs0, g0, objs1, g1, mid, vis),
    ensures
        sweep_ready(objs1, g1),
        objs1.len() == objs0.len(),
        g1 == (Game { log: g1.log, ..g0 }),
        objs1[0].name == objs0[0].name,
        forall|k: int| 0 < k < objs0.len() && k != mid ==> objs1[k] == objs0[k],
{
    let m = objs0[mid];
    let p = objs0[0];
    let d2 = spec_distance_sq(m.x as int, m.y as int, p.x as int, p.y as int);
    lemma_bonus_sums_bounded(g0.inventory@);
    if !vis {
    } else if d2 >= 4 {
        let sdx = step_component(p.x - m.x, p.y - m.y);
        let sdy = step_component(p.y - m.y, p.x - m.x);
        assert(objs1 == move_by_result(objs0, mid, sdx, sdy, g0.map@));
        assert(forall|k: int|
            0 <= k < objs1.len() && k != mid ==> objs1[k] == #[trigger] objs0[k]);
        assert(objs1[mid].pos_ok());
        assert(positions_ok(objs1));
        assert forall|k: int| 0 < k < objs1.len() implies monster_xp_ok(objs1, k) by {
            assert(monster_xp_ok(objs0, k));
            if k != mid {
                assert(objs1[k] == objs0[k]);
            }
        }
    } else if p.fighter matches Some(f) && f.hp > 0 {
        let missed = choose|missed: bool|
            attack_rel(objs0[mid], objs0[0], g0, objs1[mid], objs1[0], g1, missed);
        assert(attack_rel(objs0[mid], objs0[0], g0, objs1[mid], objs1[0], g1, missed));
        let damage = if missed {
            -1int
        } else {
            spec_power(m, g0.inventory@) - spec_defense(p, g0.inventory@)
        };
        assert(!m.is_player());
        assert(spec_power(m, g0.inventory@) == m.fighter.unwrap().base_power);
        assert(-28000000 <= damage <= 28000000);
        if damage > 0 {
            assert(objs1[mid].x == m.x && objs1[mid].y == m.y);
            assert(objs1[0].x == p.x && objs1[0].y == p.y);
            assert(objs1[0].name == p.name);
            assert(objs1[mid].name == m.name);
            assert(fighter_stats_bounded(objs1[0]));
            assert(fighter_stats_bounded(objs1[mid]));
        }
        assert(positions_ok(objs1)) by {
            assert(forall|k: int|
                0 <= k < objs1.len() && k != mid && k != 0 ==> objs1[k] == #[trigger] objs0[k]);
        }
        assert(forall|k: int|
            0 < k < objs1.len() ==> !(#[trigger] objs1[k]).is_player()) by {
            assert(forall|k: int|
                0 < k < objs1.len() && k != mid ==> objs1[k] == #[trigger] objs0[k]);
        }
        assert(forall|k: int|
            0 <= k < objs1.len() ==> fighter_stats_bounded(#[trigger] objs1[k])) by {
            assert(forall|k: int|
                0 < k < objs1.len() && k != mid ==> objs1[k] == #[trigger] objs0[k]);
        }
        assert forall|k: int| 0 < k < objs1.len() implies monster_xp_ok(objs1, k) by {
            assert(monster_xp_ok(objs0, k));
            if k != mid {
                assert(objs1[k] == objs0[k]);
            }
        }
    } else {
    }
}

/// One step of the sweep: in state `s0`, entity `i` either takes its
/// basic-AI turn (when it bears one) or leaves the world untouched.
pub open spec fn sweep_step_ok(
    s0: (Seq<Object>, Game),
    s1: (Seq<Object>, Game),
    i: int,
    vis: Seq<bool>,
) -> bool {
    match s0.0[i].ai {
        Some(Ai::Basic) => ai_basic_rel(s0.0, s0.1, s1.0, s1.1, i, vis[i]),
        None => s1 == s0,
    }
}

/// A full sweep trace from `(objs0, g0)` to `(objs1, g1)`: a chain of
/// intermediate world states, one step per store index in store order,
/// each step by `sweep_step_ok`.
pub open spec fn sweep_trace_ok(
    objs0: Seq<Object>,
    g0: Game,
    objs1: Seq<Object>,
    g1: Game,
    vis: Seq<bool>,
    states: Seq<(Seq<Object>, Game)>,
) -> bool {
    &&& states.len() == objs0.len() + 1
    &&& states[0] == (objs0, g0)
    &&& states[states.len() - 1] == (objs1, g1)
    &&& forall|i: int|
        0 <= i < objs0.len() ==> sweep_step_ok(#[trigger] states[i], states[i + 1], i, vis)
}

/// Runs every AI-bearing entity's turn once, in store order: one full
/// sequential sweep, each entity resolved before the next begins. The
/// trace clause obliges the sweep: some chain of intermediate states runs
/// every index's turn, in order, each by the per-entity relation.
pub fn run_ai_turns(objects: &mut Vec<Object>, game: &mut Game, visible: &Vec<bool>)
    requires
        sweep_ready(old(objects)@, *old(game)),
        visible@.len() == old(objects)@.len(),
    ensures
        final(objects)@.len() == old(objects)@.len(),
        sweep_ready(final(objects)@, *final(game)),
        *final(game) == (Game { log: final(game).log, ..*old(game) }),
        final(objects)@[0].name == old(objects)@[0].name,
        exists|states: Seq<(Seq<Object>, Game)>|
            #[trigger] sweep_trace_ok(
                old(objects)@,
                *old(game),
                final(objects)@,
                *final(game),
                visible@,
                states,
            ),
{
    let ghost mut states: Seq<(Seq<Object>, Game)> = seq![(objects@, *game)];
    let mut id: usize = 0;
    while id < objects.len()
        invariant
            sweep_ready(objects@, *game),
            objects@.len() == old(objects)@.len(),
            visible@.len() == objects@.len(),
            *game == (Game { log: game.log, ..*old(game) }),
            objects@[0].name == old(objects)@[0].name,
            id <= objects@.len(),
            states.len() == id + 1,
            states[0] == (old(objects)@, *old(game)),
            states[states.len() - 1] == (objects@, *game),
            forall|i: int|
                0 <= i < id ==> sweep_step_ok(#[trigger] states[i], states[i + 1], i, visible@),
        decreases objects@.len() - id,
    {
        let has_ai = objects[id].ai.is_some();
        if has_ai {
            let ghost objs_before = objects@;
            let ghost g_before = *game;
            ai_take_turn(id, game, objects, visible[id]);
            proof {
                lemma_sweep_preserved(objs_before, g_before, objects@, *game, id as int, visible@[id as int]);
            }
        }
        proof {
            states = states.push((objects@, *game));
        }
        id = id + 1;
    }
    proof {
        assert(sweep_trace_ok(old(objects)@, *old(game), objects@, *game, visible@, states));
    }
}

/// The first store index at or after `k` holding a Fighter-bearing entity
/// standing at (x, y), if any.
pub open spec fn first_fighter_at(objs: Seq<Object>, x: int, y: int, k: int) -> Option<int>
    decreases objs.len() - k,
{
    if k < 0 || k >= objs.len() {
        None
    } else if objs[k].fighter is Some && objs[k].x == x && objs[k].y == y {
        Some(k)
    } else {
        first_fighter_at(objs, x, y, k + 1)
    }
}

/// How one resolved movement intent relates store and world before and
/// after: an attack on the first Fighter-bearing entity at the destination
/// tile, or a step onto it if free.
pub open spec fn player_move_rel(
    objs0: Seq<Object>,
    g0: Game,
    objs1: Seq<Object>,
    g1: Game,
    dx: int,
    dy: int,
) -> bool {
    let tgt = first_fighter_at(objs0, objs0[0].x + dx, objs0[0].y + dy, 0);
    if tgt is Some {
        let t = tgt.unwrap();
        &&& objs1.len() == objs0.len()
        &&& forall|k: int|
            0 <= k < objs0.len() && k != 0 && k != t ==> objs1[k] == #[trigger] objs0[k]
        &&& exists|missed: bool| attack_rel(objs0[0], objs0[t], g0, objs1[0], objs1[t], g1, missed)
    } else {
        objs1 == move_by_result(objs0, 0, dx, dy, g0.map@) && g1 == g0
    }
}

/// Resolves one player movement intent: if a Fighter-bearing entity stands
/// on the destination tile, the player attacks it; otherwise the player
/// steps there if the tile is free.
pub fn player_move_or_attack(dx: i32, dy: i32, objects: &mut Vec<Object>, game: &mut Game)
    requires
        old(objects)@.len() > 0,
        grid_wf(old(game).map@),
        positions_ok(old(objects)@),
        -1 <= dx <= 1,
        -1 <= dy <= 1,
        !(dx == 0 && dy == 0),
        forall|k: int|
            0 <= k < old(objects)@.len() && (#[trigger] old(objects)@[k]).fighter is Some && old(
                objects,
            )@[k].x == old(objects)@[0].x + dx && old(objects)@[k].y == old(objects)@[0].y + dy
                ==> attack_fits(old(objects)@[0], old(objects)@[k], *old(game)),
    ensures
        final(objects)@.len() == old(objects)@.len(),
        player_move_rel(
            old(objects)@,
            *old(game),
            final(objects)@,
            *final(game),
            dx as int,
            dy as int,
        ),
{
    let x: i32 = objects[PLAYER].x + dx;
    let y: i32 = objects[PLAYER].y + dy;
    let mut target_id: Option<usize> = None;
    let mut k: usize = 0;
    while k < objects.len()
        invariant_except_break
            k <= objects@.len(),
            target_id is None,
            objects@ == old(objects)@,
            x == objects@[0].x + dx,
            y == objects@[0].y + dy,
            first_fighter_at(objects@, x as int, y as int, 0) == first_fighter_at(
                objects@,
                x as int,
                y as int,
                k as int,
            ),
        ensures
            objects@ == old(objects)@,
            match target_id {
                Some(t) => {
                    &&& t < objects@.len()
                    &&& first_fighter_at(objects@, x as int, y as int, 0) == Some(t as int)
                    &&& objects@[t as int].fighter is Some
                    &&& objects@[t as int].x == x
                    &&& objects@[t as int].y == y
                },
                None => first_fighter_at(objects@, x as int, y as int, 0) is None,
            },
        decreases objects@.len() - k,
    {
        if objects[k].fighter.is_some() && objects[k].x == x && objects[k].y == y {
            target_id = Some(k);
            break ;
        }
        k = k + 1;
    }
    match target_id {
        Some(t) => {
            proof {
                assert(t != 0) by {
                    assert(old(objects)@[t as int].x == old(objects)@[0].x + dx);
                    assert(old(objects)@[t as int].y == old(objects)@[0].y + dy);
                }
            }
            let (player, target) = mut_two(PLAYER, t, objects.as_mut_slice());
            player.attack(target, game);
            proof {
                let objs0 = old(objects)@;
                let ti = t as int;
                assert(first_fighter_at(objs0, objs0[0].x + dx, objs0[0].y + dy, 0).unwrap()
                    == ti);
                let missed_w = choose|missed: bool|
                    attack_rel(objs0[0], objs0[ti], *old(game), objects@[0], objects@[ti], *game, missed);
                assert(attack_rel(
                    objs0[0],
                    objs0[ti],
                    *old(game),
                    objects@[0],
                    objects@[ti],
                    *game,
                    missed_w,
                ));
            }
        },
        None => {
            move_by(PLAYER, dx, dy, &game.map, objects);
        },
    }
}

} // verus!
