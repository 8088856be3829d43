//! Generation and progression: room placement, transition tables, the
//! weighted pick, leveling thresholds, descent, and movement.

use dungeon::ai::{ai_take_turn, player_move_or_attack, run_ai_turns, step_toward};
use dungeon::items::{classify_intent, PlayerAction, PlayerIntent};
use dungeon::game::{Game, PLAYER};
use dungeon::generate::{from_dungeon_level, make_map, weighted_index, Transition};
use dungeon::map::{is_blocked, Rect, Tile, MAP_HEIGHT, MAP_WIDTH};
use dungeon::object::{Color, DeathCallback, Fighter, Object};
use dungeon::progress::{level_up_apply, level_up_pending, level_up_xp, new_game, next_level,
    StatChoice};

fn white() -> Color {
    Color { r: 255, g: 255, b: 255 }
}

fn fresh_player() -> Object {
    let mut p = Object::new(0, 0, '@', "player", white(), true);
    p.fighter = Some(Fighter {
        base_max_hp: 100,
        hp: 100,
        base_defense: 1,
        base_power: 4,
        on_death: DeathCallback::Player,
        xp: 0,
    });
    p.alive = true;
    p
}

#[test]
fn generated_rooms_do_not_intersect_and_player_starts_in_first() {
    // No two accepted rooms' bounding rectangles intersect, and the
    // player's initial position lies inside the first accepted room.
    for level in [1u32, 3, 7] {
        let mut objects = vec![fresh_player()];
        let (grid, rooms) = make_map(&mut objects, level);
        assert!(rooms.len() >= 1);
        for i in 0..rooms.len() {
            for j in 0..rooms.len() {
                if i != j {
                    assert!(!rooms[i].intersect_with(&rooms[j]));
                }
            }
        }
        let p = &objects[PLAYER];
        let first = rooms[0];
        assert!(first.x1 < p.x && p.x < first.x2);
        assert!(first.y1 < p.y && p.y < first.y2);
        assert_eq!((p.x, p.y), first.center());
        // The grid has the configured dimensions.
        assert_eq!(grid.len(), MAP_WIDTH as usize);
        for col in &grid {
            assert_eq!(col.len(), MAP_HEIGHT as usize);
        }
        // A stairs marker sits at the last room's centre.
        let stairs = objects.last().unwrap();
        assert_eq!(stairs.name, "stairs");
        assert_eq!((stairs.x, stairs.y), rooms[rooms.len() - 1].center());
        assert!(stairs.always_visible);
        // The player's starting tile is carved.
        assert!(!grid[p.x as usize][p.y as usize].blocked);
        // Every tile strictly inside an accepted room is carved empty;
        // rooms stay within bounds of 6 to 10 cells per side.
        for r in &rooms {
            assert!(6 <= r.x2 - r.x1 && r.x2 - r.x1 <= 10);
            assert!(6 <= r.y2 - r.y1 && r.y2 - r.y1 <= 10);
            for x in (r.x1 + 1)..r.x2 {
                for y in (r.y1 + 1)..r.y2 {
                    let t = grid[x as usize][y as usize];
                    assert!(!t.blocked && !t.block_sight && !t.explored);
                }
            }
        }
        assert!(rooms.len() <= 30);
        // A corner tile is outside every room and corridor, so it is wall.
        assert!(grid[0][0].blocked && grid[0][0].block_sight);
        // Every entity stands on an unblocked tile, and spawned blocking
        // entities stand on pairwise distinct tiles. (The player is moved
        // onto the first room's centre after that room is populated, so
        // only the spawned entities are pairwise checked.)
        for (i, o) in objects.iter().enumerate() {
            assert!(!grid[o.x as usize][o.y as usize].blocked);
            for (j, o2) in objects.iter().enumerate() {
                if i != j && i != PLAYER && j != PLAYER && o.blocks && o2.blocks {
                    assert!((o.x, o.y) != (o2.x, o2.y));
                }
            }
        }
    }
}

#[test]
fn intent_classification_matches_the_turn_machine() {
    // Movement by a living player consumes the turn; pick-up, drop,
    // descent and the character sheet do not; quitting exits; a dead
    // player's intents are non-turn-consuming no-ops.
    assert_eq!(classify_intent(PlayerIntent::Move, true), PlayerAction::TookTurn);
    assert_eq!(classify_intent(PlayerIntent::PickUp, true), PlayerAction::DidntTakeTurn);
    assert_eq!(classify_intent(PlayerIntent::DropItem, true), PlayerAction::DidntTakeTurn);
    assert_eq!(classify_intent(PlayerIntent::Descend, true), PlayerAction::DidntTakeTurn);
    assert_eq!(classify_intent(PlayerIntent::ShowCharacter, true), PlayerAction::DidntTakeTurn);
    assert_eq!(classify_intent(PlayerIntent::Quit, true), PlayerAction::Exit);
    assert_eq!(classify_intent(PlayerIntent::Quit, false), PlayerAction::Exit);
    assert_eq!(classify_intent(PlayerIntent::Move, false), PlayerAction::DidntTakeTurn);
    assert_eq!(classify_intent(PlayerIntent::PickUp, false), PlayerAction::DidntTakeTurn);
}

#[test]
fn transition_table_steps_by_level() {
    let table = vec![
        Transition { level: 1, value: 2 },
        Transition { level: 4, value: 3 },
        Transition { level: 6, value: 5 },
    ];
    assert_eq!(from_dungeon_level(&table, 0), 0);
    assert_eq!(from_dungeon_level(&table, 1), 2);
    assert_eq!(from_dungeon_level(&table, 3), 2);
    assert_eq!(from_dungeon_level(&table, 4), 3);
    assert_eq!(from_dungeon_level(&table, 5), 3);
    assert_eq!(from_dungeon_level(&table, 6), 5);
    assert_eq!(from_dungeon_level(&table, 60), 5);
    let empty: Vec<Transition> = Vec::new();
    assert_eq!(from_dungeon_level(&empty, 9), 0);
}

#[test]
fn weighted_index_lands_in_the_right_bucket() {
    let weights = vec![0u32, 5, 0, 5];
    for roll in 0..5u32 {
        assert_eq!(weighted_index(&weights, roll), 1);
    }
    for roll in 5..10u32 {
        assert_eq!(weighted_index(&weights, roll), 3);
    }
}

#[test]
fn rect_geometry() {
    let r = Rect::new(2, 3, 6, 6);
    assert_eq!((r.x1, r.y1, r.x2, r.y2), (2, 3, 8, 9));
    assert_eq!(r.center(), (5, 6));
    let touching = Rect::new(8, 3, 6, 6);
    assert!(r.intersect_with(&touching));
    let apart = Rect::new(20, 20, 6, 6);
    assert!(!r.intersect_with(&apart));
}

#[test]
fn tiles_have_their_flags() {
    let e = Tile::empty();
    assert!(!e.blocked && !e.block_sight && !e.explored);
    let w = Tile::wall();
    assert!(w.blocked && w.block_sight && !w.explored);
}

#[test]
fn step_toward_rounds_to_compass_steps() {
    assert_eq!(step_toward(5, 0), (1, 0));
    assert_eq!(step_toward(-5, 0), (-1, 0));
    assert_eq!(step_toward(3, 3), (1, 1));
    assert_eq!(step_toward(0, -7), (0, -1));
    assert_eq!(step_toward(2, 5), (0, 1));
    assert_eq!(step_toward(0, 0), (0, 0));
}

#[test]
fn leveling_thresholds_are_exact() {
    // One below the threshold does not level; the threshold does, exactly
    // once, and the new total is the old minus the threshold.
    let mut p = fresh_player();
    assert_eq!(level_up_xp(1), 350);
    p.fighter = Some(Fighter { xp: 349, ..p.fighter.unwrap() });
    assert!(!level_up_pending(&p));
    p.fighter = Some(Fighter { xp: 350, ..p.fighter.unwrap() });
    assert!(level_up_pending(&p));
    let mut game = Game { map: Vec::new(), log: Vec::new(), inventory: Vec::new(), dungeon_level: 1 };
    level_up_apply(&mut p, StatChoice::Strength, &mut game);
    assert_eq!(p.level, 2);
    assert_eq!(p.fighter.unwrap().base_power, 5);
    assert_eq!(p.fighter.unwrap().xp, 0);
    assert!(!level_up_pending(&p));
}

#[test]
fn leveling_constitution_raises_both_hp_fields() {
    let mut p = fresh_player();
    p.fighter = Some(Fighter { xp: 400, hp: 60, ..p.fighter.unwrap() });
    let mut game = Game { map: Vec::new(), log: Vec::new(), inventory: Vec::new(), dungeon_level: 1 };
    level_up_apply(&mut p, StatChoice::Constitution, &mut game);
    let f = p.fighter.unwrap();
    assert_eq!(f.base_max_hp, 120);
    assert_eq!(f.hp, 80);
    assert_eq!(f.xp, 50);
}

#[test]
fn descending_heals_and_deepens() {
    let (mut objects, mut game) = new_game();
    objects[PLAYER].fighter = Some(Fighter { hp: 40, ..objects[PLAYER].fighter.unwrap() });
    next_level(&mut objects, &mut game);
    assert_eq!(game.dungeon_level, 2);
    // Healed by half the effective maximum (the starting dagger adds no
    // max-hp bonus): 40 + 50.
    assert_eq!(objects[PLAYER].fighter.unwrap().hp, 90);
    assert_eq!(objects.last().unwrap().name, "stairs");
}

#[test]
fn new_game_world_shape() {
    let (objects, game) = new_game();
    assert!(objects.len() >= 2);
    assert_eq!(objects[PLAYER].name, "player");
    assert!(objects[PLAYER].alive);
    assert_eq!(objects[PLAYER].fighter.unwrap().hp, 100);
    assert_eq!(game.dungeon_level, 1);
    assert_eq!(game.inventory.len(), 1);
    assert_eq!(game.inventory[0].name, "dagger");
    assert!(game.inventory[0].equipment.unwrap().equipped);
    assert_eq!(game.log.len(), 1);
}

#[test]
fn invisible_monsters_idle() {
    let (mut objects, mut game) = new_game();
    let before = objects.clone();
    let n = objects.len();
    // With nothing visible, a full sweep changes nothing.
    let visible = vec![false; n];
    run_ai_turns(&mut objects, &mut game, &visible);
    assert_eq!(objects, before);
}

#[test]
fn visible_adjacent_monster_acts_on_the_player() {
    let (mut objects, mut game) = new_game();
    let (px, py) = objects[PLAYER].pos();
    let mut orc = Object::new(px + 1, py, 'o', "orc", white(), true);
    orc.fighter = Some(Fighter {
        base_max_hp: 10,
        hp: 10,
        base_defense: 0,
        base_power: 3,
        on_death: DeathCallback::Monster,
        xp: 35,
    });
    orc.ai = Some(dungeon::object::Ai::Basic);
    orc.alive = true;
    objects.push(orc);
    let id = objects.len() - 1;
    let hp_before = objects[PLAYER].fighter.unwrap().hp;
    let log_before = game.log.len();
    ai_take_turn(id, &mut game, &mut objects, true);
    // The monster attacked: either it hit for its power minus the player's
    // effective defense, or the one-in-ten draw forced a miss.
    let hp_after = objects[PLAYER].fighter.unwrap().hp;
    assert!(game.log.len() == log_before + 1);
    assert!(hp_after == hp_before - 2 || hp_after == hp_before);
}

#[test]
fn player_steps_onto_free_tiles_only() {
    let (mut objects, mut game) = new_game();
    let (px, py) = objects[PLAYER].pos();
    // Find a direction whose target tile is free, then move there.
    let dirs = [(1, 0), (-1, 0), (0, 1), (0, -1)];
    for (dx, dy) in dirs {
        let tx = px + dx;
        let ty = py + dy;
        let occupied = objects.iter().any(|o| o.fighter.is_some() && o.x == tx && o.y == ty);
        if occupied {
            continue;
        }
        let blocked = is_blocked(tx, ty, &game.map, &objects);
        player_move_or_attack(dx, dy, &mut objects, &mut game);
        if blocked {
            assert_eq!(objects[PLAYER].pos(), (px, py));
        } else {
            assert_eq!(objects[PLAYER].pos(), (tx, ty));
        }
        break;
    }
}
