//! Combat scenarios: damage arithmetic, the miss draw, the death pipeline,
//! and the already-dead guard.

use dungeon::combat::mut_two;
use dungeon::game::Game;
use dungeon::object::{Color, DeathCallback, Fighter, Message, Object};

fn empty_game() -> Game {
    Game { map: Vec::new(), log: Vec::new(), inventory: Vec::new(), dungeon_level: 1 }
}

fn white() -> Color {
    Color { r: 255, g: 255, b: 255 }
}

fn player_with(power: i32, defense: i32, hp: i32) -> Object {
    let mut p = Object::new(0, 0, '@', "player", white(), true);
    p.fighter = Some(Fighter {
        base_max_hp: 100,
        hp,
        base_defense: defense,
        base_power: power,
        on_death: DeathCallback::Player,
        xp: 0,
    });
    p.alive = true;
    p
}

fn monster_with(power: i32, defense: i32, hp: i32, xp: i32) -> Object {
    let mut m = Object::new(1, 0, 'o', "orc", white(), true);
    m.fighter = Some(Fighter {
        base_max_hp: hp,
        hp,
        base_defense: defense,
        base_power: power,
        on_death: DeathCallback::Monster,
        xp,
    });
    m.ai = Some(dungeon::object::Ai::Basic);
    m.alive = true;
    m
}

#[test]
fn attack_hit_deals_power_minus_defense() {
    // A player with base power 4 strikes a monster with base defense 0 and
    // the miss draw not triggered: damage 4, hit points drop by 4, and the
    // hit is logged.
    let mut game = empty_game();
    let mut player = player_with(4, 1, 100);
    let mut monster = monster_with(3, 0, 20, 35);
    player.attack_with_roll(&mut monster, false, &mut game);
    assert_eq!(monster.fighter.unwrap().hp, 16);
    assert_eq!(game.log.len(), 1);
    match &game.log[0] {
        Message::Attack { attacker, target, damage } => {
            assert_eq!(attacker, "player");
            assert_eq!(target, "orc");
            assert_eq!(*damage, 4);
        }
        other => panic!("expected a hit message, got {:?}", other),
    }
}

#[test]
fn attack_forced_miss_changes_nothing_but_the_log() {
    let mut game = empty_game();
    let mut player = player_with(4, 1, 100);
    let mut monster = monster_with(3, 0, 20, 35);
    player.attack_with_roll(&mut monster, true, &mut game);
    assert_eq!(monster.fighter.unwrap().hp, 20);
    assert!(matches!(game.log[0], Message::Miss { .. }));
}

#[test]
fn attack_zero_damage_has_no_effect() {
    let mut game = empty_game();
    let mut player = player_with(4, 1, 100);
    let mut monster = monster_with(3, 4, 20, 35);
    player.attack_with_roll(&mut monster, false, &mut game);
    assert_eq!(monster.fighter.unwrap().hp, 20);
    assert!(matches!(game.log[0], Message::NoEffect { .. }));
}

#[test]
fn killing_blow_converts_monster_to_remains_and_credits_xp() {
    let mut game = empty_game();
    let mut player = player_with(10, 1, 100);
    let mut monster = monster_with(3, 0, 5, 35);
    player.attack_with_roll(&mut monster, false, &mut game);
    assert_eq!(player.fighter.unwrap().xp, 35);
    assert!(!monster.alive);
    assert!(monster.fighter.is_none());
    assert!(monster.ai.is_none());
    assert!(!monster.blocks);
    assert_eq!(monster.glyph, '%');
    assert_eq!(monster.name, "remains of orc");
    assert!(matches!(game.log[0], Message::Attack { .. }));
    match &game.log[1] {
        Message::MonsterDied { name, xp } => {
            assert_eq!(name, "orc");
            assert_eq!(*xp, 35);
        }
        other => panic!("expected a death message, got {:?}", other),
    }
}

#[test]
fn take_damage_on_dead_entity_does_not_refire_death() {
    // An entity whose hit points already sit at or below zero takes more
    // damage without a second death callback or a second xp credit; the
    // damage itself still accumulates.
    let mut game = empty_game();
    let mut player = player_with(4, 1, 100);
    // Kill the player first.
    player.alive = true;
    let first = player.take_damage(120, &mut game);
    assert_eq!(first, Some(0));
    assert!(!player.alive);
    assert_eq!(game.log.len(), 1);
    assert!(matches!(game.log[0], Message::PlayerDied));
    let hp_after_death = player.fighter.unwrap().hp;
    // Damage the corpse.
    let second = player.take_damage(10, &mut game);
    assert_eq!(second, None);
    assert_eq!(game.log.len(), 1);
    assert_eq!(player.fighter.unwrap().hp, hp_after_death - 10);
}

#[test]
fn take_damage_ignores_nonpositive_amounts() {
    let mut game = empty_game();
    let mut monster = monster_with(3, 0, 20, 35);
    let r = monster.take_damage(0, &mut game);
    assert_eq!(r, None);
    assert_eq!(monster.fighter.unwrap().hp, 20);
    let r2 = monster.take_damage(-5, &mut game);
    assert_eq!(r2, None);
    assert_eq!(monster.fighter.unwrap().hp, 20);
}

#[test]
fn mut_two_returns_disjoint_elements() {
    let mut v = vec![10, 20, 30];
    {
        let (a, b) = mut_two(0, 2, v.as_mut_slice());
        assert_eq!(*a, 10);
        assert_eq!(*b, 30);
        *a = 11;
        *b = 33;
    }
    assert_eq!(v, vec![11, 20, 33]);
}
