//! Item effects and the equipment rules: healing, the one-per-slot
//! discipline, dropping, and the turn-economy classification.

use dungeon::game::Game;
use dungeon::items::{
    cast_heal, cast_lightning, closest_monster, drop_item, get_equipped_in_slot, pick_item_up,
    toggle_equipment, use_item, PlayerAction, UseResult,
};
use dungeon::object::{Ai, Color, DeathCallback, Equipment, Fighter, Item, Message, Object, Slot};

fn white() -> Color {
    Color { r: 255, g: 255, b: 255 }
}

fn base_player(hp: i32) -> Object {
    let mut p = Object::new(3, 4, '@', "player", white(), true);
    p.fighter = Some(Fighter {
        base_max_hp: 100,
        hp,
        base_defense: 1,
        base_power: 4,
        on_death: DeathCallback::Player,
        xp: 0,
    });
    p.alive = true;
    p
}

fn sword(equipped: bool) -> Object {
    let mut s = Object::new(0, 0, '/', "sword", white(), false);
    s.item = Some(Item::Sword);
    s.equipment = Some(Equipment {
        slot: Slot::RightHand,
        equipped,
        max_hp_bonus: 0,
        power_bonus: 3,
        defense_bonus: 0,
    });
    s
}

fn second_sword(equipped: bool) -> Object {
    let mut s = Object::new(0, 0, '/', "long sword", white(), false);
    s.item = Some(Item::Sword);
    s.equipment = Some(Equipment {
        slot: Slot::RightHand,
        equipped,
        max_hp_bonus: 0,
        power_bonus: 5,
        defense_bonus: 0,
    });
    s
}

fn potion() -> Object {
    let mut o = Object::new(0, 0, '!', "healing potion", white(), false);
    o.item = Some(Item::Heal);
    o
}

fn game_with_inventory(inv: Vec<Object>) -> Game {
    Game { map: Vec::new(), log: Vec::new(), inventory: inv, dungeon_level: 1 }
}

#[test]
fn heal_at_effective_max_cancels_and_leaves_hp() {
    // A heal on a player already at effective maximum hit points returns
    // Cancelled and changes nothing but the log.
    let mut objects = vec![base_player(100)];
    let mut game = game_with_inventory(vec![potion()]);
    let r = cast_heal(&mut objects, &mut game);
    assert_eq!(r, UseResult::Cancelled);
    assert_eq!(objects[0].fighter.unwrap().hp, 100);
    assert!(matches!(game.log[0], Message::AlreadyFullHealth));
}

#[test]
fn heal_raises_hp_clamped_to_effective_max() {
    let mut objects = vec![base_player(90)];
    let mut game = game_with_inventory(vec![potion()]);
    let r = cast_heal(&mut objects, &mut game);
    assert_eq!(r, UseResult::UsedUp);
    assert_eq!(objects[0].fighter.unwrap().hp, 100);
    assert!(matches!(game.log[0], Message::WoundsHeal));
}

#[test]
fn heal_applies_full_amount_when_room() {
    let mut objects = vec![base_player(50)];
    let mut game = game_with_inventory(vec![potion()]);
    let r = cast_heal(&mut objects, &mut game);
    assert_eq!(r, UseResult::UsedUp);
    assert_eq!(objects[0].fighter.unwrap().hp, 90);
}

#[test]
fn effective_stats_count_equipped_bonuses_for_player_only() {
    let objects = vec![base_player(100)];
    let mut monster = Object::new(9, 9, 'o', "orc", white(), true);
    monster.fighter = Some(Fighter {
        base_max_hp: 10,
        hp: 10,
        base_defense: 0,
        base_power: 4,
        on_death: DeathCallback::Monster,
        xp: 35,
    });
    let game = game_with_inventory(vec![sword(true)]);
    assert_eq!(objects[0].power(&game), 4 + 3);
    assert_eq!(monster.power(&game), 4);
    assert_eq!(objects[0].get_all_equipped(&game).len(), 1);
    assert_eq!(monster.get_all_equipped(&game).len(), 0);
}

#[test]
fn toggle_displaces_current_item_in_same_slot() {
    // Equipping into an occupied slot first takes off whatever sits there:
    // at most one item per slot stays worn.
    let mut game = game_with_inventory(vec![sword(true), second_sword(false)]);
    let r = toggle_equipment(1, &mut game);
    assert_eq!(r, UseResult::UseAndKept);
    assert!(!game.inventory[0].equipment.unwrap().equipped);
    assert!(game.inventory[1].equipment.unwrap().equipped);
    let worn: Vec<&Object> = game
        .inventory
        .iter()
        .filter(|o| o.equipment.map_or(false, |e| e.equipped && e.slot == Slot::RightHand))
        .collect();
    assert_eq!(worn.len(), 1);
    assert!(matches!(game.log[0], Message::Dequipped { .. }));
    assert!(matches!(game.log[1], Message::Equipped { .. }));
}

#[test]
fn toggle_takes_off_a_worn_item() {
    let mut game = game_with_inventory(vec![sword(true)]);
    let r = toggle_equipment(0, &mut game);
    assert_eq!(r, UseResult::UseAndKept);
    assert!(!game.inventory[0].equipment.unwrap().equipped);
}

#[test]
fn toggle_without_equipment_cancels_with_an_error() {
    let mut game = game_with_inventory(vec![potion()]);
    let r = toggle_equipment(0, &mut game);
    assert_eq!(r, UseResult::Cancelled);
    assert_eq!(game.log.len(), 1);
    match &game.log[0] {
        Message::CannotEquipNotEquipment { name } => assert_eq!(name, "healing potion"),
        other => panic!("expected an equip error, got {:?}", other),
    }
}

#[test]
fn get_equipped_in_slot_finds_first_worn() {
    let game = game_with_inventory(vec![potion(), sword(true)]);
    assert_eq!(get_equipped_in_slot(Slot::RightHand, &game.inventory), Some(1));
    assert_eq!(get_equipped_in_slot(Slot::LeftHand, &game.inventory), None);
}

#[test]
fn drop_equipped_item_dequips_then_lands_on_player_tile() {
    // Dropping a worn item takes it off first; it then appears on the
    // player's tile in the main store and no longer adds its bonus.
    let mut objects = vec![base_player(100)];
    let mut game = game_with_inventory(vec![sword(true)]);
    assert_eq!(objects[0].power(&game), 7);
    drop_item(0, &mut objects, &mut game);
    assert!(game.inventory.is_empty());
    let dropped = objects.last().unwrap();
    assert_eq!(dropped.name, "sword");
    assert_eq!((dropped.x, dropped.y), (3, 4));
    assert!(!dropped.equipment.unwrap().equipped);
    assert!(matches!(game.log[0], Message::Dequipped { .. }));
    assert!(matches!(game.log[1], Message::Dropped { .. }));
    assert_eq!(objects[0].power(&game), 4);
}

#[test]
fn pick_item_up_moves_entity_into_inventory() {
    let mut objects = vec![base_player(100), potion()];
    let mut game = game_with_inventory(Vec::new());
    pick_item_up(1, &mut objects, &mut game);
    assert_eq!(objects.len(), 1);
    assert_eq!(game.inventory.len(), 1);
    assert_eq!(game.inventory[0].name, "healing potion");
    assert!(matches!(game.log[0], Message::PickedUp { .. }));
}

#[test]
fn pick_item_up_respects_capacity() {
    let mut objects = vec![base_player(100), potion()];
    let mut inv = Vec::new();
    for _ in 0..26 {
        inv.push(potion());
    }
    let mut game = game_with_inventory(inv);
    pick_item_up(1, &mut objects, &mut game);
    assert_eq!(objects.len(), 2);
    assert_eq!(game.inventory.len(), 26);
    assert!(matches!(game.log[0], Message::InventoryFull { .. }));
}

#[test]
fn closest_monster_prefers_nearest_visible() {
    let mut far = Object::new(5, 0, 'o', "orc", white(), true);
    far.fighter = Some(Fighter {
        base_max_hp: 10,
        hp: 10,
        base_defense: 0,
        base_power: 3,
        on_death: DeathCallback::Monster,
        xp: 35,
    });
    far.ai = Some(Ai::Basic);
    let mut near = far.clone();
    near.x = 2;
    near.name = String::from("troll");
    let objects = vec![base_player(100), far, near];
    let visible = vec![true, true, true];
    assert_eq!(closest_monster(5, &objects, &visible), Some(2));
    let visible2 = vec![true, true, false];
    assert_eq!(closest_monster(5, &objects, &visible2), Some(1));
}

#[test]
fn closest_monster_ignores_out_of_range() {
    let mut far = Object::new(10, 10, 'o', "orc", white(), true);
    far.fighter = Some(Fighter {
        base_max_hp: 10,
        hp: 10,
        base_defense: 0,
        base_power: 3,
        on_death: DeathCallback::Monster,
        xp: 35,
    });
    far.ai = Some(Ai::Basic);
    let objects = vec![base_player(100), far];
    let visible = vec![true, true];
    assert_eq!(closest_monster(5, &objects, &visible), None);
}

#[test]
fn lightning_strikes_nearest_and_credits_xp_on_kill() {
    let mut weak = Object::new(2, 4, 'o', "orc", white(), true);
    weak.fighter = Some(Fighter {
        base_max_hp: 10,
        hp: 10,
        base_defense: 0,
        base_power: 3,
        on_death: DeathCallback::Monster,
        xp: 35,
    });
    weak.ai = Some(Ai::Basic);
    weak.alive = true;
    let mut objects = vec![base_player(100), weak];
    let mut game = game_with_inventory(Vec::new());
    let visible = vec![true, true];
    let r = cast_lightning(&mut objects, &mut game, &visible);
    assert_eq!(r, UseResult::UseAndTakeTurn);
    assert!(objects[1].fighter.is_none());
    assert_eq!(objects[0].fighter.unwrap().xp, 35);
    assert!(matches!(game.log[0], Message::Lightning { .. }));
}

#[test]
fn lightning_with_no_target_cancels() {
    let mut objects = vec![base_player(100)];
    let mut game = game_with_inventory(Vec::new());
    let visible = vec![true];
    let r = cast_lightning(&mut objects, &mut game, &visible);
    assert_eq!(r, UseResult::Cancelled);
    assert!(matches!(game.log[0], Message::NoEnemyInRange));
}

#[test]
fn use_item_consumes_potions_but_keeps_equipment() {
    // A spent potion leaves the inventory without consuming the turn; a
    // toggled weapon stays; a cancelled use logs so.
    let mut objects = vec![base_player(50)];
    let mut game = game_with_inventory(vec![potion(), sword(false)]);
    let visible = vec![true];
    let r = use_item(0, &mut objects, &mut game, &visible);
    assert_eq!(r, PlayerAction::DidntTakeTurn);
    assert_eq!(game.inventory.len(), 1);
    assert_eq!(objects[0].fighter.unwrap().hp, 90);
    let r2 = use_item(0, &mut objects, &mut game, &visible);
    assert_eq!(r2, PlayerAction::DidntTakeTurn);
    assert_eq!(game.inventory.len(), 1);
    assert!(game.inventory[0].equipment.unwrap().equipped);
}

#[test]
fn use_item_on_full_health_potion_cancels_and_keeps_it() {
    let mut objects = vec![base_player(100)];
    let mut game = game_with_inventory(vec![potion()]);
    let visible = vec![true];
    let r = use_item(0, &mut objects, &mut game, &visible);
    assert_eq!(r, PlayerAction::DidntTakeTurn);
    assert_eq!(game.inventory.len(), 1);
    assert!(matches!(game.log[0], Message::AlreadyFullHealth));
    assert!(matches!(game.log[1], Message::CancelledUse));
}

#[test]
fn use_item_lightning_takes_the_turn() {
    let mut target = Object::new(2, 4, 'o', "orc", white(), true);
    target.fighter = Some(Fighter {
        base_max_hp: 50,
        hp: 50,
        base_defense: 0,
        base_power: 3,
        on_death: DeathCallback::Monster,
        xp: 35,
    });
    target.ai = Some(Ai::Basic);
    target.alive = true;
    let mut objects = vec![base_player(100), target];
    let mut scroll = Object::new(0, 0, '#', "scroll of lightning bolt", white(), false);
    scroll.item = Some(Item::Lightning);
    let mut game = game_with_inventory(vec![scroll]);
    let visible = vec![true, true];
    let r = use_item(0, &mut objects, &mut game, &visible);
    assert_eq!(r, PlayerAction::TookTurn);
    assert!(game.inventory.is_empty());
    assert_eq!(objects[1].fighter.unwrap().hp, 10);
}

#[test]
fn use_item_without_item_component_reports_unusable() {
    let stone = Object::new(0, 0, '*', "stone", white(), false);
    let mut objects = vec![base_player(100)];
    let mut game = game_with_inventory(vec![stone]);
    let visible = vec![true];
    let r = use_item(0, &mut objects, &mut game, &visible);
    assert_eq!(r, PlayerAction::DidntTakeTurn);
    assert_eq!(game.inventory.len(), 1);
    assert!(matches!(game.log[0], Message::CannotUse { .. }));
}

#[test]
fn attack_scroll_logs_but_leaves_stats() {
    let mut objects = vec![base_player(100)];
    let mut scroll = Object::new(0, 0, '+', "attack scroll", white(), false);
    scroll.item = Some(Item::AttackBuff);
    let mut game = game_with_inventory(vec![scroll]);
    let visible = vec![true];
    let r = use_item(0, &mut objects, &mut game, &visible);
    assert_eq!(r, PlayerAction::DidntTakeTurn);
    assert!(game.inventory.is_empty());
    assert_eq!(objects[0].fighter.unwrap().base_power, 4);
    assert!(matches!(game.log[0], Message::AttackBuffed { amount: 2 }));
}
