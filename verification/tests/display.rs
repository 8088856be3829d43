//! The read view the front end consumes: explored flags, slot labels,
//! message colours, and room population bounds.

use dungeon::game::PLAYER;
use dungeon::generate::place_object;
use dungeon::map::{update_explored, Rect, Tile, MAP_HEIGHT, MAP_WIDTH};
use dungeon::object::{Color, Message, Slot};
use dungeon::progress::new_game;

#[test]
fn explored_tiles_stay_explored() {
    let (objects, mut game) = new_game();
    let (px, py) = (objects[PLAYER].x as usize, objects[PLAYER].y as usize);
    let mut vis = vec![vec![false; MAP_HEIGHT as usize]; MAP_WIDTH as usize];
    vis[px][py] = true;
    update_explored(&mut game.map, &vis);
    assert!(game.map[px][py].explored);
    // Seeing nothing afterwards forgets nothing.
    let none = vec![vec![false; MAP_HEIGHT as usize]; MAP_WIDTH as usize];
    update_explored(&mut game.map, &none);
    assert!(game.map[px][py].explored);
}

#[test]
fn slot_labels() {
    assert_eq!(Slot::RightHand.label(), "right hand");
    assert_eq!(Slot::LeftHand.label(), "left hand");
    assert_eq!(Slot::Chest.label(), "chest");
}

#[test]
fn message_colors_are_fixed_per_kind() {
    assert_eq!(Message::PlayerDied.color(), Color { r: 255, g: 0, b: 0 });
    assert_eq!(Message::WoundsHeal.color(), Color { r: 184, g: 114, b: 255 });
    assert_eq!(
        Message::Attack { attacker: "a".to_string(), target: "b".to_string(), damage: 1 }.color(),
        Color { r: 255, g: 255, b: 255 }
    );
}

#[test]
fn population_stays_inside_the_room() {
    // Whatever the draws, every spawned entity stands strictly inside the
    // populated room, and nothing that was there before moves.
    let room = Rect::new(10, 10, 8, 8);
    let mut map = vec![vec![Tile::empty(); MAP_HEIGHT as usize]; MAP_WIDTH as usize];
    for col in map.iter_mut() {
        for t in col.iter_mut() {
            *t = Tile::empty();
        }
    }
    for trial_level in [1u32, 5, 9] {
        let mut objects = Vec::new();
        place_object(room, &map, &mut objects, trial_level);
        for o in &objects {
            assert!(room.x1 < o.x && o.x < room.x2);
            assert!(room.y1 < o.y && o.y < room.y2);
            if let Some(f) = o.fighter {
                assert!(o.alive);
                assert!(f.hp > 0);
                assert!(o.ai.is_some());
            }
            if let Some(e) = o.equipment {
                assert!(!e.equipped);
            }
        }
    }
}
