//! Persistence: the serialize/deserialize round trip and the clean failure
//! of malformed streams.

use dungeon::game::PLAYER;
use dungeon::object::Fighter;
use dungeon::progress::{new_game, next_level};
use dungeon::save::{load_state, save_state, SaveToken};

#[test]
fn round_trip_restores_every_observable_field() {
    // Serialize then deserialize: the entity store and world state come
    // back equal in all observable fields.
    let (objects, game) = new_game();
    let tokens = save_state(&objects, &game);
    let loaded = load_state(&tokens).expect("a freshly saved world must load");
    assert_eq!(loaded.0, objects);
    assert_eq!(loaded.1, game);
}

#[test]
fn round_trip_after_play_like_mutations() {
    let (mut objects, mut game) = new_game();
    objects[PLAYER].fighter = Some(Fighter { hp: 37, xp: 120, ..objects[PLAYER].fighter.unwrap() });
    next_level(&mut objects, &mut game);
    let tokens = save_state(&objects, &game);
    let loaded = load_state(&tokens).expect("a saved world must load");
    assert_eq!(loaded.0, objects);
    assert_eq!(loaded.1, game);
}

#[test]
fn truncated_stream_fails_cleanly() {
    let (objects, game) = new_game();
    let mut tokens = save_state(&objects, &game);
    tokens.truncate(tokens.len() - 1);
    assert!(load_state(&tokens).is_none());
}

#[test]
fn trailing_garbage_fails_cleanly() {
    let (objects, game) = new_game();
    let mut tokens = save_state(&objects, &game);
    tokens.push(SaveToken::N(0));
    assert!(load_state(&tokens).is_none());
}

#[test]
fn foreign_stream_fails_cleanly() {
    let tokens = vec![SaveToken::N(1), SaveToken::B(true), SaveToken::I(-7)];
    assert!(load_state(&tokens).is_none());
    let empty: Vec<SaveToken> = Vec::new();
    assert!(load_state(&empty).is_none());
}

#[test]
fn corrupted_token_fails_cleanly() {
    let (objects, game) = new_game();
    let mut tokens = save_state(&objects, &game);
    // Swap one mid-stream token for one of another kind.
    let mid = tokens.len() / 2;
    tokens[mid] = match tokens[mid] {
        SaveToken::N(_) => SaveToken::B(false),
        _ => SaveToken::N(999999),
    };
    assert!(load_state(&tokens).is_none());
}
