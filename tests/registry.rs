use std::cell::Cell;
use std::sync::Arc;

use game_core::{Game, GameLoopRegistry};

#[test]
fn created_loop_is_registered_and_shared() {
    let mut game: Game<String, u8> = Game::new(7, &Vec::new(), &Vec::new());
    let calls = Cell::new(0u32);
    let first = game
        .get_or_create_game_loop("dungeon1", |name: &str, send: &u8| {
            calls.set(calls.get() + 1);
            Some(format!("{}:{}", name, send))
        })
        .unwrap();
    assert_eq!(*first, "dungeon1:7");
    assert!(game.game_loops.contains("dungeon1"));
    let second = game
        .get_or_create_game_loop("dungeon1", |_: &str, _: &u8| {
            calls.set(calls.get() + 1);
            Some("other".to_string())
        })
        .unwrap();
    assert!(Arc::ptr_eq(&first, &second));
    assert_eq!(calls.get(), 1);
}

#[test]
fn failed_build_registers_nothing() {
    let mut game: Game<String, u8> = Game::new(0, &Vec::new(), &Vec::new());
    let r = game.get_or_create_game_loop("nonexistent_map", |_: &str, _: &u8| None);
    assert!(r.is_none());
    assert!(!game.game_loops.contains("nonexistent_map"));
}

#[test]
fn failed_build_is_tried_again() {
    let mut reg: GameLoopRegistry<u32> = GameLoopRegistry::new();
    let calls = Cell::new(0u32);
    let r1 = reg.get_or_create("cave", &(), |_: &str, _: &()| {
        calls.set(calls.get() + 1);
        None
    });
    assert!(r1.is_none());
    let r2 = reg.get_or_create("cave", &(), |_: &str, _: &()| {
        calls.set(calls.get() + 1);
        Some(5)
    });
    assert_eq!(r2.as_deref(), Some(&5));
    assert_eq!(calls.get(), 2);
    assert!(reg.contains("cave"));
}

#[test]
fn maps_are_independent() {
    let mut reg: GameLoopRegistry<u32> = GameLoopRegistry::new();
    let a = reg.get_or_create("a", &(), |_: &str, _: &()| Some(1)).unwrap();
    assert!(reg.get_or_create("b", &(), |_: &str, _: &()| None).is_none());
    assert!(reg.contains("a"));
    assert!(!reg.contains("b"));
    let b = reg.get_or_create("b", &(), |_: &str, _: &()| Some(2)).unwrap();
    assert!(!Arc::ptr_eq(&a, &b));
    let a2 = reg.get_or_create("a", &(), |_: &str, _: &()| Some(3)).unwrap();
    assert!(Arc::ptr_eq(&a, &a2));
    assert_eq!(*a2, 1);
    assert_eq!(*b, 2);
}

#[test]
fn many_requests_build_once() {
    let mut reg: GameLoopRegistry<u32> = GameLoopRegistry::new();
    let calls = Cell::new(0u32);
    let mut got: Vec<Arc<u32>> = Vec::new();
    for i in 0..16u32 {
        let h = reg
            .get_or_create("town", &(), |_: &str, _: &()| {
                calls.set(calls.get() + 1);
                Some(i)
            })
            .unwrap();
        got.push(h);
    }
    assert_eq!(calls.get(), 1);
    assert!(got.iter().all(|h| Arc::ptr_eq(h, &got[0])));
    assert_eq!(*got[0], 0);
}

#[test]
fn game_keeps_mappings_and_channel() {
    let lines = vec!["grass\n".to_string()];
    let stems = vec!["forest".to_string()];
    let mut game: Game<u32, u8> = Game::new(9, &lines, &stems);
    assert_eq!(game.mappings.get("grass"), Some(&0));
    assert_eq!(game.mappings.get("forest"), Some(&1));
    assert!(game.get_or_create_game_loop("m", |_: &str, s: &u8| Some(*s as u32)).is_some());
    assert_eq!(game.send, 9);
    assert_eq!(game.mappings.get("forest"), Some(&1));
}
