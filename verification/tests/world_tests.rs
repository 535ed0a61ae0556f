use edrefis::field::{Field, GameState};
use edrefis::input::Inputs;
use edrefis::net::Remote;
use edrefis::world::{field_system, place_remote_field, spawn_field};
use hecs::{Entity, World};
use std::collections::HashMap;

#[test]
fn spawned_field_is_fresh() {
    let mut world = World::new();
    let e = spawn_field(&mut world);
    assert_eq!(world.len(), 1);
    let field = world.get::<&Field>(e).unwrap();
    assert_eq!(field.level, 0);
    assert!(matches!(field.state, GameState::ActivePiece { .. }));
    assert!(field.check_wf());
}

#[test]
fn spawning_twice_gives_two_entities() {
    let mut world = World::new();
    let a = spawn_field(&mut world);
    let b = spawn_field(&mut world);
    assert_ne!(a, b);
    assert_eq!(world.len(), 2);
}

#[test]
fn field_system_ticks_every_field() {
    let mut world = World::new();
    let a = spawn_field(&mut world);
    let b = spawn_field(&mut world);
    let out = field_system(&mut world, &Inputs::new());
    assert_eq!(out.len(), 2);
    assert!(out.iter().any(|(e, _)| *e == a));
    assert!(out.iter().any(|(e, _)| *e == b));
    assert!(out.iter().all(|(_, events)| matches!(events, Some(v) if v.is_empty())));
    for e in [a, b] {
        let field = world.get::<&Field>(e).unwrap();
        match &field.state {
            GameState::ActivePiece { piece } => assert_eq!(piece.ticks_to_next_gravity, 252),
            other => panic!("unexpected state {:?}", other),
        }
    }
}

#[test]
fn field_system_ticks_fields_outside_the_invariant() {
    let mut world = World::new();
    let mut odd = Field::new();
    odd.next.x = 5;
    let e = world.spawn((odd,));
    let out = field_system(&mut world, &Inputs::new());
    assert_eq!(out.len(), 1);
    assert!(out[0].1.is_some());
    let field = world.get::<&Field>(e).unwrap();
    assert_eq!(field.next.x, 5);
    match &field.state {
        GameState::ActivePiece { piece } => assert_eq!(piece.ticks_to_next_gravity, 252),
        other => panic!("unexpected state {:?}", other),
    }
}

#[test]
fn field_system_leaves_unsafe_fields_alone() {
    let mut world = World::new();
    let mut stuck = Field::new();
    stuck.state = GameState::GameOver { ticks_remaining: i32::MIN };
    let e = world.spawn((stuck,));
    let out = field_system(&mut world, &Inputs::new());
    assert_eq!(out.len(), 1);
    assert!(out[0].1.is_none());
    let field = world.get::<&Field>(e).unwrap();
    assert!(matches!(field.state, GameState::GameOver { ticks_remaining: i32::MIN }));
}

#[test]
fn entities_without_fields_are_skipped() {
    let mut world = World::new();
    world.spawn((42u32,));
    let out = field_system(&mut world, &Inputs::new());
    assert!(out.is_empty());
}

#[test]
fn remote_field_is_spawned_once_per_server_id() {
    let mut world = World::new();
    let mut ids = HashMap::<u32, Entity>::new();
    assert!(place_remote_field(&mut ids, &mut world, 7, Field::new()));
    assert_eq!(ids.len(), 1);
    assert_eq!(world.len(), 1);
    let e = ids[&7];
    assert!(world.get::<&Remote>(e).is_ok());

    let mut second = Field::new();
    second.level = 12;
    assert!(place_remote_field(&mut ids, &mut world, 7, second));
    assert_eq!(ids.len(), 1);
    assert_eq!(world.len(), 1);
    assert_eq!(world.get::<&Field>(e).unwrap().level, 12);

    assert!(place_remote_field(&mut ids, &mut world, 9, Field::new()));
    assert_eq!(ids.len(), 2);
    assert_eq!(world.len(), 2);
    assert_ne!(ids[&7], ids[&9]);
}

#[test]
fn remote_field_for_a_dead_entity_is_refused() {
    let mut world = World::new();
    let mut ids = HashMap::<u32, Entity>::new();
    assert!(place_remote_field(&mut ids, &mut world, 3, Field::new()));
    let e = ids[&3];
    world.despawn(e).unwrap();
    let mut other = Field::new();
    other.level = 5;
    assert!(!place_remote_field(&mut ids, &mut world, 3, other));
    assert_eq!(world.len(), 0);
    assert_eq!(ids.len(), 1);
}
