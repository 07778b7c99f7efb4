use space_sync::movement::Movement;
use space_sync::registry::{
    BodyRef, Entity, EntityError, EntitySpawn, PhysicsWorldInner, PlayerEntity, SpawnError,
};
use space_sync::server::{
    despawn_user, parse_entity_id, InternalUserDiff, InternalUserDiffAction, Proximity,
    ProximityEvent, SensorAction, Update,
};

fn player_spawn(collider: usize, body: usize, force: usize) -> EntitySpawn<u32> {
    EntitySpawn {
        entity: Entity::Player(PlayerEntity::new(20)),
        collider_handle: collider,
        body_handle: BodyRef::Rigid(body),
        force_gen_handle: Some(force),
        data: 0,
    }
}

fn barrier_spawn(collider: usize) -> EntitySpawn<u32> {
    EntitySpawn {
        entity: Entity::Barrier,
        collider_handle: collider,
        body_handle: BodyRef::Ground,
        force_gen_handle: None,
        data: 9,
    }
}

fn consistent(w: &PhysicsWorldInner<u32>) {
    assert_eq!(w.uuid_map.len(), w.handle_map.len());
    for (id, h) in w.uuid_map.iter() {
        assert_eq!(w.handle_map.get(&h.collider_handle), Some(id));
    }
    for (c, id) in w.handle_map.iter() {
        assert_eq!(w.uuid_map.get(id).unwrap().collider_handle, *c);
    }
}

#[test]
fn spawn_and_remove_keep_maps_inverse() {
    let mut w: PhysicsWorldInner<u32> = PhysicsWorldInner::new();
    assert_eq!(w.spawn_entity(1, player_spawn(10, 100, 1000)), Ok(()));
    consistent(&w);
    assert_eq!(w.spawn_entity(2, barrier_spawn(11)), Ok(()));
    consistent(&w);
    assert_eq!(w.spawn_entity(3, player_spawn(12, 101, 1001)), Ok(()));
    consistent(&w);
    assert_eq!(w.user_handles, vec![(100, 1, 1000), (101, 3, 1001)]);
    let removed = w.remove_entity(1).unwrap();
    assert_eq!(removed.collider_handle, 10);
    consistent(&w);
    assert_eq!(w.user_handles, vec![(101, 3, 1001)]);
    assert!(w.remove_entity(1).is_none());
    consistent(&w);
    assert!(w.remove_entity(2).is_some());
    assert!(w.remove_entity(3).is_some());
    consistent(&w);
    assert!(w.uuid_map.is_empty());
    assert!(w.user_handles.is_empty());
}

#[test]
fn spawn_rejects_taken_id_and_collider() {
    let mut w: PhysicsWorldInner<u32> = PhysicsWorldInner::new();
    assert_eq!(w.spawn_entity(1, barrier_spawn(10)), Ok(()));
    assert_eq!(w.spawn_entity(1, barrier_spawn(11)), Err(SpawnError::DuplicateId));
    assert_eq!(w.spawn_entity(2, barrier_spawn(10)), Err(SpawnError::DuplicateCollider));
    assert_eq!(w.uuid_map.len(), 1);
    consistent(&w);
}

#[test]
fn static_player_takes_no_movement_input() {
    let mut w: PhysicsWorldInner<u32> = PhysicsWorldInner::new();
    let spawn = EntitySpawn {
        entity: Entity::Player(PlayerEntity::new(20)),
        collider_handle: 3,
        body_handle: BodyRef::Ground,
        force_gen_handle: None,
        data: 0,
    };
    assert_eq!(w.spawn_entity(5, spawn), Ok(()));
    assert!(w.user_handles.is_empty());
    assert!(w.movement_inputs().is_empty());
}

#[test]
fn set_movement_only_on_players() {
    let mut w: PhysicsWorldInner<u32> = PhysicsWorldInner::new();
    w.spawn_entity(1, player_spawn(10, 100, 1000)).unwrap();
    w.spawn_entity(2, barrier_spawn(11)).unwrap();
    assert_eq!(w.set_player_movement(1, Movement::Left), Ok(()));
    assert_eq!(w.player(1).unwrap().movement, Movement::Left);
    assert_eq!(w.set_player_movement(2, Movement::Left), Err(EntityError::NotAPlayer));
    assert_eq!(w.set_player_movement(7, Movement::Left), Err(EntityError::UnknownEntity));
    assert_eq!(w.movement_inputs(), vec![(100, 1000, Movement::Left)]);
}

#[test]
fn clear_empties_every_index() {
    let mut w: PhysicsWorldInner<u32> = PhysicsWorldInner::new();
    w.spawn_entity(1, player_spawn(10, 100, 1000)).unwrap();
    w.spawn_entity(2, barrier_spawn(11)).unwrap();
    w.clear();
    assert!(w.uuid_map.is_empty());
    assert!(w.handle_map.is_empty());
    assert!(w.user_handles.is_empty());
    assert!(w.beam_sensors.is_empty());
}

#[test]
fn retain_only_keeps_one_entity() {
    let mut w: PhysicsWorldInner<u32> = PhysicsWorldInner::new();
    w.spawn_entity(1, player_spawn(10, 100, 1000)).unwrap();
    w.spawn_entity(2, player_spawn(11, 101, 1001)).unwrap();
    w.spawn_entity(3, barrier_spawn(12)).unwrap();
    w.retain_only(2);
    assert_eq!(w.uuid_map.keys().cloned().collect::<Vec<_>>(), vec![2]);
    assert_eq!(w.user_handles, vec![(101, 2, 1001)]);
    consistent(&w);
    w.retain_only(9);
    assert!(w.uuid_map.is_empty());
}

fn diff(id: u128, action: InternalUserDiffAction) -> InternalUserDiff {
    InternalUserDiff { id, action }
}

#[test]
fn beam_toggle_adds_and_removes_the_sensor() {
    let mut w: PhysicsWorldInner<u32> = PhysicsWorldInner::new();
    w.spawn_entity(1, player_spawn(10, 100, 1000)).unwrap();
    let mut updates = Vec::new();
    let act = w.apply_diff(diff(1, InternalUserDiffAction::BeamToggle(true)), &mut updates);
    assert_eq!(act, SensorAction::Add { owner: 1, body: BodyRef::Rigid(100) });
    assert!(w.player(1).unwrap().beam_on);
    assert!(w.attach_beam_sensor(1, 50));
    assert!(!w.attach_beam_sensor(1, 51));
    assert_eq!(w.beam_sensors.get(&50), Some(&1));
    // Turning it on again sends nothing.
    let act = w.apply_diff(diff(1, InternalUserDiffAction::BeamToggle(true)), &mut updates);
    assert_eq!(act, SensorAction::Nothing);
    assert_eq!(updates.len(), 1);
    let act = w.apply_diff(diff(1, InternalUserDiffAction::BeamAim { x: 3, y: 4 }), &mut updates);
    match act {
        SensorAction::Aim { sensor, aim } => {
            assert_eq!(sensor, 50);
            assert_eq!((aim.x, aim.y), (3, 4));
        }
        other => panic!("unexpected action {:?}", other),
    }
    let act = w.apply_diff(diff(1, InternalUserDiffAction::BeamToggle(false)), &mut updates);
    assert_eq!(act, SensorAction::Remove(50));
    assert!(w.beam_sensors.is_empty());
    assert_eq!(w.uuid_map.get(&1).unwrap().beam_handle, None);
    assert_eq!(updates.len(), 3);
    let act = w.apply_diff(diff(1, InternalUserDiffAction::BeamToggle(false)), &mut updates);
    assert_eq!(act, SensorAction::Nothing);
    assert_eq!(updates.len(), 3);
}

#[test]
fn diffs_for_unknown_or_non_players() {
    let mut w: PhysicsWorldInner<u32> = PhysicsWorldInner::new();
    w.spawn_entity(2, barrier_spawn(11)).unwrap();
    let mut updates = Vec::new();
    let act = w.apply_diff(diff(9, InternalUserDiffAction::Movement(Movement::Up)), &mut updates);
    assert_eq!(act, SensorAction::Nothing);
    let act = w.apply_diff(diff(2, InternalUserDiffAction::Movement(Movement::Up)), &mut updates);
    assert_eq!(act, SensorAction::Nothing);
    assert!(updates.is_empty());
    w.apply_diff(diff(2, InternalUserDiffAction::Username("ameo".to_string())), &mut updates);
    match &updates[0] {
        Update::Username { id, username } => {
            assert_eq!(*id, 2);
            assert_eq!(username, "ameo");
        }
        other => panic!("unexpected update {:?}", other),
    }
}

#[test]
fn movement_diff_updates_player_and_reports() {
    let mut w: PhysicsWorldInner<u32> = PhysicsWorldInner::new();
    w.spawn_entity(1, player_spawn(10, 100, 1000)).unwrap();
    let mut updates = Vec::new();
    w.apply_diff(diff(1, InternalUserDiffAction::Movement(Movement::DownLeft)), &mut updates);
    assert_eq!(w.player(1).unwrap().movement, Movement::DownLeft);
    match &updates[0] {
        Update::PlayerMovement { id, movement } => {
            assert_eq!(*id, 1);
            assert_eq!(*movement, Movement::DownLeft);
        }
        other => panic!("unexpected update {:?}", other),
    }
}

#[test]
fn beam_events_need_one_sensor_and_a_change() {
    let mut w: PhysicsWorldInner<u32> = PhysicsWorldInner::new();
    w.spawn_entity(1, player_spawn(10, 100, 1000)).unwrap();
    w.spawn_entity(2, player_spawn(11, 101, 1001)).unwrap();
    w.spawn_entity(3, barrier_spawn(12)).unwrap();
    let mut updates = Vec::new();
    w.apply_diff(diff(1, InternalUserDiffAction::BeamToggle(true)), &mut updates);
    w.apply_diff(diff(2, InternalUserDiffAction::BeamToggle(true)), &mut updates);
    assert!(w.attach_beam_sensor(1, 50));
    assert!(w.attach_beam_sensor(2, 51));
    let ev = |c1, c2, p, n| ProximityEvent { collider1: c1, collider2: c2, prev_status: p, new_status: n };
    let events = vec![
        ev(50, 12, Proximity::Disjoint, Proximity::Intersecting),
        ev(12, 51, Proximity::Intersecting, Proximity::Disjoint),
        ev(50, 51, Proximity::Disjoint, Proximity::Intersecting),
        ev(50, 12, Proximity::Intersecting, Proximity::Intersecting),
        ev(10, 12, Proximity::Disjoint, Proximity::Intersecting),
    ];
    let out = w.beam_events(&events);
    assert_eq!(out.len(), 2);
    match &out[0] {
        Update::BeamEvent { id, target_id, prev_status, cur_status } => {
            assert_eq!((*id, *target_id), (1, 3));
            assert_eq!((*prev_status, *cur_status), (Proximity::Disjoint, Proximity::Intersecting));
        }
        other => panic!("unexpected update {:?}", other),
    }
    match &out[1] {
        Update::BeamEvent { id, target_id, .. } => assert_eq!((*id, *target_id), (2, 3)),
        other => panic!("unexpected update {:?}", other),
    }
}

#[test]
fn contacts_name_both_entities() {
    let mut w: PhysicsWorldInner<u32> = PhysicsWorldInner::new();
    w.spawn_entity(1, player_spawn(10, 100, 1000)).unwrap();
    w.spawn_entity(3, barrier_spawn(12)).unwrap();
    let touched = w.touched_entities(&vec![(10, 12), (12, 99)]);
    assert_eq!(touched, vec![1, 3, 3]);
}

#[test]
fn despawn_user_reads_the_uuid_text() {
    let id: u128 = 0xa1a2a3a4b1b2c1c2d1d2d3d4d5d6d7d8;
    let mut w: PhysicsWorldInner<u32> = PhysicsWorldInner::new();
    w.spawn_entity(id, player_spawn(10, 100, 1000)).unwrap();
    assert!(despawn_user(&mut w, "not a uuid").is_none());
    assert_eq!(w.uuid_map.len(), 1);
    let removed = despawn_user(&mut w, "a1a2a3a4-b1b2-c1c2-d1d2-d3d4d5d6d7d8");
    assert_eq!(removed.unwrap().collider_handle, 10);
    assert!(w.uuid_map.is_empty());
    assert!(w.user_handles.is_empty());
}

#[test]
fn parse_entity_id_forms() {
    let id: u128 = 0x550e8400e29b41d4a716446655440000;
    assert_eq!(parse_entity_id("550e8400-e29b-41d4-a716-446655440000"), Some(id));
    assert_eq!(parse_entity_id("550e8400e29b41d4a716446655440000"), Some(id));
    assert_eq!(parse_entity_id("550e8400-e29b-41d4-a716"), None);
}

#[test]
fn end_to_end_player_moves_right() {
    // The library supplies the force direction each tick; a unit-mass Euler
    // step stands in for the solver.
    let accel = 0.5f64;
    let mut w: PhysicsWorldInner<u32> = PhysicsWorldInner::new();
    w.spawn_entity(1, player_spawn(10, 100, 1000)).unwrap();
    w.set_player_movement(1, Movement::Right).unwrap();
    let (mut x, mut y, mut vx, mut vy) = (0.0f64, 0.0f64, 0.0f64, 0.0f64);
    for _ in 0..10 {
        let inputs = w.movement_inputs();
        assert_eq!(inputs.len(), 1);
        let (body, force, m) = inputs[0];
        assert_eq!((body, force), (100, 1000));
        let (dx, dy) = m.direction();
        let norm = ((dx as f64).powi(2) + (dy as f64).powi(2)).sqrt();
        vx += accel * dx as f64 / norm;
        vy += accel * dy as f64 / norm;
        let before = x;
        x += vx;
        y += vy;
        assert!(x > before);
    }
    assert_eq!(y, 0.0);
    assert!(vx > 0.0 && vy == 0.0);
}
