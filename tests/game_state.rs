use space_sync::game_state::{GameState, QueueOutcome, ServerMessage};
use space_sync::registry::{BodyRef, Entity, EntitySpawn, PlayerEntity};

fn msg(tick: u32, payload: &str) -> ServerMessage<String> {
    ServerMessage { tick, timestamp: tick as u64 * 16, payload: payload.to_string() }
}

fn ticks(v: &[ServerMessage<String>]) -> Vec<u32> {
    v.iter().map(|m| m.tick).collect()
}

#[test]
fn first_message_applies_at_once() {
    let mut s: GameState<u8, String> = GameState::new(4, 2);
    match s.queue_msg(msg(100, "connect")) {
        QueueOutcome::ApplyNow(m) => assert_eq!(m.payload, "connect"),
        other => panic!("unexpected {:?}", other),
    }
    assert_eq!(s.initial_tick, 100);
    s.connect(7, 100);
    assert_eq!((s.player_uuid, s.cur_tick), (7, 100));
    assert!(s.interpolates(7));
    assert!(!s.interpolates(8));
    match s.queue_msg(msg(100, "same tick")) {
        QueueOutcome::ApplyNow(_) => {}
        other => panic!("unexpected {:?}", other),
    }
    assert!(matches!(s.queue_msg(msg(101, "a")), QueueOutcome::Buffered));
    assert_eq!(s.msg_buffer.len(), 1);
}

#[test]
fn full_buffer_reports_overwrite() {
    let mut s: GameState<u8, String> = GameState::new(2, 0);
    s.connect(1, 10);
    s.initial_tick = 10;
    assert!(matches!(s.queue_msg(msg(11, "a")), QueueOutcome::Buffered));
    assert!(matches!(s.queue_msg(msg(12, "b")), QueueOutcome::Buffered));
    assert!(matches!(s.queue_msg(msg(13, "c")), QueueOutcome::Overwrote));
    assert_eq!(ticks(&s.msg_buffer.iter().into_iter().cloned().collect::<Vec<_>>()), vec![12, 13]);
}

#[test]
fn tick_releases_due_messages_in_order() {
    let mut s: GameState<u8, String> = GameState::new(8, 2);
    s.connect(1, 10);
    s.initial_tick = 1;
    for t in [9u32, 10, 11, 15] {
        s.queue_msg(msg(t, "m"));
    }
    // Target tick is 10 - 2 = 8: nothing is due, the clock moves by one.
    assert_eq!(ticks(&s.tick()), Vec::<u32>::new());
    assert_eq!(s.cur_tick, 11);
    // Target 9: one message.
    assert_eq!(ticks(&s.tick()), vec![9]);
    assert_eq!(s.cur_tick, 12);
    // Target 10: one more.
    assert_eq!(ticks(&s.tick()), vec![10]);
    assert_eq!(s.cur_tick, 13);
    assert_eq!(ticks(&s.tick()), vec![11]);
    assert_eq!(s.msg_buffer.len(), 1);
}

#[test]
fn tick_with_empty_buffer_still_advances() {
    let mut s: GameState<u8, String> = GameState::new(8, 2);
    s.connect(1, 10);
    assert!(s.tick().is_empty());
    assert_eq!(s.cur_tick, 11);
    assert!(s.tick().is_empty());
    assert_eq!(s.cur_tick, 12);
    s.connect(1, u32::MAX);
    assert!(s.tick().is_empty());
    assert_eq!(s.cur_tick, u32::MAX);
}

#[test]
fn large_gap_jumps_ahead() {
    let mut s: GameState<u8, String> = GameState::new(8, 3);
    s.connect(1, 10);
    s.initial_tick = 10;
    s.queue_msg(msg(40, "a"));
    s.queue_msg(msg(41, "b"));
    // 41 > 10 + 20: the clock jumps to 44 and renders tick 41.
    let out = s.tick();
    assert_eq!(ticks(&out), vec![40, 41]);
    assert_eq!(s.cur_tick, 46);
}

fn player_item(id: u128, collider: usize) -> (u128, EntitySpawn<u8>) {
    (
        id,
        EntitySpawn {
            entity: Entity::Player(PlayerEntity::new(20)),
            collider_handle: collider,
            body_handle: BodyRef::Rigid(collider + 100),
            force_gen_handle: Some(collider + 200),
            data: id as u8,
        },
    )
}

fn asteroid_item(id: u128, collider: usize) -> (u128, EntitySpawn<u8>) {
    (
        id,
        EntitySpawn {
            entity: Entity::Asteroid,
            collider_handle: collider,
            body_handle: BodyRef::Rigid(collider + 100),
            force_gen_handle: None,
            data: id as u8,
        },
    )
}

fn live(s: &GameState<u8, String>) -> Vec<(u128, Entity, u8)> {
    s.world.uuid_map.iter().map(|(id, h)| (*id, h.entity, h.data)).collect()
}

#[test]
fn snapshot_twice_gives_the_same_world() {
    let mut s: GameState<u8, String> = GameState::new(8, 2);
    s.connect(1, 10);
    s.world.spawn_entity(5, asteroid_item(5, 1).1).unwrap();
    let rejected = s.apply_snapshot(vec![player_item(1, 10), asteroid_item(2, 11), asteroid_item(3, 12)]);
    assert!(rejected.is_empty());
    let first = live(&s);
    assert_eq!(first.iter().map(|e| e.0).collect::<Vec<_>>(), vec![1, 2, 3]);
    let rejected = s.apply_snapshot(vec![player_item(1, 20), asteroid_item(2, 21), asteroid_item(3, 22)]);
    // The local player stays as it was; its fresh copy is turned away.
    assert_eq!(rejected, vec![20]);
    assert_eq!(live(&s), first);
    assert_eq!(s.world.uuid_map.get(&1).unwrap().collider_handle, 10);
    assert_eq!(s.world.uuid_map.get(&2).unwrap().collider_handle, 21);
}

#[test]
fn snapshot_turns_away_duplicates() {
    let mut s: GameState<u8, String> = GameState::new(8, 2);
    s.connect(1, 10);
    let rejected = s.apply_snapshot(vec![asteroid_item(2, 11), asteroid_item(2, 12), asteroid_item(3, 11)]);
    assert_eq!(rejected, vec![12, 11]);
    assert_eq!(s.world.uuid_map.len(), 1);
}

#[test]
fn local_player_lookup() {
    let mut s: GameState<u8, String> = GameState::new(4, 2);
    assert!(s.get_player_entity().is_none());
    s.connect(1, 10);
    s.world.spawn_entity(1, player_item(1, 10).1).unwrap();
    s.world.spawn_entity(2, asteroid_item(2, 11).1).unwrap();
    let (player, data) = s.get_player_entity().unwrap();
    assert_eq!(player.size, 20);
    assert_eq!(*data, 1);
    assert_eq!(s.get_player_entity_handles().unwrap().collider_handle, 10);
    s.connect(2, 10);
    assert!(s.get_player_entity().is_none());
    assert!(s.get_player_entity_handles().is_some());
}
