//! The client's reconciliation state: buffering tick-stamped server messages
//! and releasing them, a fixed number of ticks late, in tick order.
use vstd::prelude::*;
use crate::circular_buffer::{CircularBuffer, pushed};
use crate::registry::{
    Entity, EntityHandles, EntityId, EntitySpawn, PhysicsWorldInner, PlayerEntity, collider_used,
    live_of, spawned_handles,
};

verus! {

/// How far the newest buffered message may run ahead of the local tick
/// before the client jumps forward instead of draining the backlog.
pub const CATCH_UP_GAP: u32 = 20;

/// A tick-stamped message from the server; the payload is opaque here.
#[derive(Clone, Debug)]
pub struct ServerMessage<P> {
    pub tick: u32,
    pub timestamp: u64,
    pub payload: P,
}

/// What became of a message handed to `queue_msg`.
#[derive(Debug)]
pub enum QueueOutcome<P> {
    /// Apply this message right away.
    ApplyNow(ServerMessage<P>),
    /// The message waits in the buffer.
    Buffered,
    /// The message waits in the buffer, which was full: the oldest unread
    /// message was lost and a resync may be needed.
    Overwrote,
}

/// `x` capped at the largest tick.
pub open spec fn sat_tick(x: int) -> int {
    if x > u32::MAX {
        u32::MAX as int
    } else {
        x
    }
}

/// The local tick after the catch-up check: when the newest buffered tick
/// runs more than the gap ahead, jump to it plus the render delay.
pub open spec fn caught_up_tick(cur: int, newest: int, delay: int) -> int {
    if newest > cur + CATCH_UP_GAP {
        sat_tick(newest + delay)
    } else {
        cur
    }
}

/// The tick being rendered: the local tick less the render delay.
pub open spec fn target_tick(cur: int, delay: int) -> int {
    if cur >= delay {
        cur - delay
    } else {
        0
    }
}

/// How many messages at the head of `s` are due at `target`.
pub open spec fn due_count<P>(s: Seq<ServerMessage<P>>, target: int) -> nat
    decreases s.len(),
{
    if s.len() == 0 {
        0
    } else if s[0].tick <= target {
        1 + due_count(s.drop_first(), target)
    } else {
        0
    }
}

/// The identity map after registering the snapshot items in order on top
/// of `m`, paired with the colliders of the items that were turned away
/// because their identifier was alive or their collider taken.
pub open spec fn spawn_all<T>(m: Map<EntityId, EntityHandles<T>>, items: Seq<(EntityId, EntitySpawn<T>)>) -> (
    Map<EntityId, EntityHandles<T>>,
    Seq<usize>,
)
    decreases items.len(),
{
    if items.len() == 0 {
        (m, Seq::empty())
    } else {
        let (id, s) = items[0];
        if m.contains_key(id) || collider_used(m, s.collider_handle) {
            let (m2, rej) = spawn_all(m, items.drop_first());
            (m2, seq![s.collider_handle] + rej)
        } else {
            spawn_all(m.insert(id, spawned_handles(s)), items.drop_first())
        }
    }
}

/// What a snapshot says of each entity: its identifier, variant and payload.
pub open spec fn snapshot_content<T>(items: Seq<(EntityId, EntitySpawn<T>)>) -> Seq<
    (EntityId, Entity, T),
> {
    items.map_values(|it: (EntityId, EntitySpawn<T>)| (it.0, it.1.entity, it.1.data))
}

/// The live entities after adding the snapshot content `c` to `b`; an
/// identifier that is alive already keeps its entity.
pub open spec fn add_content<T>(b: Map<EntityId, (Entity, T)>, c: Seq<(EntityId, Entity, T)>) -> Map<
    EntityId,
    (Entity, T),
>
    decreases c.len(),
{
    if c.len() == 0 {
        b
    } else {
        let (id, e, d) = c[0];
        if b.contains_key(id) {
            add_content(b, c.drop_first())
        } else {
            add_content(b.insert(id, (e, d)), c.drop_first())
        }
    }
}

/// The solver handed out fresh colliders: no two items share one, and none
/// belongs to an entity of `m`.
pub open spec fn fresh_colliders<T>(m: Map<EntityId, EntityHandles<T>>, items: Seq<(EntityId, EntitySpawn<T>)>) -> bool {
    &&& forall|i: int, j: int|
        0 <= i < j < items.len() ==> (#[trigger] items[i]).1.collider_handle != (
        #[trigger] items[j]).1.collider_handle
    &&& forall|i: int| 0 <= i < items.len() ==> !collider_used(m, (#[trigger] items[i]).1.collider_handle)
}

proof fn lemma_spawn_all_fresh<T>(m: Map<EntityId, EntityHandles<T>>, items: Seq<(EntityId, EntitySpawn<T>)>)
    requires
        fresh_colliders(m, items),
    ensures
        live_of(spawn_all(m, items).0) == add_content(live_of(m), snapshot_content(items)),
    decreases items.len(),
{
    if items.len() > 0 {
        let (id, s) = items[0];
        let rest = items.drop_first();
        assert(snapshot_content(items).drop_first() =~= snapshot_content(rest));
        assert(!collider_used(m, items[0].1.collider_handle));
        if m.contains_key(id) {
            assert(fresh_colliders(m, rest)) by {
                assert forall|i: int| 0 <= i < rest.len() implies !collider_used(
                    m,
                    (#[trigger] rest[i]).1.collider_handle,
                ) by {
                    assert(rest[i] == items[i + 1]);
                }
                assert forall|i: int, j: int| 0 <= i < j < rest.len() implies (
                #[trigger] rest[i]).1.collider_handle != (#[trigger] rest[j]).1.collider_handle by {
                    assert(rest[i] == items[i + 1]);
                    assert(rest[j] == items[j + 1]);
                }
            }
            lemma_spawn_all_fresh(m, rest);
        } else {
            let m2 = m.insert(id, spawned_handles(s));
            assert(fresh_colliders(m2, rest)) by {
                assert forall|i: int| 0 <= i < rest.len() implies !collider_used(
                    m2,
                    (#[trigger] rest[i]).1.collider_handle,
                ) by {
                    assert(rest[i] == items[i + 1]);
                    let c = rest[i].1.collider_handle;
                    assert(!collider_used(m, items[i + 1].1.collider_handle));
                    if collider_used(m2, c) {
                        let k = choose|k: EntityId| #[trigger] m2.contains_key(k) && m2[k].collider_handle == c;
                        if k != id {
                            assert(m.contains_key(k) && m[k].collider_handle == c);
                        }
                    }
                }
                assert forall|i: int, j: int| 0 <= i < j < rest.len() implies (
                #[trigger] rest[i]).1.collider_handle != (#[trigger] rest[j]).1.collider_handle by {
                    assert(rest[i] == items[i + 1]);
                    assert(rest[j] == items[j + 1]);
                }
            }
            lemma_spawn_all_fresh(m2, rest);
            assert(live_of(m2) =~= live_of(m).insert(id, (s.entity, s.data)));
        }
    }
}

proof fn lemma_add_content_grows<T>(b: Map<EntityId, (Entity, T)>, c: Seq<(EntityId, Entity, T)>)
    ensures
        forall|k: EntityId|
            b.contains_key(k) ==> #[trigger] add_content(b, c).contains_key(k) && add_content(
                b,
                c,
            )[k] == b[k],
    decreases c.len(),
{
    if c.len() == 0 {
        assert(add_content(b, c) == b);
    } else {
        let (id, e, d) = c[0];
        if b.contains_key(id) {
            lemma_add_content_grows(b, c.drop_first());
            assert(add_content(b, c) == add_content(b, c.drop_first()));
            assert forall|k: EntityId| b.contains_key(k) implies #[trigger] add_content(
                b,
                c,
            ).contains_key(k) && add_content(b, c)[k] == b[k] by {
                assert(add_content(b, c.drop_first()).contains_key(k));
            }
        } else {
            let b2 = b.insert(id, (e, d));
            lemma_add_content_grows(b2, c.drop_first());
            assert(add_content(b, c) == add_content(b2, c.drop_first()));
            assert forall|k: EntityId| b.contains_key(k) implies #[trigger] add_content(
                b,
                c,
            ).contains_key(k) && add_content(b, c)[k] == b[k] by {
                assert(b2.contains_key(k));
                assert(add_content(b2, c.drop_first()).contains_key(k));
            }
        }
    }
}

/// Every entry of `a` is an entry of `b`.
pub open spec fn within<T>(a: Map<EntityId, (Entity, T)>, b: Map<EntityId, (Entity, T)>) -> bool {
    forall|k: EntityId| a.contains_key(k) ==> #[trigger] b.contains_key(k) && b[k] == a[k]
}

proof fn lemma_add_content_settled<T>(
    b1: Map<EntityId, (Entity, T)>,
    b2: Map<EntityId, (Entity, T)>,
    c: Seq<(EntityId, Entity, T)>,
)
    requires
        within(b1, b2),
        within(b2, add_content(b1, c)),
    ensures
        add_content(b2, c) == add_content(b1, c),
    decreases c.len(),
{
    if c.len() == 0 {
        assert(add_content(b1, c) == b1);
        assert forall|k: EntityId| b2.contains_key(k) implies b1.contains_key(k) by {
            assert(add_content(b1, c).contains_key(k));
        }
        assert forall|k: EntityId| b1.contains_key(k) implies b2.contains_key(k) && b2[k] == b1[k] by {
            assert(b2.contains_key(k));
        }
        assert(b1 =~= b2);
    } else {
        let (id, e, d) = c[0];
        let rest = c.drop_first();
        let b1n = if b1.contains_key(id) {
            b1
        } else {
            b1.insert(id, (e, d))
        };
        let b2n = if b2.contains_key(id) {
            b2
        } else {
            b2.insert(id, (e, d))
        };
        lemma_add_content_grows(b1n, rest);
        assert(add_content(b1, c) == add_content(b1n, rest));
        assert forall|k: EntityId| b1n.contains_key(k) implies #[trigger] b2n.contains_key(k)
            && b2n[k] == b1n[k] by {
            if b1.contains_key(k) {
                assert(b2.contains_key(k));
            } else if b2.contains_key(id) {
                assert(k == id);
                assert(add_content(b1n, rest).contains_key(id));
                assert(add_content(b1, c).contains_key(id));
            }
        }
        assert forall|k: EntityId| b2n.contains_key(k) implies #[trigger] add_content(
            b1n,
            rest,
        ).contains_key(k) && add_content(b1n, rest)[k] == b2n[k] by {
            if b2.contains_key(k) {
                assert(add_content(b1, c).contains_key(k));
            } else {
                assert(k == id);
                assert(b1n.contains_key(id));
                assert(add_content(b1n, rest).contains_key(id));
            }
        }
        lemma_add_content_settled(b1n, b2n, rest);
    }
}

proof fn lemma_due_count_bound<P>(s: Seq<ServerMessage<P>>, target: int)
    ensures
        due_count(s, target) <= s.len(),
    decreases s.len(),
{
    if s.len() > 0 {
        lemma_due_count_bound(s.drop_first(), target);
    }
}

/// Client session state. `world` carries client payload `T` per entity
/// and the buffer carries server payloads `P`.
pub struct GameState<T, P> {
    pub initial_tick: u32,
    pub cur_tick: u32,
    pub player_uuid: EntityId,
    pub render_delay_ticks: u32,
    pub world: PhysicsWorldInner<T>,
    pub msg_buffer: CircularBuffer<ServerMessage<P>>,
}

impl<T, P> GameState<T, P> {
    pub open spec fn wf(&self) -> bool {
        &&& self.world.wf()
        &&& self.msg_buffer.wf()
    }

    /// A session before the server has assigned an identity: tick zero, the
    /// nil identifier, an empty world and an empty buffer of
    /// `message_buffer_size` slots.
    pub fn new(message_buffer_size: usize, render_delay_ticks: u32) -> (r: Self)
        requires
            message_buffer_size > 0,
        ensures
            r.wf(),
            r.initial_tick == 0,
            r.cur_tick == 0,
            r.player_uuid == 0,
            r.render_delay_ticks == render_delay_ticks,
            r.world.uuid_map@.is_empty(),
            r.msg_buffer@.len() == 0,
            r.msg_buffer.capacity() == message_buffer_size,
    {
        GameState {
            initial_tick: 0,
            cur_tick: 0,
            player_uuid: 0,
            render_delay_ticks,
            world: PhysicsWorldInner::new(),
            msg_buffer: CircularBuffer::new(message_buffer_size),
        }
    }

    /// Takes a message from the transport. The first message, and any that
    /// shares its tick, is to be applied at once; the rest wait in the
    /// buffer.
    pub fn queue_msg(&mut self, msg: ServerMessage<P>) -> (r: QueueOutcome<P>)
        requires
            old(self).wf(),
        ensures
            final(self).wf(),
            final(self).cur_tick == old(self).cur_tick,
            final(self).player_uuid == old(self).player_uuid,
            final(self).render_delay_ticks == old(self).render_delay_ticks,
            final(self).world == old(self).world,
            final(self).msg_buffer.capacity() == old(self).msg_buffer.capacity(),
            old(self).cur_tick == 0 || msg.tick == old(self).initial_tick ==> {
                &&& r == QueueOutcome::ApplyNow(msg)
                &&& final(self).initial_tick == msg.tick
                &&& final(self).msg_buffer == old(self).msg_buffer
            },
            !(old(self).cur_tick == 0 || msg.tick == old(self).initial_tick) ==> {
                &&& final(self).initial_tick == old(self).initial_tick
                &&& final(self).msg_buffer@ == pushed(
                    old(self).msg_buffer@,
                    old(self).msg_buffer.capacity(),
                    msg,
                )
                &&& r == if old(self).msg_buffer@.len() == old(self).msg_buffer.capacity() {
                    QueueOutcome::<P>::Overwrote
                } else {
                    QueueOutcome::<P>::Buffered
                }
            },
    {
        if self.cur_tick == 0 || msg.tick == self.initial_tick {
            self.initial_tick = msg.tick;
            return QueueOutcome::ApplyNow(msg);
        }
        let full = self.msg_buffer.len() == self.msg_buffer.size();
        self.msg_buffer.push(msg);
        if full {
            QueueOutcome::Overwrote
        } else {
            QueueOutcome::Buffered
        }
    }

    /// Records the identity the server assigned to the local player and
    /// restarts the local clock at `tick`.
    pub fn connect(&mut self, player_id: EntityId, tick: u32)
        ensures
            *final(self) == (GameState { player_uuid: player_id, cur_tick: tick, ..*old(self) }),
    {
        self.player_uuid = player_id;
        self.cur_tick = tick;
    }

    /// The registry record of the local player, once it exists.
    pub fn get_player_entity_handles(&self) -> (r: Option<&EntityHandles<T>>)
        ensures
            self.world.uuid_map@.contains_key(self.player_uuid) ==> r.is_some() && *r.unwrap()
                == self.world.uuid_map@[self.player_uuid],
            !self.world.uuid_map@.contains_key(self.player_uuid) ==> r.is_none(),
    {
        self.world.uuid_map.get(&self.player_uuid)
    }

    /// The player state and client payload of the local player, once it
    /// exists as a player.
    pub fn get_player_entity(&self) -> (r: Option<(PlayerEntity, &T)>)
        ensures
            self.world.player_spec(self.player_uuid) is Ok ==> r.is_some() && r.unwrap().0
                == self.world.player_spec(self.player_uuid)->Ok_0 && *r.unwrap().1
                == self.world.uuid_map@[self.player_uuid].data,
            self.world.player_spec(self.player_uuid) is Err ==> r.is_none(),
    {
        match self.world.uuid_map.get(&self.player_uuid) {
            Some(h) => match h.entity {
                Entity::Player(p) => Some((p, &h.data)),
                _ => None,
            },
            None => None,
        }
    }

    /// Whether updates for `id` are blended with the local prediction
    /// rather than applied as they come: only those of the local player.
    pub fn interpolates(&self, id: EntityId) -> (r: bool)
        ensures
            r == (id == self.player_uuid),
    {
        id == self.player_uuid
    }

    /// Replaces the world by a snapshot: every entity but the local player
    /// goes, then the items are registered in order. Items whose identifier
    /// is alive, or whose collider is taken, are turned away; their colliders
    /// are returned so that the caller can free them.
    pub fn apply_snapshot(&mut self, items: Vec<(EntityId, EntitySpawn<T>)>) -> (r: Vec<usize>)
        requires
            old(self).wf(),
        ensures
            final(self).wf(),
            (final(self).world.uuid_map@, r@) == spawn_all(
                old(self).world.uuid_map@.restrict(set![old(self).player_uuid]),
                items@,
            ),
            final(self).msg_buffer == old(self).msg_buffer,
            final(self).player_uuid == old(self).player_uuid,
            final(self).cur_tick == old(self).cur_tick,
            final(self).initial_tick == old(self).initial_tick,
            final(self).render_delay_ticks == old(self).render_delay_ticks,
    {
        self.world.retain_only(self.player_uuid);
        let ghost m0 = self.world.uuid_map@;
        let ghost all = items@;
        let mut items = items;
        let mut rejected: Vec<usize> = Vec::new();
        while items.len() > 0
            invariant
                self.wf(),
                self.msg_buffer == old(self).msg_buffer,
                self.player_uuid == old(self).player_uuid,
                self.cur_tick == old(self).cur_tick,
                self.initial_tick == old(self).initial_tick,
                self.render_delay_ticks == old(self).render_delay_ticks,
                spawn_all(m0, all) == ({
                    let (m, rej) = spawn_all(self.world.uuid_map@, items@);
                    (m, rejected@ + rej)
                }),
            decreases items@.len(),
        {
            let (id, s) = items.remove(0);
            let c = s.collider_handle;
            let ghost before = self.world.uuid_map@;
            proof {
                let hm = self.world.handle_map@;
                if collider_used(before, c) {
                    let k = choose|k: EntityId| #[trigger] before.contains_key(k) && before[k].collider_handle == c;
                    assert(hm.contains_key(before[k].collider_handle));
                }
                if hm.contains_key(c) {
                    assert(before.contains_key(hm[c]));
                }
            }
            match self.world.spawn_entity(id, s) {
                Ok(()) => {},
                Err(_) => {
                    let ghost prev = rejected@;
                    rejected.push(c);
                    proof {
                        let (m, rej) = spawn_all(self.world.uuid_map@, items@);
                        assert(prev.push(c) + rej =~= prev + (seq![c] + rej));
                    }
                },
            }
        }
        proof {
            assert(rejected@ + Seq::<usize>::empty() =~= rejected@);
        }
        rejected
    }

    /// Advances the local tick and releases the messages due for it, in
    /// order. With nothing buffered nothing is released and the local tick
    /// moves on by one, to keep the local simulation going. Otherwise it
    /// first jumps ahead if the backlog runs more than `CATCH_UP_GAP` ticks
    /// ahead, then pops every message at the head whose tick is at most the
    /// local tick less the render delay, advancing the local tick by one per
    /// message, or by one if none was due.
    pub fn tick(&mut self) -> (r: Vec<ServerMessage<P>>)
        requires
            old(self).wf(),
        ensures
            final(self).wf(),
            final(self).initial_tick == old(self).initial_tick,
            final(self).player_uuid == old(self).player_uuid,
            final(self).render_delay_ticks == old(self).render_delay_ticks,
            final(self).world == old(self).world,
            final(self).msg_buffer.capacity() == old(self).msg_buffer.capacity(),
            old(self).msg_buffer@.len() == 0 ==> {
                &&& r@ == Seq::<ServerMessage<P>>::empty()
                &&& final(self).msg_buffer == old(self).msg_buffer
                &&& final(self).cur_tick == sat_tick(old(self).cur_tick + 1)
            },
            old(self).msg_buffer@.len() > 0 ==> {
                let b = old(self).msg_buffer@;
                let delay = old(self).render_delay_ticks as int;
                let c1 = caught_up_tick(old(self).cur_tick as int, b.last().tick as int, delay);
                let k = due_count(b, target_tick(c1, delay));
                &&& r@ == b.subrange(0, k as int)
                &&& final(self).msg_buffer@ == b.subrange(k as int, b.len() as int)
                &&& final(self).cur_tick == sat_tick(c1 + if k == 0 { 1 } else { k })
            },
    {
        if self.msg_buffer.is_empty() {
            if self.cur_tick < u32::MAX {
                self.cur_tick = self.cur_tick + 1;
            }
            return Vec::new();
        }
        let ghost b = self.msg_buffer@;
        let last_index = self.msg_buffer.len() - 1;
        let newest_msg_tick = self.msg_buffer.get(last_index).unwrap().tick;
        let delay = self.render_delay_ticks;
        if newest_msg_tick as u64 > self.cur_tick as u64 + CATCH_UP_GAP as u64 {
            let jumped = newest_msg_tick as u64 + delay as u64;
            self.cur_tick = if jumped > u32::MAX as u64 {
                u32::MAX
            } else {
                jumped as u32
            };
        }
        let ghost c1 = self.cur_tick as int;
        assert(c1 == caught_up_tick(old(self).cur_tick as int, b.last().tick as int, delay as int));
        let target = if self.cur_tick >= delay {
            self.cur_tick - delay
        } else {
            0
        };
        let orig_tick = self.cur_tick;
        let mut released: Vec<ServerMessage<P>> = Vec::new();
        let mut k: usize = 0;
        loop
            invariant
                self.msg_buffer.wf(),
                self.msg_buffer.capacity() == old(self).msg_buffer.capacity(),
                self.initial_tick == old(self).initial_tick,
                self.player_uuid == old(self).player_uuid,
                self.render_delay_ticks == delay,
                self.world == old(self).world,
                orig_tick == c1,
                target == target_tick(c1, delay as int),
                k <= b.len(),
                b.len() <= usize::MAX,
                self.msg_buffer@ == b.subrange(k as int, b.len() as int),
                released@ == b.subrange(0, k as int),
                due_count(b, target as int) == k + due_count(self.msg_buffer@, target as int),
                self.cur_tick == sat_tick(c1 + k),
            ensures
                due_count(self.msg_buffer@, target as int) == 0,
            decreases b.len() - k,
        {
            let due = match self.msg_buffer.get(0) {
                Some(msg) => msg.tick <= target,
                None => false,
            };
            if !due {
                proof {
                    if self.msg_buffer@.len() > 0 {
                        assert(self.msg_buffer@[0].tick > target);
                    }
                    assert(due_count(self.msg_buffer@, target as int) == 0);
                }
                break;
            }
            let msg = self.msg_buffer.pop().unwrap();
            proof {
                assert(b.subrange(k as int, b.len() as int).drop_first() =~= b.subrange(
                    k + 1,
                    b.len() as int,
                ));
                assert(b.subrange(0, k + 1) =~= b.subrange(0, k as int).push(msg));
            }
            released.push(msg);
            k = k + 1;
            if self.cur_tick < u32::MAX {
                self.cur_tick = self.cur_tick + 1;
            }
        }
        if self.cur_tick == orig_tick && k == 0 {
            if self.cur_tick < u32::MAX {
                self.cur_tick = self.cur_tick + 1;
            }
        }
        proof {
            lemma_due_count_bound(b, target as int);
        }
        released
    }
}

/// Applying one snapshot twice in a row leaves the same live entities,
/// with the same variants and payloads, as applying it once. `first` and
/// `second` are the same snapshot with the collider handles the solver made
/// for each application; each time they are fresh.
pub proof fn lemma_snapshot_idempotent<T>(
    m0: Map<EntityId, EntityHandles<T>>,
    player: EntityId,
    first: Seq<(EntityId, EntitySpawn<T>)>,
    second: Seq<(EntityId, EntitySpawn<T>)>,
)
    requires
        snapshot_content(first) == snapshot_content(second),
        fresh_colliders(m0.restrict(set![player]), first),
        fresh_colliders(spawn_all(m0.restrict(set![player]), first).0.restrict(set![player]), second),
    ensures
        live_of(spawn_all(spawn_all(m0.restrict(set![player]), first).0.restrict(set![player]), second).0)
            == live_of(spawn_all(m0.restrict(set![player]), first).0),
{
    let k0 = m0.restrict(set![player]);
    let m1 = spawn_all(k0, first).0;
    let k1 = m1.restrict(set![player]);
    let c = snapshot_content(first);
    lemma_spawn_all_fresh(k0, first);
    lemma_spawn_all_fresh(k1, second);
    let l1 = add_content(live_of(k0), c);
    lemma_add_content_grows(live_of(k0), c);
    assert(live_of(k1) =~= live_of(m1).restrict(set![player]));
    assert forall|k: EntityId| live_of(k1).contains_key(k) implies #[trigger] l1.contains_key(k)
        && l1[k] == live_of(k1)[k] by {}
    assert(within(live_of(k0), live_of(k1)));
    lemma_add_content_settled(live_of(k0), live_of(k1), c);
}

} // verus!
