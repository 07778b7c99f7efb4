//! The entity registry: which solver handles belong to which entity.
//!
//! Solver handles are plain indices handed out by the rigid-body solver; the
//! registry is their sole owner and keeps the identity map and its reverse in
//! step.
use vstd::prelude::*;
use std::collections::BTreeMap;
use crate::movement::Movement;

verus! {

/// A stable 128-bit entity identifier, assigned by the server.
pub type EntityId = u128;

/// The body a collider hangs from: the static ground, or a rigid body.
#[derive(Clone, Copy, Debug, PartialEq, Eq, Structural)]
pub enum BodyRef {
    Ground,
    Rigid(usize),
}

/// A point in whole world units, as the wire carries aim points.
#[derive(Clone, Copy, Debug, PartialEq, Eq, Structural)]
pub struct AimPoint {
    pub x: u32,
    pub y: u32,
}

/// Gameplay state of a player.
#[derive(Clone, Copy, Debug, PartialEq, Eq, Structural)]
pub struct PlayerEntity {
    pub size: u32,
    pub movement: Movement,
    pub beam_aim: AimPoint,
    pub beam_on: bool,
}

impl PlayerEntity {
    pub fn new(size: u32) -> (r: Self)
        ensures
            r == (PlayerEntity { size, movement: Movement::Stop, beam_aim: AimPoint { x: 0, y: 0 }, beam_on: false }),
    {
        PlayerEntity { size, movement: Movement::Stop, beam_aim: AimPoint { x: 0, y: 0 }, beam_on: false }
    }
}

/// The gameplay variant of an entity. The outlines of asteroids and barriers
/// are geometry for the solver and travel in the entity's payload.
#[derive(Clone, Copy, Debug, PartialEq, Eq, Structural)]
pub enum Entity {
    Player(PlayerEntity),
    Asteroid,
    Barrier,
}

/// What the registry holds for one entity.
pub struct EntityHandles<T> {
    pub collider_handle: usize,
    pub body_handle: BodyRef,
    pub beam_handle: Option<usize>,
    pub entity: Entity,
    pub data: T,
}

/// An entity whose body and collider the solver has just created.
/// `force_gen_handle` is the movement force slot of a dynamic player.
pub struct EntitySpawn<T> {
    pub entity: Entity,
    pub collider_handle: usize,
    pub body_handle: BodyRef,
    pub force_gen_handle: Option<usize>,
    pub data: T,
}

#[derive(Clone, Copy, Debug, PartialEq, Eq, Structural)]
pub enum SpawnError {
    /// An entity with this identifier is alive already.
    DuplicateId,
    /// The collider handle is registered to another entity.
    DuplicateCollider,
}

#[derive(Clone, Copy, Debug, PartialEq, Eq, Structural)]
pub enum EntityError {
    UnknownEntity,
    NotAPlayer,
}

/// The record kept for a fresh entity.
pub open spec fn spawned_handles<T>(s: EntitySpawn<T>) -> EntityHandles<T> {
    EntityHandles {
        collider_handle: s.collider_handle,
        body_handle: s.body_handle,
        beam_handle: None,
        entity: s.entity,
        data: s.data,
    }
}

/// Whether a fresh entity takes part in movement input: a player with a
/// rigid body and a force slot.
pub open spec fn drives_movement<T>(s: EntitySpawn<T>) -> bool {
    &&& s.entity is Player
    &&& s.body_handle is Rigid
    &&& s.force_gen_handle is Some
}

/// The identity map and the collider map are mutual inverses.
pub open spec fn maps_inverse<T>(
    uuid_map: Map<EntityId, EntityHandles<T>>,
    handle_map: Map<usize, EntityId>,
) -> bool {
    &&& forall|id: EntityId| #[trigger]
        uuid_map.contains_key(id) ==> handle_map.contains_key(uuid_map[id].collider_handle)
            && handle_map[uuid_map[id].collider_handle] == id
    &&& forall|c: usize| #[trigger]
        handle_map.contains_key(c) ==> uuid_map.contains_key(handle_map[c])
            && uuid_map[handle_map[c]].collider_handle == c
}

/// The variant and payload of each entity of an identity map.
pub open spec fn live_of<T>(m: Map<EntityId, EntityHandles<T>>) -> Map<EntityId, (Entity, T)> {
    Map::new(|id: EntityId| m.contains_key(id), |id: EntityId| (m[id].entity, m[id].data))
}

/// Whether some entity of `m` owns collider `c`.
pub open spec fn collider_used<T>(m: Map<EntityId, EntityHandles<T>>, c: usize) -> bool {
    exists|id: EntityId| #[trigger] m.contains_key(id) && m[id].collider_handle == c
}

/// `m` without the entry of `sensor`, if there is one.
pub open spec fn without_sensor(m: Map<usize, EntityId>, sensor: Option<usize>) -> Map<
    usize,
    EntityId,
> {
    match sensor {
        Some(s) => m.remove(s),
        None => m,
    }
}

/// `m` with `sensor` owned by `id`, if there is a sensor.
pub open spec fn with_sensor(m: Map<usize, EntityId>, sensor: Option<usize>, id: EntityId) -> Map<
    usize,
    EntityId,
> {
    match sensor {
        Some(s) => m.insert(s, id),
        None => m,
    }
}

/// The registry half of the physics world. The solver that owns the bodies
/// lives with the caller, which hands the registry the handles it made.
pub struct PhysicsWorldInner<T> {
    /// Entity identifier to its handles and gameplay data.
    pub uuid_map: BTreeMap<EntityId, EntityHandles<T>>,
    /// Collider handle to the entity that owns it.
    pub handle_map: BTreeMap<usize, EntityId>,
    /// Body, owner and force slot of every player that takes movement input.
    pub user_handles: Vec<(usize, EntityId, usize)>,
    /// Beam sensor handle to the player that fires it.
    pub beam_sensors: BTreeMap<usize, EntityId>,
}

impl<T> PhysicsWorldInner<T> {
    pub open spec fn wf(&self) -> bool {
        &&& self.uuid_map@.dom().finite()
        &&& self.handle_map@.dom().finite()
        &&& maps_inverse(self.uuid_map@, self.handle_map@)
        &&& forall|s: usize| #[trigger]
            self.beam_sensors@.contains_key(s) ==> self.uuid_map@.contains_key(
                self.beam_sensors@[s],
            ) && self.uuid_map@[self.beam_sensors@[s]].beam_handle == Some(s)
        &&& forall|id: EntityId| #[trigger]
            self.uuid_map@.contains_key(id) && self.uuid_map@[id].beam_handle is Some
                ==> self.beam_sensors@.contains_key(self.uuid_map@[id].beam_handle->Some_0)
                && self.beam_sensors@[self.uuid_map@[id].beam_handle->Some_0] == id
        &&& forall|i: int|
            0 <= i < self.user_handles@.len() ==> {
                let (b, id, _) = #[trigger] self.user_handles@[i];
                &&& self.uuid_map@.contains_key(id)
                &&& self.uuid_map@[id].entity is Player
                &&& self.uuid_map@[id].body_handle == BodyRef::Rigid(b)
            }
        &&& forall|i: int, j: int|
            0 <= i < j < self.user_handles@.len() ==> (#[trigger] self.user_handles@[i]).1
                != (#[trigger] self.user_handles@[j]).1
    }

    pub fn new() -> (r: Self)
        ensures
            r.wf(),
            r.uuid_map@ == Map::<EntityId, EntityHandles<T>>::empty(),
            r.handle_map@ == Map::<usize, EntityId>::empty(),
            r.beam_sensors@ == Map::<usize, EntityId>::empty(),
            r.user_handles@ == Seq::<(usize, EntityId, usize)>::empty(),
    {
        PhysicsWorldInner {
            uuid_map: BTreeMap::new(),
            handle_map: BTreeMap::new(),
            user_handles: Vec::new(),
            beam_sensors: BTreeMap::new(),
        }
    }

    pub fn contains(&self, id: EntityId) -> (r: bool)
        ensures
            r == self.uuid_map@.contains_key(id),
    {
        self.uuid_map.contains_key(&id)
    }

    /// Registers an entity whose solver objects were just made. Fails,
    /// changing nothing, when the identifier is alive already or the
    /// collider handle is taken.
    pub fn spawn_entity(&mut self, id: EntityId, spawn: EntitySpawn<T>) -> (r: Result<(), SpawnError>)
        requires
            old(self).wf(),
        ensures
            final(self).wf(),
            old(self).uuid_map@.contains_key(id) ==> r == Err::<(), SpawnError>(
                SpawnError::DuplicateId,
            ) && *final(self) == *old(self),
            !old(self).uuid_map@.contains_key(id) && old(self).handle_map@.contains_key(
                spawn.collider_handle,
            ) ==> r == Err::<(), SpawnError>(SpawnError::DuplicateCollider) && *final(self)
                == *old(self),
            !old(self).uuid_map@.contains_key(id) && !old(self).handle_map@.contains_key(
                spawn.collider_handle,
            ) ==> {
                &&& r is Ok
                &&& final(self).uuid_map@ == old(self).uuid_map@.insert(id, spawned_handles(spawn))
                &&& final(self).handle_map@ == old(self).handle_map@.insert(
                    spawn.collider_handle,
                    id,
                )
                &&& final(self).beam_sensors@ == old(self).beam_sensors@
                &&& final(self).user_handles@ == if drives_movement(spawn) {
                    old(self).user_handles@.push(
                        (spawn.body_handle->Rigid_0, id, spawn.force_gen_handle->Some_0),
                    )
                } else {
                    old(self).user_handles@
                }
            },
    {
        if self.uuid_map.contains_key(&id) {
            return Err(SpawnError::DuplicateId);
        }
        if self.handle_map.contains_key(&spawn.collider_handle) {
            return Err(SpawnError::DuplicateCollider);
        }
        let EntitySpawn { entity, collider_handle, body_handle, force_gen_handle, data } = spawn;
        match (entity, body_handle, force_gen_handle) {
            (Entity::Player(_), BodyRef::Rigid(b), Some(g)) => {
                self.user_handles.push((b, id, g));
            },
            _ => {},
        }
        let handles = EntityHandles {
            collider_handle,
            body_handle,
            beam_handle: None,
            entity,
            data,
        };
        self.uuid_map.insert(id, handles);
        self.handle_map.insert(collider_handle, id);
        Ok(())
    }

    /// Removes an entity and every index entry that refers to it, handing
    /// back its record so the caller can free the solver objects. An
    /// unknown identifier changes nothing.
    pub fn remove_entity(&mut self, entity_id: EntityId) -> (r: Option<EntityHandles<T>>)
        requires
            old(self).wf(),
        ensures
            final(self).wf(),
            !old(self).uuid_map@.contains_key(entity_id) ==> r.is_none() && *final(self)
                == *old(self),
            old(self).uuid_map@.contains_key(entity_id) ==> {
                let h = old(self).uuid_map@[entity_id];
                &&& r == Some(h)
                &&& final(self).uuid_map@ == old(self).uuid_map@.remove(entity_id)
                &&& final(self).handle_map@ == old(self).handle_map@.remove(h.collider_handle)
                &&& final(self).beam_sensors@ == match h.beam_handle {
                    Some(s) => old(self).beam_sensors@.remove(s),
                    None => old(self).beam_sensors@,
                }
                &&& final(self).user_handles@ == old(self).user_handles@.filter(
                    |e: (usize, EntityId, usize)| e.1 != entity_id,
                )
            },
    {
        if !self.uuid_map.contains_key(&entity_id) {
            return None;
        }
        let handles = self.uuid_map.remove(&entity_id).unwrap();
        self.handle_map.remove(&handles.collider_handle);
        match handles.beam_handle {
            Some(s) => {
                self.beam_sensors.remove(&s);
            },
            None => {},
        }
        let ghost pred: spec_fn((usize, EntityId, usize)) -> bool = |x: (usize, EntityId, usize)|
            x.1 != entity_id;
        let ghost old_users = self.user_handles@;
        let ghost mut idx: Seq<int> = Seq::empty();
        let mut kept: Vec<(usize, EntityId, usize)> = Vec::new();
        let mut i: usize = 0;
        while i < self.user_handles.len()
            invariant
                self.user_handles@ == old_users,
                forall|x: (usize, EntityId, usize)| #[trigger] pred(x) == (x.1 != entity_id),
                i <= old_users.len(),
                kept@ == old_users.subrange(0, i as int).filter(pred),
                idx.len() == kept@.len(),
                forall|k: int|
                    0 <= k < idx.len() ==> 0 <= #[trigger] idx[k] < i && kept@[k]
                        == old_users[idx[k]] && kept@[k].1 != entity_id,
                forall|k1: int, k2: int|
                    0 <= k1 < k2 < idx.len() ==> #[trigger] idx[k1] < #[trigger] idx[k2],
            decreases old_users.len() - i,
        {
            let e = self.user_handles[i];
            proof {
                assert(old_users.subrange(0, i + 1) =~= old_users.subrange(0, i as int).push(e));
                old_users.subrange(0, i as int).lemma_filter_push(e, pred);
                assert(pred(e) == (e.1 != entity_id));
            }
            if e.1 != entity_id {
                kept.push(e);
                proof {
                    idx = idx.push(i as int);
                }
            }
            i = i + 1;
        }
        proof {
            assert(old_users.subrange(0, old_users.len() as int) =~= old_users);
        }
        self.user_handles = kept;
        proof {
            assert forall|k: int| 0 <= k < self.user_handles@.len() implies {
                let (b, id, _) = #[trigger] self.user_handles@[k];
                &&& self.uuid_map@.contains_key(id)
                &&& self.uuid_map@[id].entity is Player
                &&& self.uuid_map@[id].body_handle == BodyRef::Rigid(b)
            } by {
                let e = old_users[idx[k]];
            }
            assert forall|k1: int, k2: int|
                0 <= k1 < k2 < self.user_handles@.len() implies (#[trigger] self.user_handles@[
                k1]).1 != (#[trigger] self.user_handles@[k2]).1 by {
                let e1 = old_users[idx[k1]];
                let e2 = old_users[idx[k2]];
            }
        }
        Some(handles)
    }
}

impl<T> PhysicsWorldInner<T> {
    /// Replaces the player state of a live player entity.
    pub(crate) fn replace_player(&mut self, id: EntityId, player: PlayerEntity)
        requires
            old(self).wf(),
            old(self).uuid_map@.contains_key(id),
            old(self).uuid_map@[id].entity is Player,
        ensures
            final(self).wf(),
            final(self).uuid_map@ == old(self).uuid_map@.insert(
                id,
                EntityHandles { entity: Entity::Player(player), ..old(self).uuid_map@[id] },
            ),
            final(self).handle_map@ == old(self).handle_map@,
            final(self).beam_sensors@ == old(self).beam_sensors@,
            final(self).user_handles@ == old(self).user_handles@,
    {
        let mut h = self.uuid_map.remove(&id).unwrap();
        h.entity = Entity::Player(player);
        self.uuid_map.insert(id, h);
    }

    /// The player state of `id`, when it names a live player.
    pub open spec fn player_spec(&self, id: EntityId) -> Result<PlayerEntity, EntityError> {
        if !self.uuid_map@.contains_key(id) {
            Err(EntityError::UnknownEntity)
        } else {
            match self.uuid_map@[id].entity {
                Entity::Player(p) => Ok(p),
                _ => Err(EntityError::NotAPlayer),
            }
        }
    }

    /// The player state of `id`, if it names a live player.
    pub fn player(&self, id: EntityId) -> (r: Result<PlayerEntity, EntityError>)
        ensures
            r == self.player_spec(id),
    {
        match self.uuid_map.get(&id) {
            None => Err(EntityError::UnknownEntity),
            Some(h) => match h.entity {
                Entity::Player(p) => Ok(p),
                _ => Err(EntityError::NotAPlayer),
            },
        }
    }

    /// Sets the movement input of a player. Fails, changing nothing, when
    /// `user_id` does not name a live player.
    pub fn set_player_movement(&mut self, user_id: EntityId, new_movement: Movement) -> (r: Result<
        (),
        EntityError,
    >)
        requires
            old(self).wf(),
        ensures
            final(self).wf(),
            old(self).player_spec(user_id) is Err ==> r == Err::<(), EntityError>(
                old(self).player_spec(user_id)->Err_0,
            ) && *final(self) == *old(self),
            old(self).player_spec(user_id) is Ok ==> r is Ok && final(self).uuid_map@ == old(
                self,
            ).uuid_map@.insert(
                user_id,
                EntityHandles {
                    entity: Entity::Player(
                        PlayerEntity {
                            movement: new_movement,
                            ..old(self).uuid_map@[user_id].entity->Player_0
                        },
                    ),
                    ..old(self).uuid_map@[user_id]
                },
            ) && final(self).handle_map@ == old(self).handle_map@ && final(self).beam_sensors@
                == old(self).beam_sensors@ && final(self).user_handles@ == old(self).user_handles@,
    {
        let p = match self.player(user_id) {
            Ok(p) => p,
            Err(e) => {
                return Err(e);
            },
        };
        self.replace_player(user_id, PlayerEntity { movement: new_movement, ..p });
        Ok(())
    }

    /// Points the beam sensor entry of `id` at `beam`, dropping the reverse
    /// entry of the sensor it had.
    pub(crate) fn set_beam_handle(&mut self, id: EntityId, beam: Option<usize>)
        requires
            old(self).wf(),
            old(self).uuid_map@.contains_key(id),
            beam is Some ==> !old(self).beam_sensors@.contains_key(beam->Some_0),
        ensures
            final(self).wf(),
            final(self).uuid_map@ == old(self).uuid_map@.insert(
                id,
                EntityHandles { beam_handle: beam, ..old(self).uuid_map@[id] },
            ),
            final(self).handle_map@ == old(self).handle_map@,
            final(self).user_handles@ == old(self).user_handles@,
            final(self).beam_sensors@ == with_sensor(
                without_sensor(old(self).beam_sensors@, old(self).uuid_map@[id].beam_handle),
                beam,
                id,
            ),
    {
        let mut h = self.uuid_map.remove(&id).unwrap();
        match h.beam_handle {
            Some(s) => {
                self.beam_sensors.remove(&s);
            },
            None => {},
        }
        match beam {
            Some(s) => {
                self.beam_sensors.insert(s, id);
            },
            None => {},
        }
        h.beam_handle = beam;
        self.uuid_map.insert(id, h);
    }

    /// Removes every entity but `keep`, which stays as it is.
    pub fn retain_only(&mut self, keep: EntityId)
        requires
            old(self).wf(),
        ensures
            final(self).wf(),
            final(self).uuid_map@ == old(self).uuid_map@.restrict(set![keep]),
            forall|e: (usize, EntityId, usize)|
                final(self).user_handles@.contains(e) <==> old(self).user_handles@.contains(e)
                    && e.1 == keep,
    {
        if !self.uuid_map.contains_key(&keep) {
            self.clear();
            proof {
                assert(self.uuid_map@ =~= old(self).uuid_map@.restrict(set![keep]));
                assert forall|e: (usize, EntityId, usize)|
                    old(self).user_handles@.contains(e) && e.1 == keep implies false by {
                    let i = choose|i: int|
                        0 <= i < old(self).user_handles@.len() && old(self).user_handles@[i] == e;
                    assert(old(self).uuid_map@.contains_key(old(self).user_handles@[i].1));
                }
            }
            return;
        }
        let mut entry: Option<(usize, EntityId, usize)> = None;
        let mut i: usize = 0;
        while i < self.user_handles.len()
            invariant
                i <= self.user_handles@.len(),
                entry is Some ==> self.user_handles@.contains(entry->Some_0) && (entry->Some_0).1
                    == keep,
                entry is None ==> forall|j: int|
                    0 <= j < i ==> (#[trigger] self.user_handles@[j]).1 != keep,
            decreases self.user_handles@.len() - i,
        {
            if self.user_handles[i].1 == keep {
                entry = Some(self.user_handles[i]);
            }
            i = i + 1;
        }
        let ghost old_self = *self;
        let h = self.uuid_map.remove(&keep).unwrap();
        self.uuid_map.clear();
        self.handle_map.clear();
        self.beam_sensors.clear();
        self.user_handles = Vec::new();
        self.handle_map.insert(h.collider_handle, keep);
        match h.beam_handle {
            Some(s) => {
                self.beam_sensors.insert(s, keep);
            },
            None => {},
        }
        match entry {
            Some(e) => {
                self.user_handles.push(e);
            },
            None => {},
        }
        self.uuid_map.insert(keep, h);
        proof {
            assert(self.uuid_map@ =~= old_self.uuid_map@.restrict(set![keep]));
            assert forall|e: (usize, EntityId, usize)|
                self.user_handles@.contains(e) <==> old_self.user_handles@.contains(e) && e.1
                    == keep by {
                if old_self.user_handles@.contains(e) && e.1 == keep {
                    let j = choose|j: int|
                        0 <= j < old_self.user_handles@.len() && old_self.user_handles@[j] == e;
                    assert(old_self.user_handles@[j] == e);
                    if entry is Some {
                        let k = choose|k: int|
                            0 <= k < old_self.user_handles@.len() && old_self.user_handles@[k]
                                == entry->Some_0;
                        if j != k {
                            assert(old_self.user_handles@[j].1 != old_self.user_handles@[k].1);
                        }
                        assert(self.user_handles@[0] == e);
                    }
                }
                if self.user_handles@.contains(e) {
                    assert(self.user_handles@[0] == e);
                }
            }
            if entry is Some {
                let k = choose|k: int|
                    0 <= k < old_self.user_handles@.len() && old_self.user_handles@[k]
                        == entry->Some_0;
                assert(old_self.user_handles@[k] == entry->Some_0);
            }
        }
    }

    /// Removes every entity.
    pub fn clear(&mut self)
        requires
            old(self).wf(),
        ensures
            final(self).wf(),
            final(self).uuid_map@ == Map::<EntityId, EntityHandles<T>>::empty(),
            final(self).handle_map@ == Map::<usize, EntityId>::empty(),
            final(self).beam_sensors@ == Map::<usize, EntityId>::empty(),
            final(self).user_handles@ == Seq::<(usize, EntityId, usize)>::empty(),
    {
        self.uuid_map.clear();
        self.handle_map.clear();
        self.user_handles.clear();
        self.beam_sensors.clear();
    }
}

/// The identity map and the collider map of a well-formed registry are
/// mutual inverses of equal size. Every operation on the registry keeps it
/// well formed, so this holds after any sequence of spawns and removals.
pub proof fn lemma_registry_consistent<T>(w: PhysicsWorldInner<T>)
    requires
        w.wf(),
    ensures
        maps_inverse(w.uuid_map@, w.handle_map@),
        w.uuid_map@.len() == w.handle_map@.len(),
{
    let f = |id: EntityId| w.uuid_map@[id].collider_handle;
    let x = w.uuid_map@.dom();
    let y = w.handle_map@.dom();
    assert(vstd::relations::injective_on(f, x));
    assert(x.map(f) =~= y) by {
        assert forall|c: usize| y.contains(c) implies x.map(f).contains(c) by {
            assert(f(w.handle_map@[c]) == c);
        }
    }
    vstd::set_lib::lemma_map_size(x, y, f);
}

} // verus!
