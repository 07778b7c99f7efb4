//! The server's per-tick decisions: applying player input diffs, turning
//! solver events into outbound updates, and choosing the movement forces.
use vstd::prelude::*;
use crate::movement::Movement;
use crate::registry::{
    AimPoint, BodyRef, Entity, EntityHandles, EntityId, PhysicsWorldInner, PlayerEntity,
};

verus! {

/// Overlap status between a sensor and another collider.
#[derive(Clone, Copy, Debug, PartialEq, Eq, Structural)]
pub enum Proximity {
    Intersecting,
    WithinMargin,
    Disjoint,
}

/// A sensor overlap transition reported by the solver for one step.
#[derive(Clone, Copy, Debug, PartialEq, Eq, Structural)]
pub struct ProximityEvent {
    pub collider1: usize,
    pub collider2: usize,
    pub prev_status: Proximity,
    pub new_status: Proximity,
}

/// A record the server sends out as the result of a tick.
#[derive(Clone, Debug)]
pub enum Update {
    PlayerMovement { id: EntityId, movement: Movement },
    BeamAim { id: EntityId, aim: AimPoint },
    BeamToggle { id: EntityId, beam_on: bool },
    Username { id: EntityId, username: String },
    /// The beam of player `id` changed its overlap with `target_id`.
    BeamEvent { id: EntityId, target_id: EntityId, prev_status: Proximity, cur_status: Proximity },
}

/// A change a player asked for between two ticks.
#[derive(Clone, Debug)]
pub enum InternalUserDiffAction {
    Movement(Movement),
    BeamAim { x: u32, y: u32 },
    BeamToggle(bool),
    Username(String),
}

#[derive(Clone, Debug)]
pub struct InternalUserDiff {
    pub id: EntityId,
    pub action: InternalUserDiffAction,
}

/// What the solver must do to a beam sensor once a diff is applied.
#[derive(Clone, Copy, Debug, PartialEq, Eq, Structural)]
pub enum SensorAction {
    Nothing,
    /// Add a sensor on `body` for player `owner`, then attach its handle.
    Add { owner: EntityId, body: BodyRef },
    /// Remove the sensor with this handle.
    Remove(usize),
    /// Turn the sensor with this handle towards the aim point.
    Aim { sensor: usize, aim: AimPoint },
}

/// The identifier `uuid::Uuid::parse_str` reads from `s`, as a 128-bit
/// integer in big-endian byte order, or `None` where it rejects `s`.
pub uninterp spec fn parsed_uuid(s: Seq<char>) -> Option<u128>;

/// Relies on `uuid::Uuid::parse_str`, which accepts the simple, hyphenated,
/// braced and URN forms, and on `Uuid::as_u128` for the integer.
#[verifier::external_body]
fn parse_uuid(s: &str) -> (r: Option<u128>)
    ensures
        r == parsed_uuid(s@),
{
    match uuid::Uuid::parse_str(s) {
        Ok(u) => Some(u.as_u128()),
        Err(_) => None,
    }
}

/// Reads an entity identifier from its text form.
pub fn parse_entity_id(s: &str) -> (r: Option<EntityId>)
    ensures
        r == parsed_uuid(s@),
{
    parse_uuid(s)
}

/// Removes the player whose identifier is written in `uuid`. Text that is
/// no identifier, or names no live entity, changes nothing.
pub fn despawn_user<T>(world: &mut PhysicsWorldInner<T>, uuid: &str) -> (r: Option<EntityHandles<T>>)
    requires
        old(world).wf(),
    ensures
        final(world).wf(),
        parsed_uuid(uuid@) is None ==> r.is_none() && *final(world) == *old(world),
        parsed_uuid(uuid@) is Some ==> {
            let id = parsed_uuid(uuid@)->Some_0;
            &&& !old(world).uuid_map@.contains_key(id) ==> r.is_none() && *final(world) == *old(
                world,
            )
            &&& old(world).uuid_map@.contains_key(id) ==> r == Some(old(world).uuid_map@[id])
                && final(world).uuid_map@ == old(world).uuid_map@.remove(id)
        },
{
    match parse_uuid(uuid) {
        Some(id) => world.remove_entity(id),
        None => None,
    }
}

/// The record of `h` with its player state replaced by `p`.
pub open spec fn with_player<T>(h: EntityHandles<T>, p: PlayerEntity) -> EntityHandles<T> {
    EntityHandles { entity: Entity::Player(p), ..h }
}

/// The beam event a proximity transition between `owner`'s sensor and the
/// collider of `target` gives, when the status really changed.
pub open spec fn beam_update(
    owner: EntityId,
    target: EntityId,
    prev: Proximity,
    cur: Proximity,
) -> Update {
    Update::BeamEvent { id: owner, target_id: target, prev_status: prev, cur_status: cur }
}

/// `b` differs from `a` at most in the record of `id` and the beam sensor
/// map: the collider map and the movement list are the same.
pub open spec fn same_indexes<T>(a: PhysicsWorldInner<T>, b: PhysicsWorldInner<T>) -> bool {
    &&& b.handle_map@ == a.handle_map@
    &&& b.user_handles@ == a.user_handles@
}

impl<T> PhysicsWorldInner<T> {
    /// The beam event for one proximity transition: the status must have
    /// changed, exactly one collider must be a beam sensor, and the other
    /// must belong to an entity.
    pub open spec fn beam_event_spec(&self, e: ProximityEvent) -> Option<Update> {
        let s1 = self.beam_sensors@.contains_key(e.collider1);
        let s2 = self.beam_sensors@.contains_key(e.collider2);
        if e.prev_status == e.new_status || s1 == s2 {
            None
        } else if s1 {
            if self.handle_map@.contains_key(e.collider2) {
                Some(
                    beam_update(
                        self.beam_sensors@[e.collider1],
                        self.handle_map@[e.collider2],
                        e.prev_status,
                        e.new_status,
                    ),
                )
            } else {
                None
            }
        } else {
            if self.handle_map@.contains_key(e.collider1) {
                Some(
                    beam_update(
                        self.beam_sensors@[e.collider2],
                        self.handle_map@[e.collider1],
                        e.prev_status,
                        e.new_status,
                    ),
                )
            } else {
                None
            }
        }
    }

    /// The beam events of a step's proximity transitions, in order.
    pub open spec fn beam_events_spec(&self, events: Seq<ProximityEvent>) -> Seq<Update>
        decreases events.len(),
    {
        if events.len() == 0 {
            Seq::empty()
        } else {
            let rest = self.beam_events_spec(events.drop_last());
            match self.beam_event_spec(events.last()) {
                Some(u) => rest.push(u),
                None => rest,
            }
        }
    }

    /// The owners of the colliders named by contact events, both colliders
    /// of each event in order, skipping colliders that belong to no entity.
    pub open spec fn touched_spec(&self, contacts: Seq<(usize, usize)>) -> Seq<EntityId>
        decreases contacts.len(),
    {
        if contacts.len() == 0 {
            Seq::empty()
        } else {
            let rest = self.touched_spec(contacts.drop_last());
            let (c1, c2) = contacts.last();
            let rest = if self.handle_map@.contains_key(c1) {
                rest.push(self.handle_map@[c1])
            } else {
                rest
            };
            if self.handle_map@.contains_key(c2) {
                rest.push(self.handle_map@[c2])
            } else {
                rest
            }
        }
    }

    /// Applies one player diff. An unknown entity changes nothing; a diff
    /// other than a username change for an entity that is not a player
    /// changes nothing. Turning a beam on that is on already, or off that is
    /// off already, records the flag and sends nothing. The returned action
    /// tells the solver what to do with the beam sensor.
    pub fn apply_diff(&mut self, diff: InternalUserDiff, updates: &mut Vec<Update>) -> (r:
        SensorAction)
        requires
            old(self).wf(),
        ensures
            final(self).wf(),
            !old(self).uuid_map@.contains_key(diff.id) ==> *final(self) == *old(self)
                && final(updates)@ == old(updates)@ && r == SensorAction::Nothing,
            old(self).uuid_map@.contains_key(diff.id) && !(old(self).uuid_map@[diff.id].entity is Player)
                ==> *final(self) == *old(self) && r == SensorAction::Nothing && final(updates)@
                == match diff.action {
                InternalUserDiffAction::Username(name) => old(updates)@.push(
                    Update::Username { id: diff.id, username: name },
                ),
                _ => old(updates)@,
            },
            old(self).uuid_map@.contains_key(diff.id) && old(self).uuid_map@[diff.id].entity is Player
                ==> {
                let id = diff.id;
                let h = old(self).uuid_map@[id];
                let p = h.entity->Player_0;
                &&& same_indexes(*old(self), *final(self))
                &&& match diff.action {
                    InternalUserDiffAction::Movement(m) => {
                        &&& final(self).uuid_map@ == old(self).uuid_map@.insert(
                            id,
                            with_player(h, PlayerEntity { movement: m, ..p }),
                        )
                        &&& final(self).beam_sensors@ == old(self).beam_sensors@
                        &&& final(updates)@ == old(updates)@.push(
                            Update::PlayerMovement { id, movement: m },
                        )
                        &&& r == SensorAction::Nothing
                    },
                    InternalUserDiffAction::BeamAim { x, y } => {
                        let aim = AimPoint { x, y };
                        &&& final(self).uuid_map@ == old(self).uuid_map@.insert(
                            id,
                            with_player(h, PlayerEntity { beam_aim: aim, ..p }),
                        )
                        &&& final(self).beam_sensors@ == old(self).beam_sensors@
                        &&& final(updates)@ == old(updates)@.push(Update::BeamAim { id, aim })
                        &&& r == match h.beam_handle {
                            Some(s) => SensorAction::Aim { sensor: s, aim },
                            None => SensorAction::Nothing,
                        }
                    },
                    InternalUserDiffAction::BeamToggle(on) => {
                        let h2 = with_player(h, PlayerEntity { beam_on: on, ..p });
                        if on == h.beam_handle.is_some() {
                            &&& final(self).uuid_map@ == old(self).uuid_map@.insert(id, h2)
                            &&& final(self).beam_sensors@ == old(self).beam_sensors@
                            &&& final(updates)@ == old(updates)@
                            &&& r == SensorAction::Nothing
                        } else if on {
                            &&& final(self).uuid_map@ == old(self).uuid_map@.insert(id, h2)
                            &&& final(self).beam_sensors@ == old(self).beam_sensors@
                            &&& final(updates)@ == old(updates)@.push(
                                Update::BeamToggle { id, beam_on: true },
                            )
                            &&& r == SensorAction::Add { owner: id, body: h.body_handle }
                        } else {
                            &&& final(self).uuid_map@ == old(self).uuid_map@.insert(
                                id,
                                EntityHandles { beam_handle: None, ..h2 },
                            )
                            &&& final(self).beam_sensors@ == old(self).beam_sensors@.remove(
                                h.beam_handle->Some_0,
                            )
                            &&& final(updates)@ == old(updates)@.push(
                                Update::BeamToggle { id, beam_on: false },
                            )
                            &&& r == SensorAction::Remove(h.beam_handle->Some_0)
                        }
                    },
                    InternalUserDiffAction::Username(name) => {
                        &&& *final(self) == *old(self)
                        &&& final(updates)@ == old(updates)@.push(
                            Update::Username { id, username: name },
                        )
                        &&& r == SensorAction::Nothing
                    },
                }
            },
    {
        let id = diff.id;
        let p = match self.player(id) {
            Ok(p) => p,
            Err(crate::registry::EntityError::UnknownEntity) => {
                return SensorAction::Nothing;
            },
            Err(crate::registry::EntityError::NotAPlayer) => {
                match diff.action {
                    InternalUserDiffAction::Username(username) => {
                        updates.push(Update::Username { id, username });
                    },
                    _ => {},
                }
                return SensorAction::Nothing;
            },
        };
        let beam_handle = self.uuid_map.get(&id).unwrap().beam_handle;
        let body_handle = self.uuid_map.get(&id).unwrap().body_handle;
        match diff.action {
            InternalUserDiffAction::Movement(movement) => {
                self.replace_player(id, PlayerEntity { movement, ..p });
                updates.push(Update::PlayerMovement { id, movement });
                SensorAction::Nothing
            },
            InternalUserDiffAction::BeamAim { x, y } => {
                let aim = AimPoint { x, y };
                self.replace_player(id, PlayerEntity { beam_aim: aim, ..p });
                updates.push(Update::BeamAim { id, aim });
                match beam_handle {
                    Some(sensor) => SensorAction::Aim { sensor, aim },
                    None => SensorAction::Nothing,
                }
            },
            InternalUserDiffAction::BeamToggle(beam_on) => {
                self.replace_player(id, PlayerEntity { beam_on, ..p });
                if beam_on {
                    if beam_handle.is_some() {
                        return SensorAction::Nothing;
                    }
                    updates.push(Update::BeamToggle { id, beam_on: true });
                    SensorAction::Add { owner: id, body: body_handle }
                } else {
                    match beam_handle {
                        None => SensorAction::Nothing,
                        Some(sensor) => {
                            self.set_beam_handle(id, None);
                            updates.push(Update::BeamToggle { id, beam_on: false });
                            proof {
                                assert(self.uuid_map@ =~= old(self).uuid_map@.insert(
                                    id,
                                    EntityHandles {
                                        beam_handle: None,
                                        ..with_player(
                                            old(self).uuid_map@[id],
                                            PlayerEntity { beam_on, ..p },
                                        )
                                    },
                                ));
                            }
                            SensorAction::Remove(sensor)
                        },
                    }
                }
            },
            InternalUserDiffAction::Username(username) => {
                updates.push(Update::Username { id, username });
                SensorAction::Nothing
            },
        }
    }

    /// Records the sensor the solver made for a player's beam. Fails,
    /// changing nothing, unless `id` names a live player with no sensor and
    /// the handle is not already a sensor or a collider of the registry.
    pub fn attach_beam_sensor(&mut self, id: EntityId, sensor: usize) -> (r: bool)
        requires
            old(self).wf(),
        ensures
            final(self).wf(),
            r == (old(self).player_spec(id) is Ok && old(self).uuid_map@[id].beam_handle is None
                && !old(self).beam_sensors@.contains_key(sensor)
                && !old(self).handle_map@.contains_key(sensor)),
            !r ==> *final(self) == *old(self),
            r ==> same_indexes(*old(self), *final(self)) && final(self).uuid_map@ == old(
                self,
            ).uuid_map@.insert(id, EntityHandles { beam_handle: Some(sensor), ..old(self).uuid_map@[id] })
                && final(self).beam_sensors@ == old(self).beam_sensors@.insert(sensor, id),
    {
        if self.player(id).is_err() {
            return false;
        }
        if self.uuid_map.get(&id).unwrap().beam_handle.is_some() {
            return false;
        }
        if self.beam_sensors.contains_key(&sensor) || self.handle_map.contains_key(&sensor) {
            return false;
        }
        self.set_beam_handle(id, Some(sensor));
        true
    }

    /// Classifies one proximity transition.
    pub fn beam_event(&self, e: ProximityEvent) -> (r: Option<Update>)
        ensures
            r == self.beam_event_spec(e),
    {
        if e.prev_status == e.new_status {
            return None;
        }
        match (self.beam_sensors.get(&e.collider1), self.beam_sensors.get(&e.collider2)) {
            (Some(user_id), None) => match self.handle_map.get(&e.collider2) {
                Some(target) => Some(
                    Update::BeamEvent {
                        id: *user_id,
                        target_id: *target,
                        prev_status: e.prev_status,
                        cur_status: e.new_status,
                    },
                ),
                None => None,
            },
            (None, Some(user_id)) => match self.handle_map.get(&e.collider1) {
                Some(target) => Some(
                    Update::BeamEvent {
                        id: *user_id,
                        target_id: *target,
                        prev_status: e.prev_status,
                        cur_status: e.new_status,
                    },
                ),
                None => None,
            },
            _ => None,
        }
    }

    /// The beam events of a step, one per qualifying proximity transition.
    pub fn beam_events(&self, events: &Vec<ProximityEvent>) -> (r: Vec<Update>)
        ensures
            r@ == self.beam_events_spec(events@),
    {
        let mut out: Vec<Update> = Vec::new();
        let mut i: usize = 0;
        while i < events.len()
            invariant
                i <= events@.len(),
                out@ == self.beam_events_spec(events@.subrange(0, i as int)),
            decreases events@.len() - i,
        {
            proof {
                assert(events@.subrange(0, i + 1).drop_last() =~= events@.subrange(0, i as int));
            }
            match self.beam_event(events[i]) {
                Some(u) => out.push(u),
                None => {},
            }
            i = i + 1;
        }
        proof {
            assert(events@.subrange(0, events@.len() as int) =~= events@);
        }
        out
    }

    /// The entities whose pose must be sent after a step in "changed only"
    /// mode: the owners of both colliders of every contact event.
    pub fn touched_entities(&self, contacts: &Vec<(usize, usize)>) -> (r: Vec<EntityId>)
        ensures
            r@ == self.touched_spec(contacts@),
    {
        let mut out: Vec<EntityId> = Vec::new();
        let mut i: usize = 0;
        while i < contacts.len()
            invariant
                i <= contacts@.len(),
                out@ == self.touched_spec(contacts@.subrange(0, i as int)),
            decreases contacts@.len() - i,
        {
            proof {
                assert(contacts@.subrange(0, i + 1).drop_last() =~= contacts@.subrange(
                    0,
                    i as int,
                ));
            }
            let (c1, c2) = contacts[i];
            match self.handle_map.get(&c1) {
                Some(id) => out.push(*id),
                None => {},
            }
            match self.handle_map.get(&c2) {
                Some(id) => out.push(*id),
                None => {},
            }
            i = i + 1;
        }
        proof {
            assert(contacts@.subrange(0, contacts@.len() as int) =~= contacts@);
        }
        out
    }

    /// The movement input of every player body with its force slot, in
    /// registration order: the force each body gets this tick is its
    /// direction scaled by the configured acceleration.
    pub fn movement_inputs(&self) -> (r: Vec<(usize, usize, Movement)>)
        requires
            self.wf(),
        ensures
            r@.len() == self.user_handles@.len(),
            forall|i: int|
                0 <= i < r@.len() ==> #[trigger] r@[i] == (
                    self.user_handles@[i].0,
                    self.user_handles@[i].2,
                    self.uuid_map@[self.user_handles@[i].1].entity->Player_0.movement,
                ),
    {
        let mut out: Vec<(usize, usize, Movement)> = Vec::new();
        let mut i: usize = 0;
        while i < self.user_handles.len()
            invariant
                self.wf(),
                i <= self.user_handles@.len(),
                out@.len() == i,
                forall|k: int|
                    0 <= k < i ==> #[trigger] out@[k] == (
                        self.user_handles@[k].0,
                        self.user_handles@[k].2,
                        self.uuid_map@[self.user_handles@[k].1].entity->Player_0.movement,
                    ),
            decreases self.user_handles@.len() - i,
        {
            let (body, id, force) = self.user_handles[i];
            proof {
                assert(self.uuid_map@.contains_key(self.user_handles@[i as int].1));
            }
            let h = self.uuid_map.get(&id).unwrap();
            match h.entity {
                Entity::Player(p) => out.push((body, force, p.movement)),
                _ => {},
            }
            i = i + 1;
        }
        out
    }
}

} // verus!
