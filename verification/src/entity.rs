//! Entities: identifiers, shared components and the events the core emits.
//!
//! Player entities are sessions; the scheduler collaborator owns dispatch
//! and hands each function here the component values it reads.

use vstd::prelude::*;

verus! {

use crate::packets::Packet;
use crate::position::Position;

/// Declares `uuid::Uuid` for Verus: the session identity the transport
/// collaborator assigns at connection time. The core stores and returns such
/// values and never looks inside them.
#[verifier::external_type_specification]
#[verifier::external_body]
pub struct ExUuid(uuid::Uuid);

/// Handle of an entity in the simulation, assigned by the scheduler
/// collaborator when the entity is materialized.
#[derive(Clone, Copy, Debug, Hash, PartialEq, Eq, Structural)]
pub struct Entity(pub u64);

/// Numeric protocol-visible ID of an entity. Unique for the process lifetime
/// of the entity while the allocator has not wrapped.
#[derive(Debug, PartialEq, Eq, Hash, Clone, Copy, Structural)]
pub struct EntityId(pub i32);

/// Source of entity IDs. Each allocation returns the current counter and
/// advances it by one, wrapping at the top of the range; uniqueness holds
/// exactly as long as no wrap has occurred. The process holds one allocator
/// behind an atomic counter.
pub struct IdAllocator {
    next: i32,
}

impl IdAllocator {
    /// The ID the next allocation will return.
    pub closed spec fn spec_next(&self) -> i32 {
        self.next
    }

    pub fn new() -> (a: IdAllocator)
        ensures
            a.spec_next() == 0,
    {
        IdAllocator { next: 0 }
    }

    pub fn allocate(&mut self) -> (id: EntityId)
        ensures
            id.0 == old(self).spec_next(),
            final(self).spec_next() as int == if old(self).spec_next() == i32::MAX {
                i32::MIN as int
            } else {
                old(self).spec_next() + 1
            },
    {
        let id = EntityId(self.next);
        if self.next == i32::MAX {
            self.next = i32::MIN;
        } else {
            self.next = self.next + 1;
        }
        id
    }
}

/// Event triggered when an entity is created.
#[derive(Debug, Clone, Copy, PartialEq, Eq, Structural)]
pub struct EntityCreateEvent {
    pub entity: Entity,
}

/// Event triggered when an entity is spawned on a client.
#[derive(Debug, Clone, Copy, PartialEq, Eq, Structural)]
pub struct EntitySendEvent {
    pub entity: Entity,
    pub to: Entity,
}

/// Event triggered when an entity is removed, carrying the snapshot taken
/// just before deletion.
pub struct EntityDeleteEvent {
    pub entity: Entity,
    pub position: Option<Position>,
    pub id: EntityId,
    pub uuid: uuid::Uuid,
}

/// Event triggered when an entity moves.
#[derive(Debug, Clone, Copy, PartialEq, Eq, Structural)]
pub struct EntityMoveEvent {
    /// Entity which moved.
    pub entity: Entity,
}

/// Event triggered when an entity's velocity changes.
#[derive(Debug, Clone, Copy, PartialEq, Eq, Structural)]
pub struct VelocityUpdateEvent {
    /// Entity whose velocity changed.
    pub entity: Entity,
}

/// The velocity of an entity, in position units per tick.
#[derive(Debug, Clone, Copy, PartialEq, Eq, Structural)]
pub struct Velocity {
    pub x: i64,
    pub y: i64,
    pub z: i64,
}

impl Default for Velocity {
    fn default() -> (v: Velocity)
        ensures
            v == (Velocity { x: 0, y: 0, z: 0 }),
    {
        Velocity { x: 0, y: 0, z: 0 }
    }
}

/// The display name of the entity. Unnamed entities do not carry this
/// component.
#[derive(Debug, Clone, PartialEq, Eq, Hash)]
pub struct Name(pub String);

/// Position of an entity on the last tick, updated once per tick by
/// `position_reset` after move events are processed.
#[derive(Debug, Clone, Copy, PartialEq, Eq, Structural)]
pub struct PreviousPosition(pub Position);

/// Snapshots the entity's current position into its previous-position
/// component; the driver runs this for every moved entity after the view
/// pipeline has consumed the tick's move events.
pub fn position_reset(position: Position, previous: &mut PreviousPosition)
    ensures
        final(previous).0 == position,
{
    previous.0 = position;
}

/// What kind of entity a packet-creator capability describes.
#[derive(Clone, Copy, Debug, PartialEq, Eq, Structural)]
pub enum EntityKind {
    Player,
    Object,
}

/// What the scheduler's accessors afford a packet creator: the components of
/// the entity the packet is about.
#[derive(Clone, Copy, Debug, PartialEq, Eq, Structural)]
pub struct EntityFacts {
    pub id: EntityId,
    pub position: Position,
}

/// Capability of producing a protocol message that materializes an entity on
/// clients. Entity implementations choose the message by entity kind.
pub trait PacketCreatorFn {
    /// The packet this capability produces for an entity.
    spec fn spec_packet(&self, facts: EntityFacts) -> Packet;

    fn get(&self, facts: &EntityFacts) -> (p: Packet)
        ensures
            p == self.spec_packet(*facts),
    ;
}

/// Component which yields the packet to send to nearby clients when the
/// entity comes within range: the packet spawns the entity on the client.
#[derive(Clone, Copy, Debug, PartialEq, Eq, Structural)]
pub struct SpawnPacketCreator(pub EntityKind);

impl PacketCreatorFn for SpawnPacketCreator {
    open spec fn spec_packet(&self, facts: EntityFacts) -> Packet {
        match self.0 {
            EntityKind::Player => Packet::SpawnPlayer { entity_id: facts.id.0 },
            EntityKind::Object => Packet::SpawnObject { entity_id: facts.id.0 },
        }
    }

    /// Returns the packet to send to clients when the entity is to be
    /// spawned on them.
    fn get(&self, facts: &EntityFacts) -> (p: Packet) {
        match self.0 {
            EntityKind::Player => Packet::SpawnPlayer { entity_id: facts.id.0 },
            EntityKind::Object => Packet::SpawnObject { entity_id: facts.id.0 },
        }
    }
}

/// Component which yields the packet broadcast to every client when the
/// entity is created, ahead of any spawn packet, announcing the entity
/// globally.
#[derive(Clone, Copy, Debug, PartialEq, Eq, Structural)]
pub struct CreationPacketCreator(pub EntityKind);

impl PacketCreatorFn for CreationPacketCreator {
    open spec fn spec_packet(&self, facts: EntityFacts) -> Packet {
        Packet::PlayerInfo { entity_id: facts.id.0 }
    }

    /// Returns the packet to broadcast when the entity is created.
    fn get(&self, facts: &EntityFacts) -> (p: Packet) {
        Packet::PlayerInfo { entity_id: facts.id.0 }
    }
}

/// The components every fresh entity starts with. The scheduler materializes
/// the entity from them and then triggers `EntityCreateEvent`.
pub struct BaseComponents {
    pub id: EntityId,
    pub position: Position,
    pub previous_position: PreviousPosition,
    pub velocity: Velocity,
}

/// Assembles the base components for a new entity at `position`: a fresh ID,
/// the position, a previous-position snapshot equal to it, and zero
/// velocity.
pub fn base(ids: &mut IdAllocator, position: Position) -> (b: BaseComponents)
    ensures
        b.id.0 == old(ids).spec_next(),
        final(ids).spec_next() as int == if old(ids).spec_next() == i32::MAX {
            i32::MIN as int
        } else {
            old(ids).spec_next() + 1
        },
        b.position == position,
        b.previous_position.0 == position,
        b.velocity == (Velocity { x: 0, y: 0, z: 0 }),
{
    let id = ids.allocate();
    BaseComponents {
        id,
        position,
        previous_position: PreviousPosition(position),
        velocity: Velocity::default(),
    }
}

} // verus!
