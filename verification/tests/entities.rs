//! Tests of entity identifiers, base components and packet creators.

use server_core::entity::{
    base, position_reset, CreationPacketCreator, EntityFacts, EntityId, EntityKind,
    IdAllocator, PacketCreatorFn, PreviousPosition, SpawnPacketCreator, Velocity,
};
use server_core::packets::{Packet, PacketKind};
use server_core::position::{ChunkPosition, Position};

#[test]
fn id_allocator_counts_up() {
    let mut ids = IdAllocator::new();
    let first = ids.allocate();
    let second = ids.allocate();
    let third = ids.allocate();
    assert_eq!(first, EntityId(0));
    assert_eq!(second, EntityId(1));
    assert_eq!(third, EntityId(2));
}

#[test]
fn base_components() {
    let mut ids = IdAllocator::new();
    ids.allocate();
    let position = Position { x: 8_000, y: 64_000, z: -8_000 };
    let b = base(&mut ids, position);
    assert_eq!(b.id, EntityId(1));
    assert_eq!(b.position, position);
    assert_eq!(b.previous_position.0, position);
    assert_eq!(b.velocity, Velocity { x: 0, y: 0, z: 0 });
    assert_eq!(base(&mut ids, position).id, EntityId(2));
}

#[test]
fn position_reset_snapshots_current_position() {
    let mut previous = PreviousPosition(Position { x: 0, y: 0, z: 0 });
    let moved = Position { x: 123, y: 456, z: 789 };
    position_reset(moved, &mut previous);
    assert_eq!(previous.0, moved);
}

#[test]
fn packet_creators_by_entity_kind() {
    let facts = EntityFacts { id: EntityId(41), position: Position { x: 0, y: 0, z: 0 } };

    let spawn_object = SpawnPacketCreator(EntityKind::Object).get(&facts);
    assert!(matches!(spawn_object, Packet::SpawnObject { entity_id: 41 }));

    let spawn_player = SpawnPacketCreator(EntityKind::Player).get(&facts);
    assert!(matches!(spawn_player, Packet::SpawnPlayer { entity_id: 41 }));
    assert_eq!(spawn_player.kind(), PacketKind::SpawnPlayer);

    let creation = CreationPacketCreator(EntityKind::Player).get(&facts);
    assert!(matches!(creation, Packet::PlayerInfo { entity_id: 41 }));
}

#[test]
fn chunk_position_of_positions() {
    // One chunk spans 16 blocks, 16000 position units.
    assert_eq!(
        Position { x: 0, y: 0, z: 0 }.chunk_pos(),
        ChunkPosition { x: 0, z: 0 }
    );
    assert_eq!(
        Position { x: 15_999, y: 0, z: 15_999 }.chunk_pos(),
        ChunkPosition { x: 0, z: 0 }
    );
    assert_eq!(
        Position { x: 16_000, y: 0, z: -1 }.chunk_pos(),
        ChunkPosition { x: 1, z: -1 }
    );
    assert_eq!(
        Position { x: -16_001, y: 0, z: -16_000 }.chunk_pos(),
        ChunkPosition { x: -2, z: -1 }
    );
}

#[test]
fn manhattan_distance_between_chunks() {
    let a = ChunkPosition { x: 0, z: 0 };
    assert_eq!(a.manhattan_distance(ChunkPosition { x: 0, z: 0 }), 0);
    assert_eq!(a.manhattan_distance(ChunkPosition { x: 2, z: 0 }), 2);
    assert_eq!(a.manhattan_distance(ChunkPosition { x: -3, z: 4 }), 7);
    assert_eq!(
        ChunkPosition { x: 5, z: -5 }.manhattan_distance(ChunkPosition { x: -5, z: 5 }),
        20
    );
}
