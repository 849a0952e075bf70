//! Tests of the inbound-packet mailbox and session lifecycle processing.

use server_core::entity::{Entity, EntityId};
use server_core::network::{handle_session_messages, PacketQueue, ServerToWorkerMessage};
use server_core::packets::{Packet, PacketKind};
use server_core::position::Position;

#[test]
fn packet_queue() {
    let mut queue = PacketQueue::new();

    let e0 = Entity(0);
    let e1 = Entity(1);

    queue.push(Packet::Handshake { protocol_version: 404 }, e0);
    queue.push(Packet::SpawnObject { entity_id: 7 }, e1);
    queue.push(Packet::Handshake { protocol_version: 404 }, e1);

    let mut handshakes = queue.received(PacketKind::Handshake).into_iter();
    assert_eq!(handshakes.next().unwrap().0, e0);
    assert_eq!(handshakes.next().unwrap().0, e1);
    assert!(handshakes.next().is_none());

    let mut spawn_objects = queue.received(PacketKind::SpawnObject).into_iter();
    assert_eq!(spawn_objects.next().unwrap().0, e1);
    assert!(spawn_objects.next().is_none());
}

#[test]
fn fifo_per_type() {
    let mut queue = PacketQueue::new();
    let origin = Entity(9);

    queue.push(Packet::Handshake { protocol_version: 1 }, origin);
    queue.push(Packet::SpawnObject { entity_id: 2 }, origin);
    queue.push(Packet::Handshake { protocol_version: 3 }, origin);

    let drained = queue.received(PacketKind::Handshake);
    assert_eq!(drained.len(), 2);
    assert!(matches!(drained[0].1, Packet::Handshake { protocol_version: 1 }));
    assert!(matches!(drained[1].1, Packet::Handshake { protocol_version: 3 }));

    let drained_b = queue.received(PacketKind::SpawnObject);
    assert_eq!(drained_b.len(), 1);
    assert!(matches!(drained_b[0].1, Packet::SpawnObject { entity_id: 2 }));

    // A second drain of an already drained kind yields nothing.
    assert!(queue.received(PacketKind::Handshake).is_empty());
}

#[test]
fn no_cross_type_leakage() {
    let mut queue = PacketQueue::new();
    // Six packets of three distinct kinds.
    queue.push(Packet::Handshake { protocol_version: 1 }, Entity(1));
    queue.push(Packet::SpawnObject { entity_id: 2 }, Entity(2));
    queue.push(Packet::SpawnPlayer { entity_id: 3 }, Entity(3));
    queue.push(Packet::Handshake { protocol_version: 4 }, Entity(4));
    queue.push(Packet::SpawnObject { entity_id: 5 }, Entity(5));
    queue.push(Packet::Handshake { protocol_version: 6 }, Entity(6));

    let handshakes = queue.received(PacketKind::Handshake);
    let spawn_objects = queue.received(PacketKind::SpawnObject);
    let spawn_players = queue.received(PacketKind::SpawnPlayer);

    assert_eq!(handshakes.len(), 3);
    assert_eq!(spawn_objects.len(), 2);
    assert_eq!(spawn_players.len(), 1);
    assert_eq!(handshakes.len() + spawn_objects.len() + spawn_players.len(), 6);
    for (_, p) in &handshakes {
        assert!(matches!(p, Packet::Handshake { .. }));
    }
    for (_, p) in &spawn_objects {
        assert!(matches!(p, Packet::SpawnObject { .. }));
    }

    // Every bucket is empty after its drain.
    assert!(queue.received(PacketKind::Handshake).is_empty());
    assert!(queue.received(PacketKind::SpawnObject).is_empty());
    assert!(queue.received(PacketKind::SpawnPlayer).is_empty());
}

#[test]
fn interleaved_producers_drain_exactly_once() {
    // Two producers' pushes of one kind, interleaved as the scheduler might
    // order them: the next drain returns each pushed packet exactly once.
    let mut queue = PacketQueue::new();
    let producer_a = Entity(1);
    let producer_b = Entity(2);
    for round in 0..5u32 {
        queue.push(Packet::Handshake { protocol_version: round }, producer_a);
        queue.push(Packet::Handshake { protocol_version: 100 + round }, producer_b);
    }

    let drained = queue.received(PacketKind::Handshake);
    assert_eq!(drained.len(), 10);
    let mut versions: Vec<u32> = drained
        .iter()
        .map(|(_, p)| match p {
            Packet::Handshake { protocol_version } => *protocol_version,
            _ => unreachable!(),
        })
        .collect();
    versions.sort_unstable();
    assert_eq!(versions, vec![0, 1, 2, 3, 4, 100, 101, 102, 103, 104]);
    assert!(queue.received(PacketKind::Handshake).is_empty());
}

#[test]
fn session_messages_push_packets_and_snapshot_disconnect() {
    let mut queue = PacketQueue::new();
    let session = Entity(42);
    let position = Position { x: 1500, y: 64000, z: -2500 };
    let id = EntityId(7);
    let uuid = uuid::Uuid::from_u128(0xfeed_beef);

    let messages = vec![
        ServerToWorkerMessage::NotifyPacketReceived(Packet::Handshake { protocol_version: 1 }),
        ServerToWorkerMessage::NotifyPacketReceived(Packet::SpawnObject { entity_id: 3 }),
        ServerToWorkerMessage::NotifyDisconnect,
    ];
    let delete = handle_session_messages(session, position, id, uuid, messages, &mut queue);

    let delete = delete.expect("disconnect must yield a delete event");
    assert_eq!(delete.entity, session);
    assert_eq!(delete.position, Some(position));
    assert_eq!(delete.id, id);
    assert_eq!(delete.uuid, uuid);

    let handshakes = queue.received(PacketKind::Handshake);
    assert_eq!(handshakes.len(), 1);
    assert_eq!(handshakes[0].0, session);
    let objects = queue.received(PacketKind::SpawnObject);
    assert_eq!(objects.len(), 1);
}

#[test]
fn session_messages_without_disconnect_yield_no_delete() {
    let mut queue = PacketQueue::new();
    let session = Entity(1);
    let messages = vec![ServerToWorkerMessage::NotifyPacketReceived(Packet::Handshake {
        protocol_version: 9,
    })];
    let delete = handle_session_messages(
        session,
        Position { x: 0, y: 0, z: 0 },
        EntityId(0),
        uuid::Uuid::nil(),
        messages,
        &mut queue,
    );
    assert!(delete.is_none());
}
