//! Tests of the view pipeline: grids, triggers, delivery, holds, pending
//! requests and entity visibility.

use server_core::chunk_logic::ChunkHolders;
use server_core::entity::{Entity, EntityFacts, EntityId, EntityKind, SpawnPacketCreator};
use server_core::packets::Packet;
use server_core::position::{Chunk, ChunkPosition, ChunkSet, Position};
use server_core::view::{
    chunk_send, chunks_within_view_distance, view_handle_chunks, view_handle_entities,
    view_update, view_update_on_join, ChunkEntities, ChunksToSend, EntityEntry,
    ViewUpdateEvent,
};

fn chunk_set(chunks: &[(i32, i32)]) -> ChunkSet {
    let mut s = ChunkSet::new();
    for &(x, z) in chunks {
        s.insert(ChunkPosition { x, z });
    }
    s
}

#[test]
fn view_distance_grid_zero() {
    let center = ChunkPosition { x: 3, z: -4 };
    let s = chunks_within_view_distance(0, center);
    assert_eq!(s.len(), 1);
    assert!(s.contains(center));
}

#[test]
fn view_distance_grid_two() {
    let center = ChunkPosition { x: 0, z: 0 };
    let d: i32 = 2;
    let s = chunks_within_view_distance(2, center);
    assert_eq!(s.len(), 25);
    for x in -d..=d {
        for z in -d..=d {
            assert!(s.contains(ChunkPosition { x, z }));
        }
    }
    assert!(!s.contains(ChunkPosition { x: 3, z: 0 }));
    assert!(!s.contains(ChunkPosition { x: 2, z: -3 }));
}

#[test]
fn view_trigger_gating() {
    let player = Entity(1);
    // Moving a tenth of a block inside one chunk: no view update.
    let before = Position { x: 100, y: 64000, z: 0 };
    let after = Position { x: 200, y: 64000, z: 0 };
    assert!(view_update(player, true, after, before, 2).is_none());

    // Crossing the chunk boundary at x = 16 blocks (15.9 to 16.1): exactly
    // one view update with the correct old and new chunk.
    let before = Position { x: 15_900, y: 64000, z: 0 };
    let after = Position { x: 16_100, y: 64000, z: 0 };
    let ev = view_update(player, true, after, before, 2).expect("boundary crossing");
    assert_eq!(ev.new_chunk, ChunkPosition { x: 1, z: 0 });
    assert_eq!(ev.old_chunk, Some(ChunkPosition { x: 0, z: 0 }));
    assert_eq!(ev.player, player);
    assert_eq!(ev.visible_new.len(), 25);

    // Non-players never trigger view updates.
    assert!(view_update(player, false, after, before, 2).is_none());
}

#[test]
fn join_view() {
    let player = Entity(5);
    let ev = view_update_on_join(player, Position { x: -100, y: 0, z: -100 }, 3);
    assert_eq!(ev.visible_old.len(), 0);
    assert_eq!(ev.visible_new.len(), 49);
    assert!(ev.old_chunk.is_none());
    assert_eq!(ev.new_chunk, ChunkPosition { x: -1, z: -1 });
    assert!(ev.visible_new.contains(ChunkPosition { x: -4, z: 2 }));
}

#[test]
fn chunk_delivery_ordering() {
    // to_send = {(2,0), (0,1), (0,0)} relative to new chunk (0,0): delivery
    // is (0,0), then (0,1), then (2,0), ascending Manhattan distance.
    let player = Entity(1);
    let event = ViewUpdateEvent {
        player,
        new_chunk: ChunkPosition { x: 0, z: 0 },
        old_chunk: None,
        visible_old: ChunkSet::new(),
        visible_new: chunk_set(&[(2, 0), (0, 1), (0, 0)]),
    };
    let resident = chunk_set(&[(2, 0), (0, 1), (0, 0)]);
    let mut holder = ChunkSet::new();
    let mut holders = ChunkHolders::new();
    let mut pending = ChunksToSend::new();

    let actions = view_handle_chunks(&event, &resident, &mut holder, &mut holders, &mut pending);

    let order: Vec<(i32, i32)> = actions.chunk_data.iter().map(|(c, _)| (c.x, c.z)).collect();
    assert_eq!(order, vec![(0, 0), (0, 1), (2, 0)]);
    assert_eq!(actions.send_events.len(), 3);
    assert!(actions.load_requests.is_empty());
    assert!(actions.unload.is_empty());
    for (c, p) in &actions.chunk_data {
        assert!(matches!(p, Packet::ChunkData { chunk } if chunk.position == *c));
    }
}

#[test]
fn hold_release_balance() {
    // A session whose view moves through chunks A -> B -> A, at view
    // distance zero: the hold count on A after returning equals the count
    // after first seeing it, and A is never evictable while visible.
    let player = Entity(1);
    let a = ChunkPosition { x: 0, z: 0 };
    let b = ChunkPosition { x: 1, z: 0 };
    let resident = chunk_set(&[(0, 0), (1, 0)]);
    let mut holder = ChunkSet::new();
    let mut holders = ChunkHolders::new();
    let mut pending = ChunksToSend::new();

    let join = ViewUpdateEvent {
        player,
        new_chunk: a,
        old_chunk: None,
        visible_old: ChunkSet::new(),
        visible_new: chunk_set(&[(0, 0)]),
    };
    view_handle_chunks(&join, &resident, &mut holder, &mut holders, &mut pending);
    let count_on_a = holders.holder_count(a);
    assert_eq!(count_on_a, 1);
    assert!(!holders.is_evictable(a));

    let to_b = ViewUpdateEvent {
        player,
        new_chunk: b,
        old_chunk: Some(a),
        visible_old: chunk_set(&[(0, 0)]),
        visible_new: chunk_set(&[(1, 0)]),
    };
    view_handle_chunks(&to_b, &resident, &mut holder, &mut holders, &mut pending);
    assert_eq!(holders.holder_count(a), 0);
    assert!(!holders.is_evictable(b));

    let back = ViewUpdateEvent {
        player,
        new_chunk: a,
        old_chunk: Some(b),
        visible_old: chunk_set(&[(1, 0)]),
        visible_new: chunk_set(&[(0, 0)]),
    };
    let actions = view_handle_chunks(&back, &resident, &mut holder, &mut holders, &mut pending);
    assert_eq!(holders.holder_count(a), count_on_a);
    assert!(!holders.is_evictable(a));
    assert_eq!(actions.unload.len(), 1);
    assert!(matches!(actions.unload[0].1, Packet::UnloadChunk { chunk_x: 1, chunk_z: 0 }));
    assert_eq!(actions.release_events.len(), 1);
}

#[test]
fn pending_request_dedup() {
    // Two sessions enter view of the same unresident chunk in one tick:
    // exactly one load request; delivery reaches both; the entry is empty
    // afterwards.
    let chunk = ChunkPosition { x: 4, z: 4 };
    let resident = ChunkSet::new();
    let mut holders = ChunkHolders::new();
    let mut pending = ChunksToSend::new();

    let first = Entity(1);
    let mut holder1 = ChunkSet::new();
    let ev1 = ViewUpdateEvent {
        player: first,
        new_chunk: chunk,
        old_chunk: None,
        visible_old: ChunkSet::new(),
        visible_new: chunk_set(&[(4, 4)]),
    };
    let actions1 = view_handle_chunks(&ev1, &resident, &mut holder1, &mut holders, &mut pending);
    assert_eq!(actions1.load_requests.len(), 1);
    assert_eq!(actions1.load_requests[0], chunk);
    assert!(actions1.chunk_data.is_empty());

    let second = Entity(2);
    let mut holder2 = ChunkSet::new();
    let ev2 = ViewUpdateEvent {
        player: second,
        new_chunk: chunk,
        old_chunk: None,
        visible_old: ChunkSet::new(),
        visible_new: chunk_set(&[(4, 4)]),
    };
    let actions2 = view_handle_chunks(&ev2, &resident, &mut holder2, &mut holders, &mut pending);
    assert!(actions2.load_requests.is_empty());
    assert_eq!(pending.pending_count(chunk), 2);

    // The load completes: both sessions get the chunk once, and the pending
    // entry is gone.
    let loaded = Chunk { position: chunk };
    let (deliveries, events) = chunk_send(&loaded, &mut pending);
    assert_eq!(deliveries.len(), 2);
    assert_eq!(deliveries[0].0, first);
    assert_eq!(deliveries[1].0, second);
    assert!(matches!(deliveries[0].1, Packet::ChunkData { chunk: c } if c.position == chunk));
    assert_eq!(events.len(), 2);
    assert_eq!(pending.pending_count(chunk), 0);
}

#[test]
fn entity_visibility_batching() {
    // Three entities in a chunk become invisible at once: one batched
    // destroy packet with all three IDs, never three packets. A session
    // never receives a spawn packet for itself.
    let player = Entity(10);
    let a = ChunkPosition { x: 0, z: 0 };
    let b = ChunkPosition { x: 1, z: 0 };

    let mut index = ChunkEntities::new();
    for (n, id) in [(21u64, 201i32), (22, 202), (23, 203)] {
        index.insert(
            b,
            EntityEntry {
                entity: Entity(n),
                facts: EntityFacts {
                    id: EntityId(id),
                    position: Position { x: 16_500, y: 0, z: 500 },
                },
                spawn: Some(SpawnPacketCreator(EntityKind::Object)),
            },
        );
    }
    // The session itself stands in the chunk entering its view.
    index.insert(
        a,
        EntityEntry {
            entity: player,
            facts: EntityFacts { id: EntityId(99), position: Position { x: 0, y: 0, z: 0 } },
            spawn: Some(SpawnPacketCreator(EntityKind::Player)),
        },
    );
    index.insert(
        a,
        EntityEntry {
            entity: Entity(30),
            facts: EntityFacts { id: EntityId(300), position: Position { x: 0, y: 0, z: 0 } },
            spawn: Some(SpawnPacketCreator(EntityKind::Object)),
        },
    );

    let event = ViewUpdateEvent {
        player,
        new_chunk: a,
        old_chunk: Some(b),
        visible_old: chunk_set(&[(1, 0)]),
        visible_new: chunk_set(&[(0, 0)]),
    };
    let actions = view_handle_entities(&event, &index);

    // Spawns: only the other entity in the entering chunk, not the session.
    assert_eq!(actions.spawns.len(), 1);
    assert_eq!(actions.spawns[0].0, Entity(30));
    assert!(matches!(actions.spawns[0].1, Packet::SpawnObject { entity_id: 300 }));
    assert_eq!(actions.send_events.len(), 1);
    assert_eq!(actions.send_events[0].to, player);

    // One destroy packet carrying all three IDs.
    let destroy = actions.destroy.expect("entities left view");
    match destroy {
        Packet::DestroyEntities { entity_ids } => {
            assert_eq!(entity_ids, vec![201, 202, 203]);
        }
        _ => panic!("expected a batched destroy packet"),
    }
    assert_eq!(actions.untracked, vec![Entity(21), Entity(22), Entity(23)]);
}

#[test]
fn no_entities_leaving_means_no_destroy_packet() {
    let player = Entity(1);
    let event = ViewUpdateEvent {
        player,
        new_chunk: ChunkPosition { x: 0, z: 0 },
        old_chunk: Some(ChunkPosition { x: 1, z: 0 }),
        visible_old: chunk_set(&[(1, 0)]),
        visible_new: chunk_set(&[(0, 0)]),
    };
    let actions = view_handle_entities(&event, &ChunkEntities::new());
    assert!(actions.destroy.is_none());
    assert!(actions.spawns.is_empty());
}
