//! Protocol messages.
//!
//! Every packet belongs to exactly one kind of a closed enumeration, and each
//! kind has a fixed ordinal used to index the inbound mailbox. Payloads here
//! carry only what the core reads or fills; wire encoding is not this
//! crate's concern.

use vstd::prelude::*;

verus! {

use crate::position::{Chunk, ChunkPosition};

/// Number of packet kinds; every ordinal is below this.
pub const PACKET_KIND_COUNT: usize = 7;

/// The closed enumeration of packet kinds.
#[derive(Clone, Copy, Debug, Hash, PartialEq, Eq, Structural)]
pub enum PacketKind {
    Handshake,
    SpawnObject,
    SpawnPlayer,
    PlayerInfo,
    ChunkData,
    UnloadChunk,
    DestroyEntities,
}

impl PacketKind {
    /// Fixed index of this kind.
    pub open spec fn spec_ordinal(self) -> int {
        match self {
            PacketKind::Handshake => 0,
            PacketKind::SpawnObject => 1,
            PacketKind::SpawnPlayer => 2,
            PacketKind::PlayerInfo => 3,
            PacketKind::ChunkData => 4,
            PacketKind::UnloadChunk => 5,
            PacketKind::DestroyEntities => 6,
        }
    }

    pub fn ordinal(&self) -> (o: usize)
        ensures
            o == self.spec_ordinal(),
            o < PACKET_KIND_COUNT,
    {
        match self {
            PacketKind::Handshake => 0,
            PacketKind::SpawnObject => 1,
            PacketKind::SpawnPlayer => 2,
            PacketKind::PlayerInfo => 3,
            PacketKind::ChunkData => 4,
            PacketKind::UnloadChunk => 5,
            PacketKind::DestroyEntities => 6,
        }
    }
}

/// A typed protocol message.
#[derive(Clone, Debug)]
pub enum Packet {
    /// Opening message of a connecting client.
    Handshake { protocol_version: u32 },
    /// Makes a non-player entity appear on a client.
    SpawnObject { entity_id: i32 },
    /// Makes another player appear on a client.
    SpawnPlayer { entity_id: i32 },
    /// Announces an entity's existence globally.
    PlayerInfo { entity_id: i32 },
    /// Delivers a chunk's terrain.
    ChunkData { chunk: Chunk },
    /// Tells a client to drop a chunk.
    UnloadChunk { chunk_x: i32, chunk_z: i32 },
    /// Tells a client to forget the listed entities, batched.
    DestroyEntities { entity_ids: Vec<i32> },
}

impl Packet {
    /// The kind a packet belongs to.
    pub open spec fn spec_kind(self) -> PacketKind {
        match self {
            Packet::Handshake { .. } => PacketKind::Handshake,
            Packet::SpawnObject { .. } => PacketKind::SpawnObject,
            Packet::SpawnPlayer { .. } => PacketKind::SpawnPlayer,
            Packet::PlayerInfo { .. } => PacketKind::PlayerInfo,
            Packet::ChunkData { .. } => PacketKind::ChunkData,
            Packet::UnloadChunk { .. } => PacketKind::UnloadChunk,
            Packet::DestroyEntities { .. } => PacketKind::DestroyEntities,
        }
    }

    pub fn kind(&self) -> (k: PacketKind)
        ensures
            k == self.spec_kind(),
    {
        match self {
            Packet::Handshake { .. } => PacketKind::Handshake,
            Packet::SpawnObject { .. } => PacketKind::SpawnObject,
            Packet::SpawnPlayer { .. } => PacketKind::SpawnPlayer,
            Packet::PlayerInfo { .. } => PacketKind::PlayerInfo,
            Packet::ChunkData { .. } => PacketKind::ChunkData,
            Packet::UnloadChunk { .. } => PacketKind::UnloadChunk,
            Packet::DestroyEntities { .. } => PacketKind::DestroyEntities,
        }
    }

    /// Ordinal of the packet's kind.
    pub open spec fn spec_ordinal(self) -> int {
        self.spec_kind().spec_ordinal()
    }
}

/// Creates the chunk-data packet for a loaded chunk.
pub fn create_chunk_data(chunk: &Chunk) -> (p: Packet)
    ensures
        p == (Packet::ChunkData { chunk: *chunk }),
{
    Packet::ChunkData { chunk: *chunk }
}

} // verus!
