//! Core of a multiplayer world server.
//!
//! Two subsystems live here: a packet-type-indexed inbound mailbox shared
//! between connection workers and the simulation tick, and the view pipeline
//! that keeps each session's loaded chunks and visible entities converged
//! with server truth as the underlying player moves through the world.
//!
//! Everything that decides or computes stands in this crate with a contract;
//! the surrounding process (sockets, channels, the scheduler that dispatches
//! events) hands plain values in and carries the returned packets and events
//! out.

pub mod chunk_logic;
pub mod entity;
pub mod network;
pub mod packets;
pub mod position;
pub mod view;
