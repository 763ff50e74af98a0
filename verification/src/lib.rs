//! Server-authoritative spatial interest management for a real-time
//! multiplayer world: a grid of fixed-size cells partitions the plane, each
//! player occupies exactly one cell, and every event is fanned out only to the
//! players whose area of interest (AOI) covers the cell concerned.
//!
//! The crate verifies the spatial engine, the framed wire codec, the
//! per-connection session state machine and the client-side reconciliation
//! algorithm; the async transport around them lives outside the library.

pub mod cell;
pub mod channel;
pub mod codec;
pub mod message;
pub mod reconcile;
pub mod session;
pub mod vecmap;
pub mod world;
