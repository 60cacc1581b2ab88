//! Core of a server-authoritative, tick-based networked simulation:
//! client-side prediction with rollback correction, snapshot
//! interpolation for remote entities, atomic replication groups,
//! sequenced channels, and a tick-stamped input pipeline.
//!
//! The server owns the authoritative value of every component; clients
//! hold derived copies (predicted, interpolated, or confirmed) that are
//! reconciled against confirmed server snapshots.

pub mod types;
pub mod math;
pub mod tick;
pub mod channel;
pub mod input;
pub mod snapshot;
pub mod group;
pub mod prediction;
pub mod interpolate;
pub mod session;
