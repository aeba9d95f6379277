//! Membership and connectivity core of a storage node in a sharded,
//! epoch-governed storage network.
//!
//! The crate tracks which committee of storage nodes is authoritative for each
//! epoch, keeps one request-capable handle per committee member, and drives
//! the two-step protocol that moves the network from one committee to the
//! next.

pub mod active_committees;
pub mod assignment;
pub mod committee;
pub mod committee_change;
pub mod committee_service;
pub mod config;
pub mod construction;
pub mod errors;
pub mod identity;
pub mod laws;
pub mod randomness;
pub mod registry;
pub mod shard_sync;
