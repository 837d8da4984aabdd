//! Verified core of a per-address network traffic metrics exporter.
//!
//! The crate classifies captured Ethernet/IPv4 frames, decides which of the
//! two endpoints is "local" to a configured set of subnets, and aggregates
//! per-address packet and byte counters, bounding the number of addresses
//! tracked individually and folding the rest into one overflow bucket.

pub mod counters;
pub mod engine;
pub mod frame;
pub mod store;
pub mod subnet;
