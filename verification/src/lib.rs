//! Local-network reconnaissance and ARP-spoofing engine.
//!
//! The crate enumerates usable network interfaces, merges neighbor-table
//! snapshots from several discovery phases into a deduplicated, sorted device
//! list, and manages a registry of cancellable spoofing sessions. All decision
//! logic is verified; operating-system queries enter through a few trusted
//! wrappers and through the unverified front end that drives the probe and
//! spoof traffic.

pub mod errors;
pub mod interfaces;
pub mod probe;
pub mod scan;
pub mod sessions;
pub mod ip;
pub mod text;
