//! Coordination core of a local network of services: channels with
//! policy-governed membership, a thread table, and a detector that finds
//! groups of threads blocked forever on each other and releases them.

pub mod policy;
pub mod registry;
pub mod network;
pub mod detector;
pub mod laws;
pub mod path;
pub mod version;
pub mod handles;
pub mod interface;
pub mod iters;
pub mod local;
pub mod master;
pub mod arch;
