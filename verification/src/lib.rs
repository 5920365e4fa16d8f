//! Archive synchronization and integrity engine for a tweet archiver.
//!
//! The crate keeps a local store of tweets, users, conversation-existence
//! records and tweet references, fills it on demand from a remote origin,
//! and maintains the referential invariants between the four record kinds.

pub mod engine;
pub mod merge;
pub mod origin;
pub mod records;
pub mod store;
pub mod text;
pub mod util;
pub mod utils;
