//! Multi-tenant message-deduplication storage: one isolated store per chat,
//! created lazily and cached, with time-windowed duplicate checks, a periodic
//! retention sweep, and a single global key-value settings store.
use vstd::prelude::*;

pub mod commands;
pub mod detection;
pub mod factory;
pub mod parameters;
pub mod policy;
pub mod settings_db;
pub mod store;
pub mod tenant_path;
pub mod utils;

verus! {

/// Failure kinds of the storage subsystem. Real storage-I/O failures belong
/// to the unverified persistence layer; the model itself can only reject an
/// insert that collides with an existing key, or miss a settings key.
#[derive(Clone, Copy, PartialEq, Eq, Structural, Debug)]
pub enum StoreError {
    /// An insert collided with a record already keyed the same way.
    AlreadyRecorded,
    /// A settings key was never set.
    NotFound,
}

} // verus!
