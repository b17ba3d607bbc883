//! Local-first, append-only knowledge store.
//!
//! Facts live at hierarchical paths, are never edited in place, and carry a
//! trust score in the closed unit interval (represented here in thousandths).
//! Corrections and extensions are layered on top of existing facts; only a
//! fact's status and update timestamp may change after insertion.

pub mod clock;
pub mod config;
pub mod fact;
pub mod ids;
pub mod mcp;
pub mod multi_storage;
pub mod notifications;
pub mod path;
pub mod pending_queue;
pub mod remote;
pub mod search;
pub mod storage;
pub mod text;
pub mod trust;

use vstd::prelude::*;

verus! {

/// Error kinds surfaced by the store and its value types.
#[derive(Debug, Clone, Copy, PartialEq, Eq, Structural)]
pub enum StoreError {
    /// Malformed segment or empty input while parsing a path.
    InvalidPath,
    /// Lookup miss, or approve/reject on a missing or wrong-state fact.
    NotFound,
    /// Tag or extends list failed to encode or decode.
    SerializationError,
    /// Failure reported by the persistence backend.
    BackendError,
}

} // verus!
