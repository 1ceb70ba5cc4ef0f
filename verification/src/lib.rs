//! An in-memory store of heterogeneous "project" records with
//! relevance-ranked search, bounded top-k selection, and whole-store
//! snapshot persistence, plus a small vector-similarity utility.
//!
//! Scores are 64-bit fixed-point numbers (four decimal digits of
//! fraction), so that the ranking arithmetic is exact and verified.

pub mod codec;
pub mod data;
pub mod embedder;
pub mod fixed;
pub mod rank;
pub mod snapshot;
pub mod store;
pub mod text;
pub mod topk;

use vstd::prelude::*;

verus! {

/// The error taxonomy of the store.
///
/// `NotFound`: an operation addressed a position outside the store.
/// `Malformed`: an ingestion payload did not parse into a known record variant.
/// `IOFailure`: a snapshot could not be read or written; the store keeps serving from memory.
/// `LockFailure`: the store's lock was poisoned; fatal, reported by the host.
#[derive(Clone, Copy, Debug, PartialEq, Eq, Structural)]
pub enum StoreError {
    NotFound,
    Malformed,
    IOFailure,
    LockFailure,
}

} // verus!
