//! Reconciliation engine for a note store replicated between two peers.
//!
//! The library holds the data model of the store (notes, their tags and
//! deletion tombstones), the tag normalisation rules, the adapter around the
//! conflict-free document type and the reconciliation of a sync batch.
pub mod codec;
pub mod crdt;
pub mod keyed;
pub mod store;
pub mod sync;
pub mod text;
