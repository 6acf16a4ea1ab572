//! Concurrency-friendly access layer over an append-only block store.
//!
//! The crate models the persistent store of a blockchain node
//! (`NodeStorage`), the facade that serializes access to it (`Storage`),
//! and the lazy ancestor-range traversal (`BlockStream`) that yields the
//! chain of blocks between two related points of history in ascending
//! depth order.

pub mod block;
pub mod store;
pub mod ancestry;
pub mod storage;
pub mod stream;
pub mod laws;
