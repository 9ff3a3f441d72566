//! A priority-ordered item store: byte payloads tagged with a priority are
//! buffered and handed back highest priority first, oldest first among equals.
//!
//! [`Storage`] is the contract of such a store and [`HashStorage`] the store
//! that keeps its items in memory. The contracts speak of the queue of the
//! pending items, which [`queue`] defines; [`laws`] proves what holds of
//! every such queue.

pub mod item;
pub mod queue;
pub mod laws;
pub mod storage;
pub mod hash_storage;
mod buckets;

pub use crate::hash_storage::HashStorage;
pub use crate::item::{ItemView, StorageItem};
pub use crate::storage::Storage;
