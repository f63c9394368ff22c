//! Hybrid hot/cold transaction storage for state channels on constrained devices.
//!
//! Recent per-channel transactions sit in bounded least-recently-used caches;
//! the full history of every channel sits in an unbounded cold store. Once a
//! channel's buffered batch reaches the compression threshold it is folded into
//! one summary record whose Merkle root binds it to the prior history.

pub mod hash;
pub mod merkle;
pub mod record;
pub mod cold;
pub mod hot;
pub mod storage;

pub use cold::{compute_merkle_root, ChannelHistory, ColdStore};
pub use hash::{hash_pair, Bytes32};
pub use hot::ChannelState;
pub use merkle::compute_merkle_root_helper;
pub use record::{serialize_metadata, summarize_batch, CompressedTransaction};
pub use storage::{MobileOptimizedStorage, StateProof, StorageError};
