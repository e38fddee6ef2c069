//! Incremental file-hash inventory library.
//!
//! The crate models an inventory run over a directory tree: file records
//! (path, size, optional modification time, optional content hash) are
//! serialized one per line, reloaded as a cache on the next run, and a
//! size-based cache policy decides which files must be re-hashed.

pub mod cache;
pub mod codec;
pub mod hashing;
pub mod pipeline;
pub mod record;
pub mod text;

pub use cache::CacheStore;
pub use pipeline::HashPlan;
pub use record::{FileInfo, Progress, Statistics};
