//! A bidirectional tagging index: a many-to-many relation between items and
//! tags, kept as two mirrored mappings.

pub mod names;
pub mod relation;
pub mod table;
pub mod store_model;
pub mod storage;

pub use storage::memory::MemoryTagIndex;
pub use storage::redis::{RedisTagIndex, IndexError, SetCommand, SetReply};
