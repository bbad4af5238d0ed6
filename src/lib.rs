//! A persistent key-value store: a log-structured engine whose in-memory
//! index, counters and compaction are verified, an engine over sled, and the
//! request/response protocol that a server speaks over either of them.
pub mod client;
pub mod codec;
pub mod engine;
pub mod error;
pub mod memory;
pub mod msgpack;
pub mod server;

pub use engine::{KvStore, KvsEngine, SledKvsEngine};
pub use error::{Error, Result};
