//! A log-structured key/value store for short UTF-8 strings.
//!
//! Records are appended to numbered generation logs, an in-memory index maps
//! every live key to the position of its latest record, and compaction
//! rewrites the live records into a fresh generation. The data directory is
//! held as plain bytes, so every operation is a function of the values it is
//! given and is proved against its contract.

pub mod error;
pub mod names;
pub mod frame;
pub mod codec;
pub mod dir;
pub mod bufio;
pub mod index;
pub mod replay;
pub mod reader;
pub mod writer;
pub mod store;
pub mod account;
pub mod laws;
pub mod engine;
pub mod sled_engine;
pub mod selection;
pub mod server;

pub use engine::KvsEngine;
pub use error::{KvsError, Result};
pub use server::KvsServer;
pub use sled_engine::SledStore;
pub use store::KvStore;
