//! An in-memory message-streaming engine: streams contain topics, topics
//! contain partitions, and each partition is an append-only log of messages
//! with gap-free, monotonically increasing offsets.  Alongside the engine
//! live the wire codec for the four core commands and the poll response,
//! the persisted-file record format with crash recovery, and the integer
//! part of the benchmark aggregation.

pub mod bench;
pub mod codec;
pub mod error;
pub mod laws;
pub mod message;
pub mod partition;
pub mod server;
pub mod storage;
pub mod stream;
pub mod system;
pub mod topic;
