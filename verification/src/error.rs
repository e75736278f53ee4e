use vstd::prelude::*;

verus! {

/// Every failure the engine, the codec or a transport can report.
/// Lookups carry the identifier that was not found.
#[derive(Clone, Copy, Debug, PartialEq, Eq, Structural)]
pub enum Error {
    StreamNotFound(u32),
    TopicNotFound(u32),
    PartitionNotFound(u32),
    PayloadTooLarge,
    PartitionFull,
    InvalidCount,
    InvalidCommand,
    Timeout,
    TransportFailure,
    Unknown,
}

} // verus!
