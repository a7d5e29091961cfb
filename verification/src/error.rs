//! Errors the store reports to its callers.

use vstd::prelude::*;

verus! {

/// Why a store operation failed.
#[derive(Debug, Clone, PartialEq, Eq)]
pub enum AppError {
    /// Stored bytes could not be turned back into events or keys.
    EventDecodeError(String),
    /// The server could not carry out the request (I/O, encryption).
    ServerError(String),
    /// The configuration names something that cannot be used.
    ConfigLoadError(String),
    /// The requested item does not exist, with a reason.
    NotFound(String),
    /// The requested item does not exist.
    GenericNotFound,
    /// A hash prefix names more than one event.
    AmbiguousHash,
    /// The stream moved on since the request read it.
    Conflict,
    /// The stream holds the maximum number of events.
    EventLimitReached { max: usize },
    /// Too many events in the sliding window (window in microseconds).
    TooManyEvents { max: usize, window: i64 },
    /// Too many downloads in the sliding window (window in microseconds).
    TooManyDownloads { max: usize, window: i64 },
}

} // verus!
