//! The telemetry channel's vocabulary: its depth and what a receive with a timeout gets.
//!
//! The channel itself is shared between threads and lives with the caller.
use vstd::prelude::*;

verus! {

/// Queue depth per telemetry channel. Telemetry is lossy by design: the core loop never
/// waits for a slow consumer, so a full queue drops the newest event.
pub const TELEMETRY_QUEUE_CAP: usize = 4096;

/// Result of a receive with timeout.
#[derive(Debug)]
pub enum RecvEvent<E> {
    /// An event was received.
    Event(E),
    /// Timed out waiting; the channel is still open.
    Timeout,
    /// All sinks were dropped; the channel is closed.
    Closed,
}

} // verus!
