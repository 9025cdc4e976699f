//! The configuration surface the pipeline core consumes. Loading it (from
//! the environment or elsewhere) is the embedding application's business;
//! the core only reads these plain values.

use vstd::prelude::*;

verus! {

/// Configuration consumed by the pipeline core.
pub struct Config {
    /// Per-connection ingress rate limit, in messages per second.
    pub rate_limit: u32,
    /// Maximum danmaku text length, in characters.
    pub max_length: usize,
    /// Deduplication window in seconds; zero or negative disables the
    /// dedup filter.
    pub dedup_window: i32,
    /// Fan-in buffer capacity.
    pub buffer_capacity: usize,
    /// Broadcast lag-buffer capacity.
    pub lag_capacity: usize,
    /// Secret used to answer the webhook signature challenge.
    pub bot_secret: String,
}

impl Config {
    /// The bounds the pipeline needs of a configuration.
    pub open spec fn wf(self) -> bool {
        &&& 1 <= self.rate_limit
        &&& 1 <= self.buffer_capacity
        &&& 1 <= self.lag_capacity
        &&& 1 <= self.bot_secret@.len()
    }
}

} // verus!
