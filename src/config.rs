use vstd::prelude::*;

verus! {

/// The process configuration, loaded once at startup.
pub struct Config {
    pub http: Http,
    pub publisher: Publisher,
}

/// Where the control surface listens.
pub struct Http {
    pub host: String,
    pub port: u32,
}

/// The retry policy of the control loops.
pub struct Publisher {
    /// Automatic retries allowed per abnormal episode.
    pub max_retry_count: u32,
    /// The retry-sweep period, in milliseconds.
    pub interval_time: u64,
    /// The delay between restarts within one sweep, in milliseconds.
    pub task_interval_time: u64,
}

} // verus!
