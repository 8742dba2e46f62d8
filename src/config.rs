use vstd::prelude::*;

verus! {

/// Monitoring settings, shared read-only by every worker of a run.
#[derive(Clone, Copy, Debug, PartialEq, Eq, Structural)]
pub struct Config {
    /// How many workers check URLs concurrently.
    pub num_threads: usize,
    /// Upper bound, in seconds, on a single HTTP attempt.
    pub timeout_secs: u64,
    /// Attempts allowed after the first failed one.
    pub max_retries: usize,
}

/// Why a configuration cannot drive a run.
#[derive(Clone, Copy, Debug, PartialEq, Eq, Structural)]
pub enum ConfigError {
    /// `num_threads` is zero.
    NoWorkers,
    /// `timeout_secs` is zero.
    ZeroTimeout,
}

impl Config {
    /// A run may start: at least one worker and a positive timeout.
    pub open spec fn is_valid(&self) -> bool {
        self.num_threads >= 1 && self.timeout_secs >= 1
    }

    /// The error that `validate` reports, if any.
    pub open spec fn spec_validate(&self) -> Result<(), ConfigError> {
        if self.num_threads == 0 {
            Err(ConfigError::NoWorkers)
        } else if self.timeout_secs == 0 {
            Err(ConfigError::ZeroTimeout)
        } else {
            Ok(())
        }
    }

    /// Creates a configuration from plain values; `validate` tells whether it
    /// can drive a run.
    pub fn new(num_threads: usize, timeout_secs: u64, max_retries: usize) -> (r: Self)
        ensures
            r.num_threads == num_threads,
            r.timeout_secs == timeout_secs,
            r.max_retries == max_retries,
    {
        Config { num_threads, timeout_secs, max_retries }
    }

    /// Checks the invariants that a run needs.
    pub fn validate(&self) -> (r: Result<(), ConfigError>)
        ensures
            r == self.spec_validate(),
            r is Ok <==> self.is_valid(),
    {
        if self.num_threads == 0 {
            Err(ConfigError::NoWorkers)
        } else if self.timeout_secs == 0 {
            Err(ConfigError::ZeroTimeout)
        } else {
            Ok(())
        }
    }
}

} // verus!
