//! Concurrent website-availability checking: configuration, the per-URL
//! retry policy, the partition of work among workers and the fan-in of
//! their results. The network calls, threads and channels are driven by the
//! caller; every decision they need is made here.

pub mod config;
pub mod checker;
pub mod pool;
pub mod status;
pub mod monitor;
pub mod major;
pub mod students;
