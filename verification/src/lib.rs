//! Verified cores of a page-serving storage system.
//!
//! The two main ones are a fair rate limiter, in [`leaky_bucket`], and the
//! planning of evictions under disk pressure, in
//! [`disk_usage_eviction_task`]. Around them stand the job table of a pool
//! of workers, the batching of WAL redo requests, the detection of the HTTP
//! version of a connection, and the block arithmetic of a relation import.
//!
//! Nothing in this crate reads a clock, sleeps, locks or does I/O. Instants
//! come in as numbers, and what is to be done next goes out as a value.

pub mod disk_usage_eviction_task;
pub mod http_auto;
pub mod leaky_bucket;
pub mod percent;
pub mod pg_import;
pub mod tenant;
pub mod tenant_jobs;
pub mod walredo;
