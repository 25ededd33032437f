//! Verified core of a job-tracking service: records for long-running
//! calculation jobs, a TTL-backed key-value store, the registry operations
//! that create and mutate job state, the work loops that report progress,
//! and the request-level rules of the polling API.

pub mod api;
pub mod clock;
pub mod codec;
pub mod ids;
pub mod parsing;
pub mod records;
pub mod registry;
pub mod roles;
pub mod runner;
pub mod settings;
pub mod store;
pub mod text;
