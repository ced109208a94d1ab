//! A job-state persistence layer: it records the lifecycle of asynchronous
//! jobs into an external distributed key-value store, so that job status
//! survives process restarts and is visible across server instances.
//!
//! The crate defines the canonical job record (`JobEntry` and its codec), an
//! idempotent namespacing scheme for storage keys, and a store adapter that
//! isolates callers from failures of the remote store.

pub mod model;
pub mod codec;
pub mod namespace;
pub mod ops;
pub mod persistence;

pub use model::{JobEntry, JobOutcome, JobRequest, JobState};
pub use namespace::apply_namespace_if_absent;
pub use ops::{get_entry, set_entry};
pub use persistence::{
    ConsulPersistence, FailingPersistence, InMemoryPersistence, Persistence, PersistenceError,
};
