//! Tracking orchestrator: keeps a datastore's view of a set of repositories
//! in step with their upstream state.
//!
//! The crate holds the decisions of a tracking run: fingerprints that tell
//! whether fetched state changed, the set difference between the remote and
//! the local issues of a repository, the steps of one repository's
//! synchronisation, and the scheduler that fans units of work out over a pool
//! of credentials and folds their outcomes into one verdict.  Network and
//! datastore calls are made by the caller, who hands their results back as
//! events.

pub mod convergence;
pub mod digest;
pub mod encoding;
pub mod error;
pub mod model;
pub mod pool;
pub mod reconcile;
pub mod report;
pub mod scheduler;
pub mod sync;
