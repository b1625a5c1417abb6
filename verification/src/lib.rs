//! Sequential provisioning orchestrator: a pipeline of idempotent setup
//! steps, each of which probes the current system state, skips itself when
//! already satisfied, prints its plan in dry-run mode, and otherwise asks
//! the caller to run its external commands one at a time.
//!
//! The library holds the decision logic only.  All process spawning, file
//! reading and terminal interaction stay with the caller, which drives the
//! engine by performing each emitted directive and feeding the observed
//! outcome back as an event.

pub mod args;
pub mod engine;
pub mod laws;
pub mod model;
pub mod text;
