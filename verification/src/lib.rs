//! Reconciles a locally held set of secret values against the secret stores of
//! remote deployment environments, reachable through a rate-limited HTTP API,
//! sealing each value for its target so plaintext never leaves the process.
//!
//! This crate holds the verified core: the pre-flight completeness check, the
//! paginated-listing algorithm, the reconciliation diff and action plan, the
//! permit-pool accounting, and the sealing and encoding of secret values.
//! The surrounding process (configuration loading, HTTP transport, the async
//! scheduler) lives outside and hands the core plain values.

pub mod encoding;
pub mod orchestrate;
pub mod pagination;
pub mod plan;
pub mod pool;
pub mod sealing;
pub mod store;
