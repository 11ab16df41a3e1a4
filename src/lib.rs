//! Reliability machinery of a webhook-delivery service: a leased in-memory
//! message queue, retry backoff, the worker's per-attempt decision, the
//! idempotency layer's cache protocol, the expired-record sweeper and the
//! process lifecycle (which loops run, and how their results join).
pub mod backoff;
pub mod queue;
pub mod worker;
pub mod idempotency;
pub mod sweeper;
pub mod lifecycle;
