//! A fixed-size worker pool, modelled and verified as a state machine, together
//! with the two small pieces of logic it serves: a line-search utility and the
//! request routing of a minimal web server.
//!
//! The pool itself coordinates OS threads and a shared channel; those effects
//! live outside this crate. What is verified here is the lifecycle logic:
//! which transitions a pool, its workers and its jobs may take, and the
//! guarantees that follow — every submitted job is delivered to exactly one
//! worker, none is dropped, and an orderly teardown joins every worker.

pub mod grep;
pub mod http;
pub mod pool;
