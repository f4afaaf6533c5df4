//! Concurrency-first in-memory primitives and the protocols around them:
//! a LIFO stack and an indexable array shared by many cooperatively
//! scheduled workers, an orchestrator that plans bounded workloads over
//! them, and a snapshot protocol that reads a consistent-enough copy for
//! a single-threaded display loop.

pub mod array;
pub mod contention;
pub mod log;
pub mod orchestrator;
pub mod snapshot;
pub mod stack;
pub mod stats;
pub mod transforms;
