//! Core of a cache-aware load-balancing router for a fleet of inference
//! workers. The library decides, per request, which worker should serve it,
//! and maintains the data structures that inform future decisions: an
//! approximate prefix tree of recently routed request texts, per-worker
//! pending-request counters, and an optional per-user fairness accountant.
//!
//! All I/O (the HTTP proxy itself) lives outside this crate; the library
//! works on plain values handed to it by its caller.

pub mod counters;
pub mod fairness;
pub mod router;
pub mod extract;
pub mod stream;
pub mod text;
pub mod tree;
