//! Runtime protection core for a long-lived interpreted-language worker.
//!
//! The crate models the interception-and-memory-safety layer of such a
//! worker as verified, self-contained state machines over opaque integer
//! addresses: a tiered slab allocator, a reference-count safety guard with
//! a freed-address registry, event counters with a JSON snapshot, and the
//! pure decision predicates behind the command, path, output, rate-limit,
//! file-integrity and upload guards.

pub mod allocator;
pub mod bytescan;
pub mod cmd_guard;
pub mod decimal;
pub mod edge_guard;
pub mod file_guard;
pub mod mem_pool;
pub mod rate_limiter;
pub mod rc_guard;
pub mod security;
pub mod sensitive_guard;
pub mod stats;
pub mod textscan;
pub mod upload_guard;
