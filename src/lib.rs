//! The persistence core of a scheduling service: processes, their
//! append-only messages, and the schedulers that own them, kept in a
//! relational store with message payloads mirrored into a blob tier.
//!
//! The modules hold the store's own logic, each step with its contract:
//! the blob-tier key encoding (`keys`), page queries and over-fetch
//! pagination (`paging`), blob lookups with relational fallback (`blob`),
//! the orchestrator's decisions and row mappings (`store`), the tail-sync
//! state machine (`sync`) and the range migration plan (`migrate`).

pub mod blob;
pub mod error;
pub mod keys;
pub mod migrate;
pub mod paging;
pub mod rows;
pub mod store;
pub mod sync;
