//! A verified model of a tiered profile-resolution service.
//!
//! The library fronts a slow external profile source with three tiers:
//! a durable store of persisted records, a short-lived cache with
//! per-entry TTLs, and a FIFO scrape queue with a dedup index that
//! guarantees at most one queued or in-flight fetch per resource id.
//! A worker drains the queue and writes fetch results back, and a
//! frecency engine periodically refreshes the most stale records.
//!
//! All state is modelled over plain values (ids, byte payloads, unix
//! timestamps, and integer order keys for the log-space frecency
//! score), so every transition carries a proved contract.  The
//! process shell around it — HTTP transport, storage drivers, the
//! scraper, and the floating-point score arithmetic — lives outside
//! the library and feeds it events.

pub mod cache;
pub mod database;
pub mod frecency;
pub mod queue;
pub mod routes;
pub mod service;
pub mod store;
pub mod workers;
