//! A transaction-submission watchtower core: a durable, at-least-once relay
//! that accepts signed blockchain transactions, holds them until they are
//! eligible for delivery, and drives them through broadcast, retry, receipt
//! observation, and terminal resolution.
//!
//! This crate holds the verified pipeline logic: the transaction record and
//! its status state machine, the lease engine, the ready/retry index model,
//! the broadcaster's response classifier and aggregation, the backoff rule,
//! and the scheduler and watcher decision logic. Database, Redis, and RPC
//! adapters live outside the library and hand it plain values.

pub mod bigend;
pub mod broadcaster;
pub mod config;
pub mod digest;
pub mod hexcode;
pub mod index;
pub mod ingress;
pub mod laws;
pub mod memo;
pub mod models;
pub mod nonce_key;
pub mod scheduler;
pub mod status;
pub mod store;
pub mod text;
pub mod watcher;
