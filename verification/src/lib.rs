//! Verified core of a Lightning-network node synchronization pipeline.
//!
//! The pipeline fetches node ranking records from a remote registry,
//! normalizes each record (satoshi capacity to a decimal BTC string, Unix
//! seconds to a UTC calendar rendering), and upserts the result into a
//! store keyed by node public key. This crate holds the verified logic:
//! the normalizer, the store's replace semantics, and the worker's
//! failure-isolation policy. Transport, the HTTP surface, and the real
//! relational store live outside it.

pub mod client;
pub mod database;
pub mod normalize;
pub mod worker;
