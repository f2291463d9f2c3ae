//! Per-node state machine of an asynchronous Byzantine fault-tolerant
//! consensus engine: reliable broadcast, a two-phase prepare classifier and
//! binary agreement with a common coin, one instance per (epoch, height).

pub mod collections;
pub mod config;
pub mod error;
pub mod messages;
pub mod coin;
pub mod aggregator;
pub mod commitor;
pub mod state;
pub mod engine;
pub mod laws;
pub mod paths;
