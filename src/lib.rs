//! Gap detection and recovery for a sequenced broadcast feed.
//!
//! A publisher emits numbered price updates over a lossy broadcast channel and
//! deliberately withholds some of them; a consumer tracks the next sequence
//! number it expects, and on a gap asks a recovery service, which answers from
//! an in-memory store, for the one sequence it was waiting for.

pub mod decimal;
pub mod wire;
pub mod store;
pub mod publisher;
pub mod consumer;
pub mod laws;
