//! Frame distribution for a screen-streaming server: a periodic producer
//! turns frames into length-prefixed wire messages and fans them out to many
//! clients, each with its own bounded backlog and lag reporting.
//!
//! - `wire`: the message format, its encoder and decoder, and the proof that
//!   decoding undoes encoding.
//! - `compression`: payload compression and the numbering and stamping of
//!   messages.
//! - `broadcast`: the fan-out channel, its model, and the laws of order and
//!   lag.
//! - `capture`: the decisions of one tick of the producer, with backoff.
//! - `session`: the decisions of one client connection.
//! - `metrics`, `config`, `error`: counters, settings and failures.

pub mod broadcast;
pub mod capture;
pub mod compression;
pub mod config;
pub mod digits;
pub mod error;
pub mod metrics;
pub mod session;
pub mod wire;
