//! Core of a chain event indexer: the roll-forward state machine that turns
//! source items into element and checkpoint events, the batching rewrite,
//! chunked backfill planning, and the conversions that feed the sink and the
//! checkpoint store. All I/O (node RPC, SQL stores, channels) lives outside,
//! in the thin driver around this library.

pub mod args;
pub mod block;
pub mod checkpoint;
pub mod consumer;
pub mod engine;
pub mod event;
pub mod gapfiller;
pub mod log;
pub mod producer;
pub mod publisher;
pub mod query;
pub mod render;
pub mod source;
pub mod state;
pub mod subscriber;
pub mod transfer;
