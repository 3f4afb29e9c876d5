//! Deferred cross-contract calls: a router that buffers batches of promises
//! under ever-growing indices and releases them against a declared budget,
//! and the coordinator that drives scheduling, pulling and execution.

pub mod account;
pub mod budget;
pub mod codec;
pub mod codec_laws;
pub mod coordinator;
pub mod laws;
pub mod promise;
pub mod resolver;
pub mod router;
pub mod wire;
