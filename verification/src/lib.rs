//! A verified core for bridging asynchronous key-value store operations into a
//! single-threaded cooperative host: byte-key ordering and ranges, host-value
//! marshalling, an in-memory model of the store's transactional semantics, and
//! the task-handle state machine that polls a one-shot completion channel.

pub mod coroutine;
pub mod host;
pub mod marshal;
pub mod order;
pub mod range;
pub mod store;
