//! Execution-trace recorder for a transaction-processing engine.
//!
//! The recorder keeps, for every transaction of a batch, the tree of nested
//! instruction spans, the log lines and the state changes observed while it
//! ran, all stamped by one gap-free ordinal clock. A finished batch is
//! encoded as one protobuf message and announced by a handoff line.
pub mod codec;
pub mod deepmind;
pub mod log_collector;
pub mod trace;
pub mod wire;
