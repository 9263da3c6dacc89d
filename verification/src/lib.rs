//! Per-address packet accounting with an operator-managed source blocklist.
//!
//! The crate holds the decision logic of a small traffic guard: how a received
//! frame is classified, how the bounded tables behind it behave, how a line of
//! the control protocol is read, and what the reply to each command is.

pub mod addr;
pub mod classifier;
pub mod control;
pub mod executor;
pub mod table;
pub mod text;
