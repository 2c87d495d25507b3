//! Polls a chain node for new blocks and summarises each block's
//! transactions: the decoding, aggregation and rendering logic, verified.
pub mod error;
pub mod json;
pub mod hex;
pub mod text;
pub mod stats;
pub mod block;
pub mod rpc;
pub mod display;
pub mod poll;
