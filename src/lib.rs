//! Trigger matching and the mapping host of a blockchain indexing runtime.

pub mod abi;
pub mod adapter;
pub mod block_filter;
pub mod bytes;
pub mod call_filter;
pub mod chain;
pub mod data_source;
pub mod dispatch;
pub mod encoding;
pub mod hash;
pub mod host;
pub mod log_filter;
