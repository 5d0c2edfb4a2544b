//! Planning and bookkeeping for a benchmark that looks for the batch size and
//! concurrency with which an Ethereum JSON-RPC node answers fastest.
//!
//! The library holds the logic: the request bodies, the reading of the
//! answers, the sweep over batch sizes and the timing statistics.  Network,
//! threads, the clock and files are left to the program around it.

pub mod query;
pub mod timing;
pub mod hex;
pub mod eth_request;
pub mod json;
pub mod extention;
pub mod write_csv;
