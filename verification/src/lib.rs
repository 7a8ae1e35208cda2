//! Verified core of a concurrent HTTP load-sampling tool: per-fetch
//! result records, the aggregator state that accumulates them during a
//! run, and the statistics reducer that turns a finalized state into a
//! run summary.
pub mod fetcher;
pub mod url_receiver;
