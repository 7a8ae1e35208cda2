//! The fetch worker's decision logic: what result one fetch attempt
//! yields. The worker loop itself — receiving URLs from the shared
//! channel, issuing the HTTP GET, timing it and sending the result on —
//! performs I/O and lives with the callers; it hands the transport's
//! outcome here as a plain value.
use crate::fetcher::FetchResult;
use vstd::prelude::*;

verus! {

/// How one HTTP GET resolved, as the worker observes it: either the
/// status and full body arrived, with the elapsed wall-clock time, or
/// the transport failed somewhere along the way.
pub enum FetchOutcome {
    Success { status_code: u16, size: usize, duration_ms: u64 },
    Failure,
}

/// The result a worker records for one fetch attempt: a successful
/// transport call keeps its status, body length and elapsed time and is
/// valid; any transport failure becomes an invalid result with every
/// field zero.
pub fn fetch_result_of(outcome: &FetchOutcome) -> (r: FetchResult)
    ensures
        match *outcome {
            FetchOutcome::Success { status_code, size, duration_ms } => r == (FetchResult {
                valid: true,
                duration_ms,
                status_code,
                size,
            }),
            FetchOutcome::Failure => r == (FetchResult {
                valid: false,
                duration_ms: 0,
                status_code: 0,
                size: 0,
            }),
        },
{
    match outcome {
        FetchOutcome::Success { status_code, size, duration_ms } => FetchResult {
            valid: true,
            duration_ms: *duration_ms,
            status_code: *status_code,
            size: *size,
        },
        FetchOutcome::Failure => FetchResult {
            valid: false,
            duration_ms: 0,
            status_code: 0,
            size: 0,
        },
    }
}

} // verus!
