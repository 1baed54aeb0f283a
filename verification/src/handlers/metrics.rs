//! Requests and answers of the cache administration.

use vstd::prelude::*;

verus! {

/// Period and cache lifetime of a metrics request.
#[derive(Debug, Clone, Copy, PartialEq, Eq)]
pub struct MetricsQuery {
    pub days: Option<i32>,
    pub cache_duration: Option<i32>,
}

/// The pattern whose keys are to leave the cache.
#[derive(Debug, PartialEq, Eq)]
pub struct InvalidateRequest {
    pub pattern: String,
}

/// How many keys left the cache.
#[derive(Debug, Clone, Copy, PartialEq, Eq)]
pub struct InvalidateResponse {
    pub invalidated_count: usize,
    pub success: bool,
}

/// How long warming the cache took.
#[derive(Debug, Clone, Copy, PartialEq, Eq)]
pub struct WarmCacheResponse {
    pub success: bool,
    pub warming_time_ms: u64,
}

} // verus!
