//! Services of the backend.

pub mod activity;
pub mod analytics;
pub mod cache;
pub mod metrics;
