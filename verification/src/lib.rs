//! Verified core of the job tracker backend: the two-tier cache that memoizes
//! expensive aggregates, together with the plain data types the service exchanges.

pub mod handlers;
pub mod middleware;
pub mod models;
pub mod services;
pub mod utils;
