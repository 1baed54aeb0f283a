//! Data exchanged with the callers of the HTTP layer, and the rules that
//! need no I/O.

pub mod admin;
pub mod auth;
pub mod files;
pub mod metrics;
pub mod notifications;
