//! Helpers shared by the services: text matching, sequences, the wall clock,
//! errors and the logger.

pub mod clock;
pub mod errors;
pub mod logger;
pub mod sequences;
pub mod text;
pub mod wildcard;
