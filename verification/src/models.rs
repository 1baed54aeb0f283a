//! The entities of the job tracker, as far as they are plain data.

pub mod application;
pub mod interview;
pub mod screening;
pub mod user;
