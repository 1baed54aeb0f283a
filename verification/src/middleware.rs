//! What the request pipeline knows of the caller.

pub mod auth;
