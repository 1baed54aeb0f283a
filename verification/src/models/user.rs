//! Users and the requests that create and authenticate them.

use vstd::prelude::*;

verus! {

/// What a user may do.
#[derive(Debug, Clone, Copy, PartialEq, Eq, Structural)]
pub enum UserRole {
    Student,
    Admin,
}

/// The data of a registration.
#[derive(Debug, PartialEq, Eq)]
pub struct CreateUserRequest {
    pub email: String,
    pub password: String,
    pub first_name: String,
    pub last_name: String,
    pub role: Option<UserRole>,
    pub admin_code: Option<String>,
}

/// The data of a login.
#[derive(Debug, PartialEq, Eq)]
pub struct LoginRequest {
    pub email: String,
    pub password: String,
}

} // verus!
