//! The authenticated caller.

use vstd::prelude::*;
use crate::models::user::UserRole;

verus! {

/// The name under which a role travels in a token.
pub open spec fn role_name(role: UserRole) -> Seq<char> {
    match role {
        UserRole::Admin => "admin"@,
        UserRole::Student => "student"@,
    }
}

/// The caller of a request, as its token names it.
#[derive(Debug, Clone, Copy, PartialEq, Eq)]
pub struct AuthUser {
    pub user_id: i32,
    pub role: UserRole,
}

impl AuthUser {
    /// Whether the caller is an administrator.
    pub fn is_admin(&self) -> (r: bool)
        ensures
            r == (self.role == UserRole::Admin),
    {
        match self.role {
            UserRole::Admin => true,
            UserRole::Student => false,
        }
    }

    /// Whether the caller is a student.
    pub fn is_student(&self) -> (r: bool)
        ensures
            r == (self.role == UserRole::Student),
    {
        match self.role {
            UserRole::Student => true,
            UserRole::Admin => false,
        }
    }

    /// The name of the caller's role.
    pub fn role_str(&self) -> (name: &'static str)
        ensures
            name@ == role_name(self.role),
    {
        match self.role {
            UserRole::Admin => "admin",
            UserRole::Student => "student",
        }
    }
}

} // verus!
