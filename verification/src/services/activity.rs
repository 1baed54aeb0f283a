//! Activity of a user over time.

use vstd::prelude::*;

verus! {

/// Activity of one day.
#[derive(Debug, PartialEq, Eq)]
pub struct ActivityData {
    pub date: String,
    pub applications_count: i32,
    pub screenings_count: i32,
    pub interviews_count: i32,
    pub total_activity: i32,
}

/// Why the activity could not be had.
#[derive(Debug, PartialEq, Eq)]
pub enum ActivityError {
    DatabaseError(String),
    PermissionDenied,
}

} // verus!
