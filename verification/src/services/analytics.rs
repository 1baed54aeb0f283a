//! Analytics over all applications.

use vstd::prelude::*;

verus! {

/// Why the analytics could not be had.
#[derive(Debug, PartialEq, Eq)]
pub enum AnalyticsError {
    DatabaseError(String),
    PermissionDenied,
}

} // verus!
