//! Requests and answers of the notification trigger.

use vstd::prelude::*;

verus! {

/// After how many days an application counts as stale.
#[derive(Debug, Clone, Copy, PartialEq, Eq)]
pub struct NotificationQuery {
    pub days: Option<i32>,
}

/// What a notification run did.
#[derive(Debug, PartialEq, Eq)]
pub struct NotificationResponse {
    pub message: String,
    pub processed_users: usize,
    pub total_stale_applications: usize,
}

} // verus!
