//! Figures of the administrative analytics.

use vstd::prelude::*;
use crate::models::application::ApplicationStatus;

verus! {

/// Screenings by outcome.
#[derive(Debug, Clone, Copy, PartialEq, Eq)]
pub struct ScreeningStats {
    pub total_screenings: i64,
    pub passed: i64,
    pub failed: i64,
    pub pending: i64,
}

/// Interviews by outcome.
#[derive(Debug, Clone, Copy, PartialEq, Eq)]
pub struct InterviewStats {
    pub total_interviews: i64,
    pub passed: i64,
    pub failed: i64,
    pub pending: i64,
}

/// Activity of one day.
#[derive(Debug, PartialEq, Eq)]
pub struct DailyStat {
    pub date: String,
    pub applications_count: i64,
    pub screenings_count: i64,
    pub interviews_count: i64,
}

/// Applications sent to one company.
#[derive(Debug, PartialEq, Eq)]
pub struct CompanyStats {
    pub company: String,
    pub application_count: i64,
    pub unique_students: i64,
}

/// Applications sent to one job posting.
#[derive(Debug, PartialEq, Eq)]
pub struct JobUrlStats {
    pub job_url: String,
    pub application_count: i64,
    pub unique_students: i64,
}

/// Filters of the administrative listings.
#[derive(Debug, PartialEq, Eq)]
pub struct AdminQuery {
    pub company: Option<String>,
    pub status: Option<ApplicationStatus>,
    pub days_stale: Option<i32>,
}

} // verus!
