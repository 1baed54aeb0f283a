//! Interviews.

use vstd::prelude::*;

verus! {

/// How an interview ended.
#[derive(Debug, Clone, Copy, PartialEq, Eq, Structural)]
pub enum InterviewResult {
    Passed,
    Failed,
}

} // verus!
