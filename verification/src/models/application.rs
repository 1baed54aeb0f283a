//! Job applications.

use vstd::prelude::*;

verus! {

/// Where an application stands.
#[derive(Debug, Clone, Copy, PartialEq, Eq, Structural)]
pub enum ApplicationStatus {
    Waiting,
    Rejected,
    NextStage,
    Ignored,
}

} // verus!
