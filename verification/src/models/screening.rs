//! Screenings.

use vstd::prelude::*;

verus! {

/// How a screening ended.
#[derive(Debug, Clone, Copy, PartialEq, Eq, Structural)]
pub enum ScreeningResult {
    Passed,
    Failed,
}

} // verus!
