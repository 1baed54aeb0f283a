//! Anonymized metrics.

use vstd::prelude::*;

verus! {

/// Why the metrics could not be had.
#[derive(Debug, PartialEq, Eq)]
pub enum MetricsError {
    DatabaseError(String),
    CalculationError(String),
}

} // verus!
