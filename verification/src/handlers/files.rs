//! Parameters of the file download.

use vstd::prelude::*;

verus! {

/// The token that authorizes a download.
#[derive(Debug, PartialEq, Eq)]
pub struct FileQuery {
    pub token: String,
}

} // verus!
