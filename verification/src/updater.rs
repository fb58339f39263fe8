//! Metadata describing an available launcher release.  Checking for a
//! release and installing it are the embedding application's affair;
//! the library only carries the description.

use vstd::prelude::*;

verus! {

/// What is known about an available launcher release.
pub struct UpdateMetadata {
    pub version: String,
    pub current_version: String,
    pub notes: Option<String>,
    pub date: Option<String>,
}

} // verus!
