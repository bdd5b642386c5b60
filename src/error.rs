//! The errors the library reports.

use vstd::prelude::*;

verus! {

#[derive(Clone, Debug, PartialEq, Eq)]
pub enum BakeError {
    /// A membership pattern is not a valid glob.
    InvalidGlob { pattern: String },
    /// The requested output format is neither `hcl` nor `json`.
    UnsupportedFormat { format: String },
}

} // verus!
