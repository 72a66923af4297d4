//! Failures of the operating system, as plain values.

use vstd::prelude::*;

verus! {

/// What the program reads of a failed file, registry or thread operation.
#[derive(Debug)]
pub struct IoFailure {
    /// Whether the thing asked for does not exist.
    pub not_found: bool,
    /// The failure in words.
    pub message: String,
}

} // verus!
