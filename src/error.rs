//! Errors of the library.

use vstd::prelude::*;

verus! {

/// Why a step of the pipeline failed.
#[derive(Debug)]
pub enum AppError {
    /// A failure with its human-readable message.
    Message(String),
}

} // verus!
