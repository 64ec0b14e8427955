//! Errors of a search run.

use vstd::prelude::*;

verus! {

/// Errors that can occur during local search optimization.
#[derive(Debug, Clone, Copy, PartialEq, Eq, Structural)]
pub enum LocalsearchError {
    /// Failed to generate a random solution.
    RandomGenerationError,
    /// Preprocessing of the solution failed.
    PreprocessError,
}

impl LocalsearchError {
    /// The text that describes the error.
    pub open spec fn spec_message(&self) -> Seq<char> {
        match self {
            LocalsearchError::RandomGenerationError => "Failed to generate random solution"@,
            LocalsearchError::PreprocessError => "Preprocessing failed"@,
        }
    }

    /// The text that describes the error.
    pub fn message(&self) -> (text: &'static str)
        ensures
            text@ == self.spec_message(),
    {
        match self {
            LocalsearchError::RandomGenerationError => "Failed to generate random solution",
            LocalsearchError::PreprocessError => "Preprocessing failed",
        }
    }
}

} // verus!
