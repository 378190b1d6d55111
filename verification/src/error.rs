use vstd::prelude::*;

verus! {

/// Why a board could not be built or solved.
///
/// The first two kinds report malformed input; `NoSolution` is the expected
/// outcome of a search on a puzzle that cannot be completed.
#[derive(Debug, Clone, Copy, PartialEq, Eq, Structural)]
pub enum SolverError {
    /// A coordinate addresses a position outside the grid storage.
    OutOfBounds,
    /// An edge above the top row or left of the first column was named.
    InvalidEdgeReference,
    /// The search tried every candidate marking and none is legal.
    NoSolution,
}

impl SolverError {
    /// The text that describes each kind of failure.
    pub open spec fn spec_message(&self) -> Seq<char> {
        match self {
            SolverError::OutOfBounds => "Index out of bounds"@,
            SolverError::InvalidEdgeReference => "No wall above the top row or left of the first column"@,
            SolverError::NoSolution => "No solution found"@,
        }
    }

    /// A short description of the failure, for display to a user.
    pub fn message(&self) -> (text: &'static str)
        ensures
            text@ == self.spec_message(),
    {
        match self {
            SolverError::OutOfBounds => "Index out of bounds",
            SolverError::InvalidEdgeReference => "No wall above the top row or left of the first column",
            SolverError::NoSolution => "No solution found",
        }
    }
}

} // verus!
