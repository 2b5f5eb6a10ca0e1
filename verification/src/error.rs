use vstd::prelude::*;

verus! {

/// Why a solver gave no answer.
#[derive(Clone, Debug, PartialEq, Eq)]
pub enum SolverException {
    /// The bounds show that no macro reaches the targets.
    NoSolution,
    /// The interrupt signal was raised.
    Interrupted,
    /// The solver met a state that its tables should hold and do not.
    InternalError(String),
    /// Memory ran out.
    AllocError,
}

/// `e` is the internal error with the message `text`.
pub open spec fn is_internal_error(e: SolverException, text: Seq<char>) -> bool {
    e matches SolverException::InternalError(message) && message@ == text
}

/// The error of a query for a state that has no frontier.
pub fn unknown_state_error() -> (e: SolverException)
    ensures
        is_internal_error(e, "StepLbSolver: Unknown state queried."@),
{
    SolverException::InternalError("StepLbSolver: Unknown state queried.".to_string())
}

/// The error of a state whose child has no frontier though it should have one.
pub fn missing_child_error() -> (e: SolverException)
    ensures
        is_internal_error(e, "StepLbSolver: Missing child state."@),
{
    SolverException::InternalError("StepLbSolver: Missing child state.".to_string())
}

} // verus!
