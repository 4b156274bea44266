//! The decisions of the iterative solve loop.
//!
//! The loop solves the statements again and again: each iteration first counts
//! itself (at most 100 iterations run), then processes every statement, deferring
//! the constraints whose values are not known yet, and checks the solver. Unsatisfiable
//! or undecided constraints end the loop with an error. A satisfiable check ends it
//! with a complete solution when nothing was deferred, and with a partial one when
//! constraints stayed deferred and the iteration resolved no more variables than the
//! one before; otherwise the next iteration runs.

use vstd::prelude::*;
use crate::solver::context::{SolverError, SolverErrorModel, Solution};
use crate::solver::z3_api::CheckOutcome;

verus! {

/// The most iterations the loop runs.
pub const MAX_ITERATIONS: usize = 100;

/// The loop's state: iterations begun and variables resolved by the last solution.
#[derive(Debug, Clone, Copy)]
pub struct SolveState {
    pub iteration: usize,
    pub previous_solved_count: usize,
}

/// What follows an iteration whose check found the constraints satisfiable.
#[derive(Debug, Clone, Copy)]
pub enum StepAction {
    /// Nothing was deferred: the solution is complete.
    Complete,
    /// Constraints stayed deferred and the iteration resolved nothing new: the
    /// solution is partial.
    NoProgress,
    /// Another iteration runs.
    Continue,
}

/// The end of a solve that found the constraints satisfiable.
pub enum SolveResult<'src> {
    /// Every constraint was resolved.
    Complete { solution: Solution<'src>, iterations: usize },
    /// Constraints stayed deferred; `deferred` describes them.
    Partial { solution: Solution<'src>, deferred: Vec<String>, iterations: usize },
}

impl SolveState {
    /// The state before the first iteration.
    pub fn new() -> (s: SolveState)
        ensures
            s.iteration == 0,
            s.previous_solved_count == 0,
    {
        SolveState { iteration: 0, previous_solved_count: 0 }
    }
}

/// The error of running out of iterations.
pub open spec fn iteration_limit_error() -> SolverErrorModel {
    SolverErrorModel::ContextError("Maximum iterations (100) exceeded"@)
}

/// Begins an iteration: counted, unless the limit of iterations has been reached.
pub fn start_iteration(state: SolveState) -> (r: Result<SolveState, SolverError>)
    ensures
        state.iteration >= MAX_ITERATIONS ==> (r matches Err(e) && e@ == iteration_limit_error()),
        state.iteration < MAX_ITERATIONS ==> (r matches Ok(s) && s.iteration == state.iteration + 1
            && s.previous_solved_count == state.previous_solved_count),
{
    if state.iteration >= MAX_ITERATIONS {
        Err(SolverError::ContextError(String::from_str("Maximum iterations (100) exceeded")))
    } else {
        Ok(SolveState { iteration: state.iteration + 1, previous_solved_count: state.previous_solved_count })
    }
}

/// The action after a satisfiable check that resolved `resolved` variables, with
/// `deferred_before` constraints deferred by the previous iteration and
/// `deferred_after` by this one.
pub open spec fn step_action(previous: usize, resolved: usize, deferred_before: usize, deferred_after: usize) -> StepAction {
    if deferred_after == 0 {
        StepAction::Complete
    } else if resolved <= previous && deferred_before > 0 {
        StepAction::NoProgress
    } else {
        StepAction::Continue
    }
}

/// Decides what follows the check of an iteration: an error for unsatisfiable or
/// undecided constraints; otherwise the action of [`step_action`], with the count
/// of resolved variables recorded for the next iteration.
pub fn solve_step(state: SolveState, outcome: CheckOutcome, resolved: usize, deferred_before: usize, deferred_after: usize)
    -> (r: Result<(SolveState, StepAction), SolverError>)
    ensures
        outcome == CheckOutcome::Unsat ==> (r matches Err(e) && e@ == SolverErrorModel::Unsatisfiable),
        outcome == CheckOutcome::Unknown ==> (r matches Err(e) && e@ == SolverErrorModel::Unknown),
        outcome == CheckOutcome::Sat ==> (r matches Ok((s, a)) && s.iteration == state.iteration
            && s.previous_solved_count == resolved
            && a == step_action(state.previous_solved_count, resolved, deferred_before, deferred_after)),
{
    match outcome {
        CheckOutcome::Unsat => Err(SolverError::Unsatisfiable),
        CheckOutcome::Unknown => Err(SolverError::Unknown),
        CheckOutcome::Sat => {
            let made_progress = resolved > state.previous_solved_count;
            let next = SolveState { iteration: state.iteration, previous_solved_count: resolved };
            let action = if deferred_after == 0 {
                StepAction::Complete
            } else if !made_progress && deferred_before > 0 {
                StepAction::NoProgress
            } else {
                StepAction::Continue
            };
            Ok((next, action))
        },
    }
}

} // verus!
