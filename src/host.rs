use vstd::prelude::*;
use crate::model::{RunOnceResult, RunStatus};

verus! {

/// What a host loop does after a scheduler step.
#[derive(Clone, Copy, PartialEq, Eq, Structural, Debug)]
pub enum HostAction {
    /// Call `run_once` again at once.
    RunAgain,
    /// Block on the host's own I/O until some outstanding work is ready.
    Wait,
    /// Nothing is left to do: leave the loop.
    Stop,
    /// Hand the result of this finished thread to whatever awaited it.
    Deliver(usize),
    /// Surface a diagnostic for this status, about this thread if any.
    Report(RunStatus, Option<usize>),
}

/// The host loop's decision after a step that returned `r`, where
/// `has_work` says whether work was still outstanding afterwards.
pub open spec fn action_for(r: RunOnceResult, has_work: bool) -> HostAction {
    match r.op {
        RunStatus::Success => match r.state {
            Some(t) => HostAction::Deliver(t),
            None => HostAction::RunAgain,
        },
        RunStatus::Empty => if has_work {
            HostAction::Wait
        } else {
            HostAction::Stop
        },
        _ => HostAction::Report(r.op, r.state),
    }
}

/// Decides what the host loop does after a scheduler step.
pub fn next_action(r: RunOnceResult, has_work: bool) -> (a: HostAction)
    ensures
        a == action_for(r, has_work),
{
    match r.op {
        RunStatus::Success => match r.state {
            Some(t) => HostAction::Deliver(t),
            None => HostAction::RunAgain,
        },
        RunStatus::Empty => if has_work {
            HostAction::Wait
        } else {
            HostAction::Stop
        },
        _ => HostAction::Report(r.op, r.state),
    }
}

} // verus!
