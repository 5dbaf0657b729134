//! A whole run: a number of full steps, then at most one shorter step.
//!
//! The shorter step brings the run to a total duration that is no multiple of
//! the step size.  It is taken once, after the last full step.

use vstd::prelude::*;
use crate::cursor::handed_out;

verus! {

/// One thing to do during a run.
#[derive(Clone, Copy, Debug, PartialEq, Eq, Structural)]
pub enum RunAction {
    /// Advance the system by one step of the full step size.
    FullStep,
    /// Advance the system by one step of the remaining, shorter step size.
    RemainderStep,
}

/// `count` full steps.
pub open spec fn full_steps(count: usize) -> Seq<RunAction> {
    Seq::new(count as nat, |k: int| RunAction::FullStep)
}

/// The whole run: `step_count` full steps, then the remainder step if there
/// is one.
pub open spec fn run_actions(step_count: usize, remainder: bool) -> Seq<RunAction> {
    if remainder {
        full_steps(step_count).push(RunAction::RemainderStep)
    } else {
        full_steps(step_count)
    }
}

/// A run takes exactly `step_count` full steps, none skipped and none merged,
/// and the remainder step, where there is one, once and last.
pub proof fn lemma_run_places(step_count: usize, remainder: bool)
    ensures
        run_actions(step_count, remainder).len() == step_count + (if remainder {
            1int
        } else {
            0int
        }),
        forall|k: int|
            0 <= k < step_count ==> #[trigger] run_actions(step_count, remainder)[k]
                == RunAction::FullStep,
        remainder ==> run_actions(step_count, remainder)[step_count as int]
            == RunAction::RemainderStep,
{
}

/// A cursor over the steps of one run.
pub struct RunPlan {
    left: usize,
    remainder: bool,
}

impl View for RunPlan {
    type V = Seq<RunAction>;

    /// The steps that are still to come, in order.
    closed spec fn view(&self) -> Seq<RunAction> {
        run_actions(self.left, self.remainder)
    }
}

impl RunPlan {
    /// Plans `step_count` full steps, followed by a remainder step if
    /// `remainder` is set.
    pub fn new(step_count: usize, remainder: bool) -> (plan: RunPlan)
        ensures
            plan@ == run_actions(step_count, remainder),
    {
        RunPlan { left: step_count, remainder }
    }

    /// Hands out the next step, or `None` once the run is complete.
    pub fn next(&mut self) -> (action: Option<RunAction>)
        ensures
            handed_out(old(self)@, action, final(self)@),
    {
        let ghost before = self@;
        if self.left > 0 {
            self.left = self.left - 1;
            assert(before[0] == RunAction::FullStep);
            assert(self@ =~= before.skip(1));
            Some(RunAction::FullStep)
        } else if self.remainder {
            self.remainder = false;
            assert(before[0] == RunAction::RemainderStep);
            assert(self@ =~= before.skip(1));
            Some(RunAction::RemainderStep)
        } else {
            None
        }
    }
}

} // verus!
