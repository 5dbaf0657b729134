//! One full integration step over `n` bodies.
//!
//! A step clears every force accumulator, runs one force pass, and then
//! moves every body once.  No body is moved before the last force has been
//! evaluated, so all forces of a step are taken from the positions that the
//! bodies had when the step began.

use vstd::prelude::*;
use crate::cursor::handed_out;
use crate::force_pass::{
    force_pass, lemma_force_pass_len, lemma_force_pass_once, ForceAction, ForcePass,
};

verus! {

/// One thing to do during a step.
#[derive(Clone, Copy, Debug, PartialEq, Eq, Structural)]
pub enum StepAction {
    /// Set the force accumulator of `body` to zero.
    ResetForce { body: usize },
    /// Perform an action of the force pass.
    Force(ForceAction),
    /// Give `body` its new position and velocity from its settled
    /// acceleration and the step size.
    Integrate { body: usize },
}

/// The resets of the bodies `from, from + 1, ..., n - 1`.
pub open spec fn resets(from: usize, n: usize) -> Seq<StepAction> {
    if from > n {
        Seq::empty()
    } else {
        Seq::new((n - from) as nat, |k: int| StepAction::ResetForce { body: (from + k) as usize })
    }
}

/// The given force actions as actions of a step.
pub open spec fn forces(actions: Seq<ForceAction>) -> Seq<StepAction> {
    actions.map_values(|action: ForceAction| StepAction::Force(action))
}

/// The moves of the bodies `from, from + 1, ..., n - 1`.
pub open spec fn integrations(from: usize, n: usize) -> Seq<StepAction> {
    if from > n {
        Seq::empty()
    } else {
        Seq::new((n - from) as nat, |k: int| StepAction::Integrate { body: (from + k) as usize })
    }
}

/// The whole step over `n` bodies.
pub open spec fn step_actions(n: usize) -> Seq<StepAction> {
    resets(0, n) + forces(force_pass(n)) + integrations(0, n)
}

/// The phase of an action: resets first, forces second, moves third.
pub open spec fn phase(action: StepAction) -> int {
    match action {
        StepAction::ResetForce { .. } => 0,
        StepAction::Force(_) => 1,
        StepAction::Integrate { .. } => 2,
    }
}

/// A step over `n` bodies has `n` resets, the `n * (n + 1) / 2` actions of a
/// force pass, and `n` moves.
pub proof fn lemma_step_len(n: usize)
    ensures
        2 * step_actions(n).len() == n * (n + 1) + 4 * n,
{
    lemma_force_pass_len(n);
}

/// Where each action of a step stands: body `b` is reset at place `b`, the
/// force pass follows the `n` resets unchanged, and body `b` is moved at place
/// `b` behind the force pass.
pub proof fn lemma_step_place(n: usize, k: int)
    requires
        0 <= k < step_actions(n).len(),
    ensures
        step_actions(n)[k] == (if k < n {
            StepAction::ResetForce { body: k as usize }
        } else if k < n + force_pass(n).len() {
            StepAction::Force(force_pass(n)[k - n])
        } else {
            StepAction::Integrate { body: (k - n - force_pass(n).len()) as usize }
        }),
{
}

/// The phases never go back: once a force has been evaluated no accumulator
/// is cleared, and once a body has been moved no force is evaluated.
pub proof fn lemma_step_phase_order(n: usize, k1: int, k2: int)
    requires
        0 <= k1 <= k2 < step_actions(n).len(),
    ensures
        phase(step_actions(n)[k1]) <= phase(step_actions(n)[k2]),
{
    lemma_step_place(n, k1);
    lemma_step_place(n, k2);
}

/// No action of a step occurs twice: every accumulator is cleared once, every
/// action of the force pass is performed once, and every body is moved once.
pub proof fn lemma_step_once(n: usize)
    ensures
        step_actions(n).no_duplicates(),
{
    lemma_force_pass_once(n);
    let all = step_actions(n);
    assert forall|k1: int, k2: int| 0 <= k1 < all.len() && 0 <= k2 < all.len() && k1 != k2
        implies all[k1] != all[k2] by {
        lemma_step_place(n, k1);
        lemma_step_place(n, k2);
    }
}

/// A cursor over the actions of one step.
pub struct StepPlan {
    n: usize,
    reset: usize,
    pass: ForcePass,
    moved: usize,
}

impl View for StepPlan {
    type V = Seq<StepAction>;

    /// The actions that are still to come, in order.
    closed spec fn view(&self) -> Seq<StepAction> {
        resets(self.reset, self.n) + forces(self.pass@) + integrations(self.moved, self.n)
    }
}

impl StepPlan {
    #[verifier::type_invariant]
    spec fn inv(self) -> bool {
        &&& self.pass.bodies() == self.n
        &&& self.reset <= self.n
        &&& self.moved <= self.n
        &&& self.reset < self.n ==> self.pass@ == force_pass(self.n)
        &&& (self.reset < self.n || self.pass@.len() > 0) ==> self.moved == 0
    }

    /// The number of bodies of the step.
    pub closed spec fn bodies(self) -> usize {
        self.n
    }

    /// Starts a step over the bodies `0..n`.
    pub fn for_bodies(n: usize) -> (plan: StepPlan)
        ensures
            plan@ == step_actions(n),
            plan.bodies() == n,
    {
        StepPlan { n, reset: 0, pass: ForcePass::over(n), moved: 0 }
    }

    /// Hands out the next action, or `None` once the step is complete.
    pub fn next(&mut self) -> (action: Option<StepAction>)
        ensures
            final(self).bodies() == old(self).bodies(),
            handed_out(old(self)@, action, final(self)@),
    {
        proof {
            use_type_invariant(&*self);
        }
        let ghost before = self@;
        if self.reset < self.n {
            let body: usize = self.reset;
            self.reset = body + 1;
            assert(before[0] == (StepAction::ResetForce { body }));
            assert(self@ =~= before.skip(1));
            return Some(StepAction::ResetForce { body });
        }
        match self.pass.next() {
            Some(force) => {
                assert(before[0] == StepAction::Force(force));
                assert(self@ =~= before.skip(1));
                Some(StepAction::Force(force))
            },
            None => {
                if self.moved < self.n {
                    let body: usize = self.moved;
                    self.moved = body + 1;
                    assert(before[0] == (StepAction::Integrate { body }));
                    assert(self@ =~= before.skip(1));
                    Some(StepAction::Integrate { body })
                } else {
                    assert(before.len() == 0);
                    None
                }
            },
        }
    }
}

} // verus!
