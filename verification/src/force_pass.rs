//! One pass of pairwise force accumulation over `n` bodies.
//!
//! The pass is a sequence of actions for the caller to perform on its bodies.
//! For every body `i` in turn, the force between `i` and each later body `j`
//! is evaluated once and applied to both, and then the acceleration of `i` is
//! settled from its accumulated force.  At that moment body `i` has met every
//! other body: the earlier ones in their rows, the later ones in its own.

use vstd::prelude::*;
use crate::cursor::handed_out;
use crate::pairs::{lemma_unique_pairs_members, pair_lt, row_from, rows_from, unique_pairs};

verus! {

/// One thing to do during a force pass.
#[derive(Clone, Copy, Debug, PartialEq, Eq, Structural)]
pub enum ForceAction {
    /// Evaluate the force that body `from` exerts on body `on`, add it to the
    /// accumulator of `on`, and add its negation to the accumulator of `from`.
    Pair { on: usize, from: usize },
    /// Every force on `body` has been accumulated: set its acceleration to
    /// the accumulated force divided by its mass.
    Settle { body: usize },
}

/// The actions of body `i` from partner `j` on: the pairs `(i, j), ...,
/// (i, n - 1)`, then the settling of `i`.
pub open spec fn body_actions(i: usize, j: usize, n: usize) -> Seq<ForceAction> {
    if j > n {
        Seq::empty()
    } else {
        Seq::new(
            (n - j + 1) as nat,
            |k: int|
                if j + k < n {
                    ForceAction::Pair { on: i, from: (j + k) as usize }
                } else {
                    ForceAction::Settle { body: i }
                },
        )
    }
}

/// The actions of the bodies `i, i + 1, ..., n - 1`, body after body.
pub open spec fn actions_from(i: usize, n: usize) -> Seq<ForceAction>
    decreases n - i,
{
    if i >= n {
        Seq::empty()
    } else {
        body_actions(i, (i + 1) as usize, n) + actions_from((i + 1) as usize, n)
    }
}

/// The whole force pass over `n` bodies.
pub open spec fn force_pass(n: usize) -> Seq<ForceAction> {
    actions_from(0, n)
}

/// The place of an action in the pass: a pair `(i, j)` stands at `(i, j)`,
/// the settling of `i` behind all pairs of `i`, at `(i, n)`.
pub open spec fn action_key(action: ForceAction, n: usize) -> (usize, usize) {
    match action {
        ForceAction::Pair { on, from } => (on, from),
        ForceAction::Settle { body } => (body, n),
    }
}

/// Whether `action` belongs to a pass over `n` bodies that starts at body `i`.
pub open spec fn action_in_range(action: ForceAction, i: usize, n: usize) -> bool {
    match action {
        ForceAction::Pair { on, from } => i <= on < from < n,
        ForceAction::Settle { body } => i <= body < n,
    }
}

/// What holds of the actions from body `i` on: their number, the range of
/// each, their order, and that none of the range is missing.
proof fn lemma_actions_from(i: usize, n: usize)
    requires
        i <= n,
    ensures
        2 * actions_from(i, n).len() == (n - i) * (n - i + 1),
        forall|k: int|
            0 <= k < actions_from(i, n).len() ==> action_in_range(
                #[trigger] actions_from(i, n)[k],
                i,
                n,
            ),
        forall|k1: int, k2: int|
            0 <= k1 < k2 < actions_from(i, n).len() ==> pair_lt(
                action_key(#[trigger] actions_from(i, n)[k1], n),
                action_key(#[trigger] actions_from(i, n)[k2], n),
            ),
        forall|action: ForceAction|
            action_in_range(action, i, n) ==> #[trigger] actions_from(i, n).contains(action),
    decreases n - i,
{
    let all = actions_from(i, n);
    if i < n {
        let next: usize = (i + 1) as usize;
        let row = body_actions(i, next, n);
        let rest = actions_from(next, n);
        lemma_actions_from(next, n);
        assert(all == row + rest);
        assert(row.len() == n - i);
        assert(2 * all.len() == (n - i) * (n - i + 1)) by (nonlinear_arith)
            requires
                all.len() == (n - i) + rest.len(),
                2 * rest.len() == (n - next) * (n - next + 1),
                next == i + 1,
        ;
        assert forall|k: int| 0 <= k < all.len() implies action_in_range(
            #[trigger] all[k],
            i,
            n,
        ) by {
            if k >= row.len() {
                assert(all[k] == rest[k - row.len()]);
            }
        }
        assert forall|k1: int, k2: int| 0 <= k1 < k2 < all.len() implies pair_lt(
            action_key(#[trigger] all[k1], n),
            action_key(#[trigger] all[k2], n),
        ) by {
            if k1 >= row.len() {
                assert(all[k1] == rest[k1 - row.len()]);
                assert(all[k2] == rest[k2 - row.len()]);
            } else if k2 >= row.len() {
                assert(all[k2] == rest[k2 - row.len()]);
                assert(action_in_range(rest[k2 - row.len()], next, n));
            }
        }
        assert forall|action: ForceAction| action_in_range(action, i, n) implies #[trigger] all.contains(
            action,
        ) by {
            match action {
                ForceAction::Pair { on, from } => {
                    if on == i {
                        assert(all[from - next] == action);
                    } else {
                        assert(rest.contains(action));
                        let k = choose|k: int| 0 <= k < rest.len() && rest[k] == action;
                        assert(all[row.len() + k] == action);
                    }
                },
                ForceAction::Settle { body } => {
                    if body == i {
                        assert(all[n - next] == action);
                    } else {
                        assert(rest.contains(action));
                        let k = choose|k: int| 0 <= k < rest.len() && rest[k] == action;
                        assert(all[row.len() + k] == action);
                    }
                },
            }
        }
    }
}

/// A pass over `n` bodies has `n * (n - 1) / 2` pair actions and `n`
/// settlings, `n * (n + 1) / 2` actions in all.
pub proof fn lemma_force_pass_len(n: usize)
    ensures
        2 * force_pass(n).len() == n * (n + 1),
{
    lemma_actions_from(0, n);
}

/// The pass holds a pair action for `on` and `from` exactly when
/// `on < from < n`, and a settling of `body` exactly when `body < n`.
pub proof fn lemma_force_pass_members(n: usize, action: ForceAction)
    ensures
        force_pass(n).contains(action) <==> action_in_range(action, 0, n),
{
    lemma_actions_from(0, n);
    if force_pass(n).contains(action) {
        let k = choose|k: int| 0 <= k < force_pass(n).len() && force_pass(n)[k] == action;
        assert(action_in_range(force_pass(n)[k], 0, n));
    }
}

/// The actions come in strictly increasing order of their places.
pub proof fn lemma_force_pass_increasing(n: usize, k1: int, k2: int)
    requires
        0 <= k1 < k2 < force_pass(n).len(),
    ensures
        pair_lt(action_key(force_pass(n)[k1], n), action_key(force_pass(n)[k2], n)),
{
    lemma_actions_from(0, n);
}

/// Every action of the pass occurs once.  So the force between two bodies is
/// evaluated once, and what one of them receives is the negation of what the
/// other receives; and the force between them is never evaluated the other
/// way round.
pub proof fn lemma_force_pass_once(n: usize)
    ensures
        force_pass(n).no_duplicates(),
        forall|a: usize, b: usize|
            #[trigger] force_pass(n).contains(ForceAction::Pair { on: a, from: b })
                ==> !force_pass(n).contains(ForceAction::Pair { on: b, from: a }),
{
    lemma_actions_from(0, n);
    let all = force_pass(n);
    assert forall|k1: int, k2: int| 0 <= k1 < all.len() && 0 <= k2 < all.len() && k1 != k2
        implies all[k1] != all[k2] by {
        if k1 < k2 {
            assert(pair_lt(action_key(all[k1], n), action_key(all[k2], n)));
        } else {
            assert(pair_lt(action_key(all[k2], n), action_key(all[k1], n)));
        }
    }
    assert forall|a: usize, b: usize|
        #[trigger] all.contains(ForceAction::Pair { on: a, from: b }) implies !all.contains(
        ForceAction::Pair { on: b, from: a },
    ) by {
        lemma_force_pass_members(n, ForceAction::Pair { on: a, from: b });
        lemma_force_pass_members(n, ForceAction::Pair { on: b, from: a });
    }
}

/// Any two distinct bodies meet in exactly one pair action of the pass, the
/// one that names the smaller index first.
pub proof fn lemma_bodies_meet_once(n: usize, b: usize, c: usize)
    requires
        b < n,
        c < n,
        b != c,
    ensures
        force_pass(n).contains(ForceAction::Pair { on: b, from: c }) <==> b < c,
        force_pass(n).contains(ForceAction::Pair { on: c, from: b }) <==> c < b,
{
    lemma_force_pass_members(n, ForceAction::Pair { on: b, from: c });
    lemma_force_pass_members(n, ForceAction::Pair { on: c, from: b });
}

/// A body is settled only after every pair action that involves it: when its
/// acceleration is computed, its accumulator holds the forces of all other
/// bodies.
pub proof fn lemma_settle_follows_pairs(n: usize, k_pair: int, k_settle: int)
    requires
        0 <= k_pair < force_pass(n).len(),
        0 <= k_settle < force_pass(n).len(),
        force_pass(n)[k_pair] is Pair,
        force_pass(n)[k_settle] is Settle,
        force_pass(n)[k_pair]->on == force_pass(n)[k_settle]->body || force_pass(n)[k_pair]->from
            == force_pass(n)[k_settle]->body,
    ensures
        k_pair < k_settle,
{
    lemma_actions_from(0, n);
    let all = force_pass(n);
    assert(action_in_range(all[k_pair], 0, n));
    assert(action_in_range(all[k_settle], 0, n));
    if k_settle < k_pair {
        assert(pair_lt(action_key(all[k_settle], n), action_key(all[k_pair], n)));
    }
}

/// With at least one body, the pair actions of the pass are the unordered
/// pairs of the indices `0..=n - 1`.
pub proof fn lemma_force_pass_pairs(n: usize, a: usize, b: usize)
    requires
        n >= 1,
    ensures
        force_pass(n).contains(ForceAction::Pair { on: a, from: b }) <==> unique_pairs(
            (n - 1) as usize,
        ).contains((a, b)),
{
    lemma_force_pass_members(n, ForceAction::Pair { on: a, from: b });
    lemma_unique_pairs_members((n - 1) as usize, a, b);
}

/// From body `i` on, the pair at place `k` of the enumeration of pairs stands
/// in the pass behind the settlings of the bodies before its first index.
proof fn lemma_actions_follow_rows(i: usize, n: usize, k: int)
    requires
        n >= 1,
        i <= n - 1,
        0 <= k < rows_from(i, (n - 1) as usize).len(),
    ensures
        i <= rows_from(i, (n - 1) as usize)[k].0 < rows_from(i, (n - 1) as usize)[k].1 < n,
        0 <= k + rows_from(i, (n - 1) as usize)[k].0 - i < actions_from(i, n).len(),
        actions_from(i, n)[k + rows_from(i, (n - 1) as usize)[k].0 - i] == (ForceAction::Pair {
            on: rows_from(i, (n - 1) as usize)[k].0,
            from: rows_from(i, (n - 1) as usize)[k].1,
        }),
    decreases n - i,
{
    let max: usize = (n - 1) as usize;
    let next: usize = (i + 1) as usize;
    let row = row_from(i, next, max);
    let actions = body_actions(i, next, n);
    assert(rows_from(i, max) == row + rows_from(next, max));
    assert(actions_from(i, n) == actions + actions_from(next, n));
    if k < row.len() {
        assert(rows_from(i, max)[k] == row[k]);
        assert(actions_from(i, n)[k] == actions[k]);
    } else {
        let later = k - row.len();
        lemma_actions_follow_rows(next, n, later);
        let pair = rows_from(next, max)[later];
        assert(rows_from(i, max)[k] == pair);
        assert(actions_from(i, n)[actions.len() + (later + pair.0 - next)] == actions_from(
            next,
            n,
        )[later + pair.0 - next]);
    }
}

/// The pass evaluates the forces in the order of the enumeration of pairs:
/// the pair at place `k` of `unique_pairs(n - 1)`, with first index `a`, is the
/// pair action at place `k + a` of the pass, behind the settlings of the `a`
/// bodies before it.
pub proof fn lemma_force_pass_follows_unique_pairs(n: usize, k: int)
    requires
        n >= 1,
        0 <= k < unique_pairs((n - 1) as usize).len(),
    ensures
        0 <= k + unique_pairs((n - 1) as usize)[k].0 < force_pass(n).len(),
        force_pass(n)[k + unique_pairs((n - 1) as usize)[k].0] == (ForceAction::Pair {
            on: unique_pairs((n - 1) as usize)[k].0,
            from: unique_pairs((n - 1) as usize)[k].1,
        }),
{
    lemma_actions_follow_rows(0, n, k);
}

/// A cursor over the actions of one force pass.
pub struct ForcePass {
    i: usize,
    j: usize,
    n: usize,
}

impl View for ForcePass {
    type V = Seq<ForceAction>;

    /// The actions that are still to come, in order.
    closed spec fn view(&self) -> Seq<ForceAction> {
        if self.i >= self.n {
            Seq::empty()
        } else {
            body_actions(self.i, self.j, self.n) + actions_from((self.i + 1) as usize, self.n)
        }
    }
}

impl ForcePass {
    #[verifier::type_invariant]
    spec fn inv(self) -> bool {
        self.i <= self.n && (self.i < self.n ==> self.i < self.j <= self.n)
    }

    /// The number of bodies of the pass.
    pub closed spec fn bodies(self) -> usize {
        self.n
    }

    /// Starts a force pass over the bodies `0..n`.
    pub fn over(n: usize) -> (pass: ForcePass)
        ensures
            pass@ == force_pass(n),
            pass.bodies() == n,
    {
        ForcePass { i: 0, j: 1, n }
    }

    /// Hands out the next action, or `None` once the pass is complete.
    pub fn next(&mut self) -> (action: Option<ForceAction>)
        ensures
            final(self).bodies() == old(self).bodies(),
            handed_out(old(self)@, action, final(self)@),
        no_unwind
    {
        proof {
            use_type_invariant(&*self);
        }
        let i: usize = self.i;
        let j: usize = self.j;
        if i == self.n {
            return None;
        }
        let ghost before = self@;
        assert(before == body_actions(i, j, self.n) + actions_from((i + 1) as usize, self.n));
        if j < self.n {
            self.j = j + 1;
            assert(before[0] == (ForceAction::Pair { on: i, from: j }));
            assert(self@ =~= before.skip(1));
            Some(ForceAction::Pair { on: i, from: j })
        } else {
            let next_i: usize = i + 1;
            let next_j: usize = if next_i < self.n { next_i + 1 } else { next_i };
            self.i = next_i;
            self.j = next_j;
            assert(before[0] == (ForceAction::Settle { body: i }));
            assert(self@ =~= before.skip(1));
            Some(ForceAction::Settle { body: i })
        }
    }
}

} // verus!
