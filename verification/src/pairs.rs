//! Enumeration of the unordered pairs of indices `0..=max`.
//!
//! Every pair `(i, j)` with `i < j <= max` is produced exactly once, in
//! lexicographic order: `(0, 1), (0, 2), ..., (0, max), (1, 2), ...`.  A force
//! that acts between two bodies is therefore evaluated once per pair, and the
//! order of summation is fixed.

use vstd::prelude::*;
use crate::cursor::handed_out;

verus! {

/// The pairs `(i, j), (i, j + 1), ..., (i, max)`; empty once `j` exceeds `max`.
pub open spec fn row_from(i: usize, j: usize, max: usize) -> Seq<(usize, usize)> {
    if j > max {
        Seq::empty()
    } else {
        Seq::new((max - j + 1) as nat, |k: int| (i, (j + k) as usize))
    }
}

/// All pairs `(a, b)` with `i <= a < b <= max`, row after row.
pub open spec fn rows_from(i: usize, max: usize) -> Seq<(usize, usize)>
    decreases max - i,
{
    if i >= max {
        Seq::empty()
    } else {
        row_from(i, (i + 1) as usize, max) + rows_from((i + 1) as usize, max)
    }
}

/// All pairs `(a, b)` with `a < b <= max`, in lexicographic order.
pub open spec fn unique_pairs(max: usize) -> Seq<(usize, usize)> {
    rows_from(0, max)
}

/// Strict lexicographic order on index pairs.
pub open spec fn pair_lt(p: (usize, usize), q: (usize, usize)) -> bool {
    p.0 < q.0 || (p.0 == q.0 && p.1 < q.1)
}

/// What holds of the rows from `i` on: their total length, the range of
/// every entry, their order, and that no pair of the range is missing.
proof fn lemma_rows_from(i: usize, max: usize)
    requires
        i <= max,
    ensures
        2 * rows_from(i, max).len() == (max - i) * (max - i + 1),
        forall|k: int|
            0 <= k < rows_from(i, max).len() ==> i <= (#[trigger] rows_from(i, max)[k]).0
                < rows_from(i, max)[k].1 <= max,
        forall|k1: int, k2: int|
            0 <= k1 < k2 < rows_from(i, max).len() ==> pair_lt(
                #[trigger] rows_from(i, max)[k1],
                #[trigger] rows_from(i, max)[k2],
            ),
        forall|a: usize, b: usize|
            i <= a < b <= max ==> #[trigger] rows_from(i, max).contains((a, b)),
    decreases max - i,
{
    let all = rows_from(i, max);
    if i < max {
        let next: usize = (i + 1) as usize;
        let row = row_from(i, next, max);
        let rest = rows_from(next, max);
        lemma_rows_from(next, max);
        assert(all == row + rest);
        assert(row.len() == max - i);
        assert(2 * all.len() == (max - i) * (max - i + 1)) by (nonlinear_arith)
            requires
                all.len() == (max - i) + rest.len(),
                2 * rest.len() == (max - next) * (max - next + 1),
                next == i + 1,
        ;
        assert forall|k: int| 0 <= k < all.len() implies i <= (#[trigger] all[k]).0 < all[k].1
            <= max by {
            if k >= row.len() {
                assert(all[k] == rest[k - row.len()]);
            }
        }
        assert forall|k1: int, k2: int| 0 <= k1 < k2 < all.len() implies pair_lt(
            #[trigger] all[k1],
            #[trigger] all[k2],
        ) by {
            if k1 >= row.len() {
                assert(all[k1] == rest[k1 - row.len()]);
                assert(all[k2] == rest[k2 - row.len()]);
            } else if k2 >= row.len() {
                assert(all[k2] == rest[k2 - row.len()]);
            }
        }
        assert forall|a: usize, b: usize| i <= a < b <= max implies #[trigger] all.contains(
            (a, b),
        ) by {
            if a == i {
                assert(all[b - next] == (a, b));
            } else {
                assert(rest.contains((a, b)));
                let k = choose|k: int| 0 <= k < rest.len() && rest[k] == (a, b);
                assert(all[row.len() + k] == (a, b));
            }
        }
    }
}

/// There are `max * (max + 1) / 2` unordered pairs of the indices `0..=max`.
pub proof fn lemma_unique_pairs_len(max: usize)
    ensures
        2 * unique_pairs(max).len() == max * (max + 1),
{
    lemma_rows_from(0, max);
}

/// The enumeration holds exactly the pairs `(a, b)` with `a < b <= max`: no
/// pair of distinct indices is left out, and no index is paired with itself
/// or with a smaller one.
pub proof fn lemma_unique_pairs_members(max: usize, a: usize, b: usize)
    ensures
        unique_pairs(max).contains((a, b)) <==> a < b <= max,
{
    lemma_rows_from(0, max);
    if unique_pairs(max).contains((a, b)) {
        let k = choose|k: int| 0 <= k < unique_pairs(max).len() && unique_pairs(max)[k] == (a, b);
        assert(unique_pairs(max)[k].0 < unique_pairs(max)[k].1 <= max);
    }
}

/// The enumeration is strictly increasing in lexicographic order.
pub proof fn lemma_unique_pairs_increasing(max: usize, k1: int, k2: int)
    requires
        0 <= k1 < k2 < unique_pairs(max).len(),
    ensures
        pair_lt(unique_pairs(max)[k1], unique_pairs(max)[k2]),
{
    lemma_rows_from(0, max);
}

/// No pair is enumerated twice, and of two distinct indices only the pair
/// with the smaller index first is enumerated: each unordered pair is visited
/// exactly once.
pub proof fn lemma_unique_pairs_once(max: usize)
    ensures
        unique_pairs(max).no_duplicates(),
        forall|a: usize, b: usize|
            #[trigger] unique_pairs(max).contains((a, b)) ==> !unique_pairs(max).contains((b, a)),
{
    lemma_rows_from(0, max);
    let all = unique_pairs(max);
    assert forall|k1: int, k2: int| 0 <= k1 < all.len() && 0 <= k2 < all.len() && k1 != k2
        implies all[k1] != all[k2] by {
        if k1 < k2 {
            assert(pair_lt(all[k1], all[k2]));
        } else {
            assert(pair_lt(all[k2], all[k1]));
        }
    }
    assert forall|a: usize, b: usize| #[trigger] all.contains((a, b)) implies !all.contains(
        (b, a),
    ) by {
        lemma_unique_pairs_members(max, a, b);
        lemma_unique_pairs_members(max, b, a);
    }
}

/// A cursor over the unordered index pairs up to an inclusive bound.
pub struct UniqueIndexPairs {
    i: usize,
    j: usize,
    max: usize,
}

impl View for UniqueIndexPairs {
    type V = Seq<(usize, usize)>;

    /// The pairs that have not been handed out yet, in the order in which
    /// they will come.
    closed spec fn view(&self) -> Seq<(usize, usize)> {
        if self.i >= self.max {
            Seq::empty()
        } else {
            row_from(self.i, self.j, self.max) + rows_from((self.i + 1) as usize, self.max)
        }
    }
}

impl UniqueIndexPairs {
    #[verifier::type_invariant]
    spec fn inv(self) -> bool {
        self.i <= self.max && (self.i < self.max ==> self.i < self.j <= self.max)
    }

    /// The inclusive bound on the indices.
    pub closed spec fn bound(self) -> usize {
        self.max
    }

    /// Starts the enumeration of all pairs `(i, j)` with `i < j <= max`.
    pub fn up_to(max: usize) -> (pairs: UniqueIndexPairs)
        ensures
            pairs@ == unique_pairs(max),
            pairs.bound() == max,
    {
        UniqueIndexPairs { i: 0, j: 1, max }
    }

    /// Hands out the next pair, or `None` once all pairs have been handed out.
    pub fn next(&mut self) -> (pair: Option<(usize, usize)>)
        ensures
            final(self).bound() == old(self).bound(),
            handed_out(old(self)@, pair, final(self)@),
    {
        proof {
            use_type_invariant(&*self);
        }
        let i: usize = self.i;
        let j: usize = self.j;
        if i == self.max {
            return None;
        }
        let ghost before = self@;
        let ghost rest = rows_from((i + 1) as usize, self.max);
        assert(before == row_from(i, j, self.max) + rest);
        assert(before[0] == (i, j));
        if j == self.max {
            let next_i: usize = i + 1;
            let next_j: usize = if next_i < self.max { next_i + 1 } else { next_i };
            self.i = next_i;
            self.j = next_j;
            assert(self@ =~= before.skip(1));
        } else {
            self.j = j + 1;
            assert(self@ =~= before.skip(1));
        }
        Some((i, j))
    }
}

} // verus!
