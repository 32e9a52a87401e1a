//! Local search by reversing segments: every pair of edges is tried in turn
//! and each reversal that shortens the tour by more than a threshold is made
//! at once, until a whole sweep finds none.

use vstd::prelude::*;
use crate::distance::DistanceTable;
use crate::solver::Solver;
use crate::tour::{reversal_delta, reversed_range};

verus! {

/// A reversal is made only where it shortens the tour by more than this: a
/// hundredth of a coordinate unit.
pub const IMPROVEMENT_EPSILON: u64 = 10;

/// No reversal of `path` shortens it by more than `IMPROVEMENT_EPSILON`.
pub open spec fn is_two_opt_optimal(table: DistanceTable, path: Seq<usize>) -> bool {
    forall|i: int, j: int|
        1 <= i < j <= table.size() ==> #[trigger] reversal_delta(table, path, i, j)
            >= -IMPROVEMENT_EPSILON
}

/// The tour after the pair of positions `i < j` was tried: `path` with
/// `i..j` reversed where that shortens it by more than
/// `IMPROVEMENT_EPSILON`, else `path`.
pub open spec fn two_opt_choice(table: DistanceTable, path: Seq<usize>, i: int, j: int) -> Seq<
    usize,
> {
    if reversal_delta(table, path, i, j) < -IMPROVEMENT_EPSILON {
        reversed_range(path, i, j)
    } else {
        path
    }
}

/// The tour after the pairs `(i, j)`, `(i, j + 1)`, and so on to the end of
/// the tour were tried in turn.
pub open spec fn two_opt_row_from(table: DistanceTable, path: Seq<usize>, i: int, j: int) -> Seq<
    usize,
>
    decreases table.size() + 1 - j,
{
    if j > table.size() {
        path
    } else {
        two_opt_row_from(table, two_opt_choice(table, path, i, j), i, j + 1)
    }
}

/// The tour after the rows `i`, `i + 1`, and so on were tried in turn.
pub open spec fn two_opt_sweep_from(table: DistanceTable, path: Seq<usize>, i: int) -> Seq<usize>
    decreases table.size() - i,
{
    if i >= table.size() {
        path
    } else {
        two_opt_sweep_from(table, two_opt_row_from(table, path, i, i + 1), i + 1)
    }
}

/// The tour after `count` whole sweeps.
pub open spec fn two_opt_sweeps(table: DistanceTable, path: Seq<usize>, count: nat) -> Seq<usize>
    decreases count,
{
    if count == 0 {
        path
    } else {
        two_opt_sweep_from(table, two_opt_sweeps(table, path, (count - 1) as nat), 1)
    }
}

impl Solver {
    /// Tries the pairs of positions `(i, j)` for every `j` after `i`, in
    /// ascending order. Each reversal of `i..j` that shortens the tour by
    /// more than `IMPROVEMENT_EPSILON` is made as soon as it is found. Says
    /// whether any was made.
    pub fn two_opt_row(&mut self, i: usize) -> (improved: bool)
        requires
            old(self).has_tour(),
            1 <= i < old(self).size(),
        ensures
            final(self).has_tour(),
            final(self).same_instance(old(self)),
            final(self).tour() == two_opt_row_from(
                old(self).table(),
                old(self).tour(),
                i as int,
                i + 1,
            ),
            improved ==> final(self).total() < old(self).total(),
            improved ==> !is_two_opt_optimal(old(self).table(), old(self).tour()),
            !improved ==> final(self).tour() == old(self).tour() && final(self).total() == old(
                self).total(),
            !improved ==> forall|b: int|
                i < b <= old(self).size() ==> #[trigger] reversal_delta(
                    final(self).table(),
                    final(self).tour(),
                    i as int,
                    b,
                ) >= -IMPROVEMENT_EPSILON,
    {
        let n: usize = self.len();
        let mut improved: bool = false;
        let mut j: usize = i + 1;
        while j <= n
            invariant
                self.has_tour(),
                self.same_instance(old(self)),
                n == self.size(),
                1 <= i < n,
                i < j <= n + 1,
                two_opt_row_from(self.table(), self.tour(), i as int, j as int) == two_opt_row_from(
                    old(self).table(),
                    old(self).tour(),
                    i as int,
                    i + 1,
                ),
                improved ==> self.total() < old(self).total(),
                improved ==> !is_two_opt_optimal(old(self).table(), old(self).tour()),
                !improved ==> self.tour() == old(self).tour() && self.total() == old(self).total(),
                !improved ==> forall|b: int|
                    i < b < j ==> #[trigger] reversal_delta(self.table(), self.tour(), i as int, b)
                        >= -IMPROVEMENT_EPSILON,
            decreases n + 1 - j,
        {
            let change: i64 = self.reversal_change(i, j);
            if change < -10 {
                assert(!improved ==> reversal_delta(
                    old(self).table(),
                    old(self).tour(),
                    i as int,
                    j as int,
                ) < -IMPROVEMENT_EPSILON);
                self.reverse_segment(i, j);
                improved = true;
            }
            j += 1;
        }
        improved
    }

    /// One sweep over all rows, in ascending order. Says whether any
    /// reversal was made.
    pub fn two_opt_sweep(&mut self) -> (improved: bool)
        requires
            old(self).has_tour(),
        ensures
            final(self).has_tour(),
            final(self).same_instance(old(self)),
            final(self).tour() == two_opt_sweep_from(old(self).table(), old(self).tour(), 1),
            improved ==> final(self).total() < old(self).total(),
            improved ==> !is_two_opt_optimal(old(self).table(), old(self).tour()),
            !improved ==> final(self).tour() == old(self).tour() && final(self).total() == old(
                self).total(),
            !improved ==> is_two_opt_optimal(final(self).table(), final(self).tour()),
    {
        let n: usize = self.len();
        let mut improved: bool = false;
        let mut i: usize = 1;
        while i < n
            invariant
                self.has_tour(),
                self.same_instance(old(self)),
                n == self.size(),
                1 <= i,
                i <= n || n == 0,
                two_opt_sweep_from(self.table(), self.tour(), i as int) == two_opt_sweep_from(
                    old(self).table(),
                    old(self).tour(),
                    1,
                ),
                improved ==> self.total() < old(self).total(),
                improved ==> !is_two_opt_optimal(old(self).table(), old(self).tour()),
                !improved ==> self.tour() == old(self).tour() && self.total() == old(self).total(),
                !improved ==> forall|a: int, b: int|
                    1 <= a < i && a < b <= n ==> #[trigger] reversal_delta(
                        self.table(),
                        self.tour(),
                        a,
                        b,
                    ) >= -IMPROVEMENT_EPSILON,
            decreases n - i,
        {
            let ghost before = self.tour();
            let ghost started = improved;
            let row_improved: bool = self.two_opt_row(i);
            if row_improved {
                assert(!started ==> !is_two_opt_optimal(old(self).table(), before));
                improved = true;
            }
            i += 1;
        }
        improved
    }

    /// Sweeps until a whole sweep makes no reversal. The tour is then one
    /// that no reversal shortens by more than `IMPROVEMENT_EPSILON`, and it
    /// is no longer than before.
    pub fn run_two_opt(&mut self)
        requires
            old(self).has_tour(),
        ensures
            final(self).has_tour(),
            final(self).same_instance(old(self)),
            final(self).total() <= old(self).total(),
            is_two_opt_optimal(final(self).table(), final(self).tour()),
            exists|count: nat|
                final(self).tour() == #[trigger] two_opt_sweeps(
                    old(self).table(),
                    old(self).tour(),
                    count,
                ),
            is_two_opt_optimal(old(self).table(), old(self).tour()) ==> final(self).tour() == old(
                self).tour(),
    {
        let mut improved: bool = true;
        let mut first: bool = true;
        let ghost count: nat = 0;
        while improved
            invariant
                self.has_tour(),
                self.same_instance(old(self)),
                self.total() <= old(self).total(),
                self.tour() == two_opt_sweeps(old(self).table(), old(self).tour(), count),
                first ==> improved && self.tour() == old(self).tour(),
                !improved ==> is_two_opt_optimal(self.table(), self.tour()),
                !first && is_two_opt_optimal(old(self).table(), old(self).tour()) ==> !improved
                    && self.tour() == old(self).tour(),
            decreases
                    self.total() + if improved {
                        1int
                    } else {
                        0int
                    },
        {
            improved = self.two_opt_sweep();
            first = false;
            proof {
                count = count + 1;
                self.lemma_length_bounds(self.tour());
            }
        }
    }
}

} // verus!
