//! Local search by reconnecting three segments: one pass over all triples of
//! cut positions, making for each the first of four moves that shortens the
//! tour.

use vstd::prelude::*;
use crate::distance::DistanceTable;
use crate::solver::Solver;
use crate::tour::{exchange_delta, exchanged_blocks, reversal_delta, reversed_range};

verus! {

/// The tour after the move made at the cuts `i < j < k`: the first of
/// reversing `i..j`, reversing `j..k`, reversing `i..k` and exchanging the
/// blocks `i..j` and `j..k` that makes `path` strictly shorter, or `path`
/// itself where none does.
pub open spec fn three_opt_choice(
    table: DistanceTable,
    path: Seq<usize>,
    i: int,
    j: int,
    k: int,
) -> Seq<usize> {
    if reversal_delta(table, path, i, j) < 0 {
        reversed_range(path, i, j)
    } else if reversal_delta(table, path, j, k) < 0 {
        reversed_range(path, j, k)
    } else if reversal_delta(table, path, i, k) < 0 {
        reversed_range(path, i, k)
    } else if exchange_delta(table, path, i, j, k) < 0 {
        exchanged_blocks(path, i, j, k)
    } else {
        path
    }
}

/// The tour after the rest of the row of first cut `i` that has come to the
/// cuts `j` and `k`. In a row the second cut runs from `i + 2` to `n - 2`
/// and, for each, the third from two after it to `n - 1`.
pub open spec fn three_opt_row_from(
    table: DistanceTable,
    path: Seq<usize>,
    i: int,
    j: int,
    k: int,
) -> Seq<usize>
    decreases table.size() - j, table.size() - k,
{
    let n = table.size() as int;
    if j >= n - 1 {
        path
    } else if k >= n {
        three_opt_row_from(table, path, i, j + 1, j + 3)
    } else {
        three_opt_row_from(table, three_opt_choice(table, path, i, j, k), i, j, k + 1)
    }
}

/// The tour after the rows of first cut `i`, `i + 1`, and so on to `n - 4`.
pub open spec fn three_opt_from(table: DistanceTable, path: Seq<usize>, i: int) -> Seq<usize>
    decreases table.size() - i,
{
    if i >= table.size() - 3 {
        path
    } else {
        three_opt_from(table, three_opt_row_from(table, path, i, i + 2, i + 4), i + 1)
    }
}

/// The tour after one pass over all triples of cuts.
pub open spec fn three_opt_pass(table: DistanceTable, path: Seq<usize>) -> Seq<usize> {
    three_opt_from(table, path, 1)
}

/// The tour after `count` passes.
pub open spec fn three_opt_passes(table: DistanceTable, path: Seq<usize>, count: nat) -> Seq<usize>
    decreases count,
{
    if count == 0 {
        path
    } else {
        three_opt_pass(table, three_opt_passes(table, path, (count - 1) as nat))
    }
}

impl Solver {
    /// Makes the move of `three_opt_choice` at the cuts `i < j < k`, and says
    /// whether there was one to make.
    pub fn three_opt_move(&mut self, i: usize, j: usize, k: usize) -> (moved: bool)
        requires
            old(self).has_tour(),
            1 <= i < j < k <= old(self).size(),
        ensures
            final(self).has_tour(),
            final(self).same_instance(old(self)),
            final(self).tour() == three_opt_choice(
                old(self).table(),
                old(self).tour(),
                i as int,
                j as int,
                k as int,
            ),
            moved ==> final(self).total() < old(self).total(),
            !moved ==> final(self).scored() == old(self).scored(),
    {
        if self.reversal_change(i, j) < 0 {
            self.reverse_segment(i, j);
            true
        } else if self.reversal_change(j, k) < 0 {
            self.reverse_segment(j, k);
            true
        } else if self.reversal_change(i, k) < 0 {
            self.reverse_segment(i, k);
            true
        } else if self.exchange_change(i, j, k) < 0 {
            self.exchange_segments(i, j, k);
            true
        } else {
            false
        }
    }

    /// The row of first cut `i`: every pair of later cuts in turn, each
    /// followed at once by its move. Says whether any move was made.
    pub fn three_opt_row(&mut self, i: usize) -> (improved: bool)
        requires
            old(self).has_tour(),
            1 <= i,
            i + 3 < old(self).size(),
        ensures
            final(self).has_tour(),
            final(self).same_instance(old(self)),
            final(self).tour() == three_opt_row_from(
                old(self).table(),
                old(self).tour(),
                i as int,
                i + 2,
                i + 4,
            ),
            improved ==> final(self).total() < old(self).total(),
            !improved ==> final(self).scored() == old(self).scored(),
    {
        let n: usize = self.len();
        let mut improved: bool = false;
        let mut j: usize = i + 2;
        while j < n - 1
            invariant
                self.has_tour(),
                self.same_instance(old(self)),
                n == self.size(),
                1 <= i,
                i + 3 < n,
                i + 2 <= j <= n - 1,
                improved ==> self.total() < old(self).total(),
                !improved ==> self.scored() == old(self).scored(),
                three_opt_row_from(self.table(), self.tour(), i as int, j as int, j + 2)
                    == three_opt_row_from(
                    old(self).table(),
                    old(self).tour(),
                    i as int,
                    i + 2,
                    i + 4,
                ),
            decreases n - j,
        {
            let mut k: usize = j + 2;
            while k < n
                invariant
                    self.has_tour(),
                    self.same_instance(old(self)),
                    n == self.size(),
                    1 <= i,
                    i + 3 < n,
                    i + 2 <= j < n - 1,
                    j + 2 <= k <= n + 1,
                    improved ==> self.total() < old(self).total(),
                    !improved ==> self.scored() == old(self).scored(),
                    three_opt_row_from(self.table(), self.tour(), i as int, j as int, k as int)
                        == three_opt_row_from(
                        old(self).table(),
                        old(self).tour(),
                        i as int,
                        i + 2,
                        i + 4,
                    ),
                decreases n + 1 - k,
            {
                if self.three_opt_move(i, j, k) {
                    improved = true;
                }
                k += 1;
            }
            j += 1;
        }
        improved
    }

    /// One pass over all rows, in ascending order of the first cut. Says
    /// whether any move was made. An instance of fewer than six points has
    /// no triple of cuts.
    pub fn three_opt_sweep(&mut self) -> (improved: bool)
        requires
            old(self).has_tour(),
        ensures
            final(self).has_tour(),
            final(self).same_instance(old(self)),
            final(self).tour() == three_opt_pass(old(self).table(), old(self).tour()),
            improved ==> final(self).total() < old(self).total(),
            !improved ==> final(self).scored() == old(self).scored(),
    {
        let n: usize = self.len();
        let mut improved: bool = false;
        if n < 4 {
            return improved;
        }
        let mut i: usize = 1;
        while i < n - 3
            invariant
                self.has_tour(),
                self.same_instance(old(self)),
                n == self.size(),
                n >= 4,
                1 <= i <= n - 3,
                improved ==> self.total() < old(self).total(),
                !improved ==> self.scored() == old(self).scored(),
                three_opt_from(self.table(), self.tour(), i as int) == three_opt_pass(
                    old(self).table(),
                    old(self).tour(),
                ),
            decreases n - i,
        {
            if self.three_opt_row(i) {
                improved = true;
            }
            i += 1;
        }
        improved
    }

    /// One pass over all triples of cuts, each followed at once by its move.
    /// The pass is not repeated: a move may open the way for another at a
    /// triple that the pass has left behind.
    pub fn run_three_opt(&mut self)
        requires
            old(self).has_tour(),
        ensures
            final(self).has_tour(),
            final(self).same_instance(old(self)),
            final(self).tour() == three_opt_pass(old(self).table(), old(self).tour()),
            final(self).total() <= old(self).total(),
    {
        self.three_opt_sweep();
    }

    /// Passes until a whole pass makes no move. The tour is then one that a
    /// further pass leaves as it is, and it is no longer than before.
    pub fn run_three_opt_to_optimum(&mut self)
        requires
            old(self).has_tour(),
        ensures
            final(self).has_tour(),
            final(self).same_instance(old(self)),
            final(self).total() <= old(self).total(),
            three_opt_pass(final(self).table(), final(self).tour()) == final(self).tour(),
            exists|count: nat|
                final(self).tour() == #[trigger] three_opt_passes(
                    old(self).table(),
                    old(self).tour(),
                    count,
                ),
    {
        let mut improved: bool = true;
        let ghost count: nat = 0;
        while improved
            invariant
                self.has_tour(),
                self.same_instance(old(self)),
                self.total() <= old(self).total(),
                self.tour() == three_opt_passes(old(self).table(), old(self).tour(), count),
                !improved ==> three_opt_pass(self.table(), self.tour()) == self.tour(),
            decreases
                    self.total() + if improved {
                        1int
                    } else {
                        0int
                    },
        {
            improved = self.three_opt_sweep();
            proof {
                count = count + 1;
                self.lemma_length_bounds(self.tour());
            }
        }
    }
}

} // verus!
