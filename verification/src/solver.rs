//! The solver: an instance, its distance table, and the tour that the search
//! phases improve in place.

use vstd::prelude::*;
use crate::distance::{DistanceTable, DISTANCE_LIMIT, MAX_NODES};
use crate::greedy::{
    is_greedy_tour, is_nearest_choice, lemma_choice_stable, lemma_open_count_mark,
    lemma_open_point, open_count, visited_before,
};
use crate::tour::{
    exchange_blocks, exchange_delta, exchanged_blocks, is_tour, lemma_exchange, lemma_reversal,
    lemma_span_bounds, reversal_delta, reverse_range, reversed_range, span_length, tour_length,
};

verus! {

/// The longest path whose edges `Solver::get_distance` sums: the sum of
/// more edges might not fit the score.
pub const LONGEST_PATH: usize = 0x20_0000;

/// Why a solver could not be made.
#[derive(Debug, PartialEq, Eq, Structural, Clone, Copy)]
pub enum SolverError {
    /// The instance holds more than `MAX_NODES` points.
    CapacityExceeded,
}

/// A travelling salesman instance together with the current tour and its
/// length.
pub struct Solver {
    n: usize,
    nodes: [[i32; 2]; MAX_NODES],
    path: Vec<usize>,
    distance: DistanceTable,
    score: u64,
}

impl Solver {
    /// The number of points.
    pub closed spec fn size(&self) -> nat {
        self.n as nat
    }

    /// The coordinates that the solver was given.
    pub closed spec fn points(&self) -> Seq<[i32; 2]> {
        self.nodes@
    }

    /// The distances between the points.
    pub closed spec fn table(&self) -> DistanceTable {
        self.distance
    }

    /// The current tour.
    pub closed spec fn tour(&self) -> Seq<usize> {
        self.path@
    }

    /// The recorded length of the current tour.
    pub closed spec fn total(&self) -> int {
        self.score as int
    }

    /// The current tour with its recorded length.
    pub open spec fn scored(&self) -> (Seq<usize>, int) {
        (self.tour(), self.total())
    }

    /// The instance is within capacity and the table measures its points.
    pub open spec fn wf(&self) -> bool {
        &&& 1 <= self.size() <= MAX_NODES
        &&& self.table().wf()
        &&& self.table().size() == self.size()
        &&& self.table().measures(self.points())
        &&& self.tour().len() == self.size() + 1
    }

    /// The path is a closed tour and the recorded length is its true length.
    pub open spec fn has_tour(&self) -> bool {
        &&& self.wf()
        &&& is_tour(self.tour(), self.size())
        &&& self.total() == tour_length(self.table(), self.tour())
    }

    /// `other` works on the same instance as `self`.
    pub open spec fn same_instance(&self, other: &Solver) -> bool {
        &&& self.size() == other.size()
        &&& self.points() == other.points()
        &&& self.table() == other.table()
    }

    /// A solver for the first `n` points of `nodes`, with its distance table
    /// built and no tour yet: the path holds the start point throughout.
    pub fn new(nodes: [[i32; 2]; MAX_NODES], n: usize) -> (made: Result<Solver, SolverError>)
        requires
            n >= 1,
        ensures
            n > MAX_NODES <==> made == Err::<Solver, SolverError>(SolverError::CapacityExceeded),
            n <= MAX_NODES <==> made is Ok,
            made matches Ok(solver) ==> {
                &&& solver.wf()
                &&& solver.size() == n
                &&& solver.points() == nodes@
                &&& solver.tour() == Seq::new((n + 1) as nat, |x: int| 0usize)
                &&& solver.total() == 0
            },
    {
        if n > MAX_NODES {
            return Err(SolverError::CapacityExceeded);
        }
        let distance = DistanceTable::build(&nodes, n);
        let mut path: Vec<usize> = Vec::new();
        let mut x: usize = 0;
        while x <= n
            invariant
                x <= n + 1,
                n <= MAX_NODES,
                path@.len() == x,
                forall|t: int| 0 <= t < x ==> path@[t] == 0,
            decreases n + 1 - x,
        {
            path.push(0);
            x += 1;
        }
        assert(path@ =~= Seq::new((n + 1) as nat, |x: int| 0usize));
        Ok(Solver { n, nodes, path, distance, score: 0 })
    }

    /// The number of points.
    pub fn len(&self) -> (n: usize)
        ensures
            n == self.size(),
    {
        self.n
    }

    /// The current tour: the start point, the other points in the order of
    /// the visit, and the start point again.
    pub fn path(&self) -> (path: &Vec<usize>)
        ensures
            path@ == self.tour(),
    {
        &self.path
    }

    /// The recorded length of the current tour, in distance units.
    pub fn score(&self) -> (score: u64)
        ensures
            score == self.total(),
    {
        self.score
    }

    /// The distance from point `i` to point `j`, in distance units.
    pub fn distance(&self, i: usize, j: usize) -> (d: u64)
        requires
            self.wf(),
            i < self.size(),
            j < self.size(),
        ensures
            d == self.table().at(i as int, j as int),
    {
        self.distance.get(i, j)
    }

    /// The summed length of the edges of `path`.
    pub fn get_distance(&self, path: &Vec<usize>) -> (total: u64)
        requires
            self.wf(),
            path@.len() <= LONGEST_PATH,
            forall|x: int| 0 <= x < path@.len() ==> #[trigger] path@[x] < self.size(),
        ensures
            total == tour_length(self.table(), path@),
    {
        if path.len() == 0 {
            return 0;
        }
        let mut total: u64 = 0;
        let mut x: usize = 1;
        while x < path.len()
            invariant
                self.wf(),
                1 <= x,
                path@.len() <= LONGEST_PATH,
                x <= path@.len(),
                forall|t: int| 0 <= t < path@.len() ==> #[trigger] path@[t] < self.size(),
                total == span_length(self.table(), path@, 0, x - 1),
                total <= (x - 1) * DISTANCE_LIMIT,
            decreases path@.len() - x,
        {
            let d: u64 = self.distance.get(path[x - 1], path[x]);
            assert(x * DISTANCE_LIMIT == (x - 1) * DISTANCE_LIMIT + DISTANCE_LIMIT)
                by (nonlinear_arith);
            assert(x * DISTANCE_LIMIT <= 0x20_0000 * DISTANCE_LIMIT) by (nonlinear_arith)
                requires
                    x <= 0x20_0000,
            ;
            total = total + d;
            x += 1;
        }
        total
    }

    /// Builds the first tour: from the start point, always on to the nearest
    /// point not yet visited, the lowest index among equals, and back to the
    /// start at the end.
    pub fn set_initial_path(&mut self)
        requires
            old(self).wf(),
        ensures
            final(self).has_tour(),
            final(self).same_instance(old(self)),
            is_greedy_tour(final(self).table(), final(self).tour()),
    {
        let n: usize = self.n;
        let mut visited: Vec<bool> = Vec::new();
        let mut x: usize = 0;
        while x < n
            invariant
                x <= n,
                visited@.len() == x,
                forall|t: int| 0 <= t < x ==> !visited@[t],
                open_count(visited@) == x,
            decreases n - x,
        {
            assert(visited@.push(false).drop_last() =~= visited@);
            visited.push(false);
            x += 1;
        }
        proof {
            lemma_open_count_mark(visited@, 0);
        }
        visited.set(0, true);
        let mut path: Vec<usize> = Vec::new();
        path.push(0);
        let mut current: usize = 0;
        let mut i: usize = 1;
        assert forall|j: int| 0 <= j < n implies (visited@[j] <==> visited_before(path@, 1, j)) by {
            if j == 0 {
                assert(path@[0] == j);
            }
        }
        while i < n
            invariant
                self.wf(),
                self.n == n,
                1 <= i <= n,
                path@.len() == i,
                path@[0] == 0,
                current == path@[i - 1],
                visited@.len() == n,
                open_count(visited@) == n - i,
                forall|j: int| 0 <= j < n ==> (visited@[j] <==> visited_before(path@, i as int, j)),
                forall|t: int| 0 <= t < i ==> #[trigger] path@[t] < n,
                forall|s: int, t: int| 0 <= s < t < i ==> path@[s] != path@[t],
                forall|t: int| 1 <= t < i ==> #[trigger] is_nearest_choice(self.distance, path@, t),
            decreases n - i,
        {
            let mut found: bool = false;
            let mut closest_node: usize = 0;
            let mut closest_distance: u64 = 0;
            let mut j: usize = 0;
            while j < n
                invariant
                    self.wf(),
                    self.n == n,
                    j <= n,
                    current < n,
                    visited@.len() == n,
                    found ==> closest_node < j && !visited@[closest_node as int]
                        && closest_distance == self.distance.at(
                        current as int,
                        closest_node as int,
                    ),
                    found ==> forall|c: int|
                        0 <= c < j && !visited@[c] ==> {
                            &&& closest_distance <= #[trigger] self.distance.at(current as int, c)
                            &&& self.distance.at(current as int, c) == closest_distance
                                ==> closest_node <= c
                        },
                    !found ==> forall|c: int| 0 <= c < j ==> visited@[c],
                decreases n - j,
            {
                if !visited[j] {
                    let d: u64 = self.distance.get(current, j);
                    if !found || d < closest_distance {
                        found = true;
                        closest_node = j;
                        closest_distance = d;
                    }
                }
                j += 1;
            }
            proof {
                let open = lemma_open_point(visited@);
                assert(found);
                lemma_open_count_mark(visited@, closest_node as int);
            }
            let ghost before = path@;
            let ghost seen = visited@;
            visited.set(closest_node, true);
            path.push(closest_node);
            proof {
                let next = (i + 1) as int;
                assert forall|t: int| 1 <= t < next implies #[trigger] is_nearest_choice(
                    self.distance,
                    path@,
                    t,
                ) by {
                    if t < i {
                        lemma_choice_stable(self.distance, before, path@, t);
                    } else {
                        assert forall|c: int| visited_before(path@, i as int, c) implies visited_before(
                            before,
                            i as int,
                            c,
                        ) by {
                            let w = choose|w: int| 0 <= w < i && #[trigger] path@[w] == c;
                            assert(before[w] == c);
                        }
                        assert forall|c: int|
                            0 <= c < n && !visited_before(path@, i as int, c) implies {
                            &&& closest_distance <= #[trigger] self.distance.at(current as int, c)
                            &&& self.distance.at(current as int, c) == closest_distance
                                ==> closest_node <= c
                        } by {
                            if visited_before(before, i as int, c) {
                                let w = choose|w: int| 0 <= w < i && #[trigger] before[w] == c;
                                assert(path@[w] == c);
                            }
                            assert(!seen[c]);
                        }
                    }
                }
                assert forall|c: int| 0 <= c < n implies (visited@[c] <==> visited_before(
                    path@,
                    next,
                    c,
                )) by {
                    if visited@[c] {
                        if c == closest_node {
                            assert(path@[i as int] == c);
                        } else {
                            assert(seen[c]);
                            let w = choose|w: int| 0 <= w < i && #[trigger] before[w] == c;
                            assert(path@[w] == c);
                        }
                    }
                    if visited_before(path@, next, c) {
                        let w = choose|w: int| 0 <= w < next && #[trigger] path@[w] == c;
                        if w < i {
                            assert(before[w] == c);
                            assert(visited_before(before, i as int, c));
                        }
                    }
                }
                assert forall|s: int, t: int| 0 <= s < t < next implies path@[s] != path@[t] by {
                    if t == i {
                        if path@[s] == closest_node {
                            assert(before[s] == closest_node as int);
                            assert(visited_before(before, i as int, closest_node as int));
                        }
                    } else {
                        assert(before[s] != before[t]);
                    }
                }
            }
            current = closest_node;
            i += 1;
        }
        let ghost before = path@;
        path.push(0);
        proof {
            assert forall|t: int| 1 <= t < n implies #[trigger] is_nearest_choice(
                self.distance,
                path@,
                t,
            ) by {
                lemma_choice_stable(self.distance, before, path@, t);
            }
            assert forall|s: int, t: int| 0 <= s < t < n implies path@[s] != path@[t] by {
                assert(before[s] != before[t]);
            }
            assert forall|t: int| 0 <= t < n implies #[trigger] path@[t] < n by {
                assert(before[t] < n);
            }
        }
        let total: u64 = self.get_distance(&path);
        self.path = path;
        self.score = total;
    }

    /// What reversing positions `lo..hi` of the tour would add to its length.
    pub fn reversal_change(&self, lo: usize, hi: usize) -> (change: i64)
        requires
            self.has_tour(),
            1 <= lo < hi <= self.size(),
        ensures
            change == reversal_delta(self.table(), self.tour(), lo as int, hi as int),
    {
        assert(self.path@[self.n as int] == 0);
        assert(forall|x: int| 0 <= x < self.n ==> #[trigger] self.path@[x] < self.n);
        let a: usize = self.path[lo - 1];
        let b: usize = self.path[lo];
        let c: usize = self.path[hi - 1];
        let d: usize = self.path[hi];
        let made: u64 = self.distance.get(a, c) + self.distance.get(b, d);
        let broken: u64 = self.distance.get(a, b) + self.distance.get(c, d);
        made as i64 - broken as i64
    }

    /// What moving the block at positions `mid..hi` of the tour in front of
    /// the block at `lo..mid` would add to its length.
    pub fn exchange_change(&self, lo: usize, mid: usize, hi: usize) -> (change: i64)
        requires
            self.has_tour(),
            1 <= lo < mid < hi <= self.size(),
        ensures
            change == exchange_delta(self.table(), self.tour(), lo as int, mid as int, hi as int),
    {
        assert(self.path@[self.n as int] == 0);
        assert(forall|x: int| 0 <= x < self.n ==> #[trigger] self.path@[x] < self.n);
        let a: usize = self.path[lo - 1];
        let b: usize = self.path[lo];
        let c: usize = self.path[mid - 1];
        let d: usize = self.path[mid];
        let e: usize = self.path[hi - 1];
        let f: usize = self.path[hi];
        let made: u64 = self.distance.get(a, d) + self.distance.get(e, b) + self.distance.get(c, f);
        let broken: u64 = self.distance.get(a, b) + self.distance.get(c, d) + self.distance.get(
            e,
            f,
        );
        made as i64 - broken as i64
    }

    /// The length of every tour of the instance fits the score with room to
    /// spare.
    pub proof fn lemma_length_bounds(&self, path: Seq<usize>)
        requires
            self.wf(),
            is_tour(path, self.size()),
        ensures
            0 <= tour_length(self.table(), path) <= MAX_NODES * DISTANCE_LIMIT,
    {
        let n = self.size() as int;
        assert(path[n] == 0);
        assert(forall|x: int| 0 <= x < n ==> #[trigger] path[x] < n);
        lemma_span_bounds(self.table(), path, 0, n);
        assert(n * DISTANCE_LIMIT <= MAX_NODES * DISTANCE_LIMIT) by (nonlinear_arith)
            requires
                n <= MAX_NODES,
        ;
    }

    /// Reverses positions `lo..hi` of the tour and updates the recorded
    /// length by the change that the reversal makes.
    pub fn reverse_segment(&mut self, lo: usize, hi: usize)
        requires
            old(self).has_tour(),
            1 <= lo < hi <= old(self).size(),
        ensures
            final(self).has_tour(),
            final(self).same_instance(old(self)),
            final(self).tour() == reversed_range(old(self).tour(), lo as int, hi as int),
            final(self).total() == old(self).total() + reversal_delta(
                old(self).table(),
                old(self).tour(),
                lo as int,
                hi as int,
            ),
    {
        let change: i64 = self.reversal_change(lo, hi);
        proof {
            lemma_reversal(self.distance, self.path@, lo as int, hi as int);
            self.lemma_length_bounds(self.path@);
            self.lemma_length_bounds(reversed_range(self.path@, lo as int, hi as int));
        }
        reverse_range(&mut self.path, lo, hi);
        self.score = (self.score as i64 + change) as u64;
    }

    /// Moves the block at positions `mid..hi` of the tour in front of the
    /// block at `lo..mid` and updates the recorded length by the change that
    /// the exchange makes.
    pub fn exchange_segments(&mut self, lo: usize, mid: usize, hi: usize)
        requires
            old(self).has_tour(),
            1 <= lo < mid < hi <= old(self).size(),
        ensures
            final(self).has_tour(),
            final(self).same_instance(old(self)),
            final(self).tour() == exchanged_blocks(
                old(self).tour(),
                lo as int,
                mid as int,
                hi as int,
            ),
            final(self).total() == old(self).total() + exchange_delta(
                old(self).table(),
                old(self).tour(),
                lo as int,
                mid as int,
                hi as int,
            ),
    {
        let change: i64 = self.exchange_change(lo, mid, hi);
        proof {
            lemma_exchange(self.distance, self.path@, lo as int, mid as int, hi as int);
            self.lemma_length_bounds(self.path@);
            self.lemma_length_bounds(
                exchanged_blocks(self.path@, lo as int, mid as int, hi as int),
            );
        }
        exchange_blocks(&mut self.path, lo, mid, hi);
        self.score = (self.score as i64 + change) as u64;
    }

    /// Replaces the tour with `path`, whose length is `score`, if that is
    /// strictly shorter than the current tour; says whether it was.
    pub fn commit(&mut self, path: &Vec<usize>, score: u64) -> (taken: bool)
        requires
            old(self).has_tour(),
            is_tour(path@, old(self).size()),
            score == tour_length(old(self).table(), path@),
        ensures
            final(self).has_tour(),
            final(self).same_instance(old(self)),
            taken == (score < old(self).total()),
            taken ==> final(self).tour() == path@ && final(self).total() == score,
            !taken ==> final(self).tour() == old(self).tour() && final(self).total() == old(self).total(),
    {
        if score < self.score {
            self.path = copy_path(path);
            self.score = score;
            true
        } else {
            false
        }
    }
}

/// A copy of `path`.
pub fn copy_path(path: &Vec<usize>) -> (copy: Vec<usize>)
    ensures
        copy@ == path@,
{
    let mut copy: Vec<usize> = Vec::new();
    let mut x: usize = 0;
    while x < path.len()
        invariant
            x <= path@.len(),
            copy@.len() == x,
            forall|t: int| 0 <= t < x ==> copy@[t] == path@[t],
        decreases path@.len() - x,
    {
        copy.push(path[x]);
        x += 1;
    }
    assert(copy@ =~= path@);
    copy
}

} // verus!
