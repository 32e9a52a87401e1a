//! Search by random perturbation: a window of the working tour is shuffled,
//! the outcome is taken or dropped, and the best tour seen is kept.

use vstd::prelude::*;
use vstd::seq_lib::lemma_multiset_commutative;
use rand::rngs::StdRng;
use crate::rng::{random_index, shuffle_window};
use crate::solver::{copy_path, Solver};
use crate::tour::{is_tour, tour_length};

verus! {

/// Instances of fewer points are not perturbed.
pub const MIN_ANNEAL_NODES: usize = 10;

/// The narrowest window that is shuffled.
pub const MIN_WINDOW: usize = 3;

/// Every window that is shuffled is narrower than this.
pub const WINDOW_LIMIT: usize = 10;

/// `after` has the length of `before` and the same entries outside the
/// positions `lo..hi`.
pub open spec fn same_outside(before: Seq<usize>, after: Seq<usize>, lo: int, hi: int) -> bool {
    &&& after.len() == before.len()
    &&& forall|x: int| 0 <= x < lo || hi <= x < before.len() ==> after[x] == before[x]
}

/// `after` is `before` but for a window of at least `MIN_WINDOW` and fewer
/// than `WINDOW_LIMIT` positions that lies between the two ends of a tour of
/// `n` points.
pub open spec fn differs_in_window(before: Seq<usize>, after: Seq<usize>, n: int) -> bool {
    exists|lo: int, hi: int|
        {
            &&& #[trigger] same_outside(before, after, lo, hi)
            &&& MIN_WINDOW <= hi - lo < WINDOW_LIMIT
            &&& 1 <= lo
            &&& hi <= n
        }
}

/// Two sequences of one length that agree outside the window `lo..hi`, and
/// hold the same values equally often inside it, hold the same values
/// equally often overall.
pub proof fn lemma_window_multiset(p: Seq<usize>, q: Seq<usize>, lo: int, hi: int)
    requires
        0 <= lo <= hi <= p.len(),
        q.len() == p.len(),
        forall|x: int| 0 <= x < lo || hi <= x < p.len() ==> q[x] == p[x],
        q.subrange(lo, hi).to_multiset() == p.subrange(lo, hi).to_multiset(),
    ensures
        q.to_multiset() == p.to_multiset(),
{
    let len = p.len() as int;
    assert(p =~= (p.subrange(0, lo) + p.subrange(lo, hi)) + p.subrange(hi, len));
    assert(q =~= (q.subrange(0, lo) + q.subrange(lo, hi)) + q.subrange(hi, len));
    assert(q.subrange(0, lo) =~= p.subrange(0, lo));
    assert(q.subrange(hi, len) =~= p.subrange(hi, len));
    lemma_multiset_commutative(p.subrange(0, lo), p.subrange(lo, hi));
    lemma_multiset_commutative(p.subrange(0, lo) + p.subrange(lo, hi), p.subrange(hi, len));
    lemma_multiset_commutative(q.subrange(0, lo), q.subrange(lo, hi));
    lemma_multiset_commutative(q.subrange(0, lo) + q.subrange(lo, hi), q.subrange(hi, len));
}

/// Reordering a window between the two ends of a tour gives a tour of the
/// same points: the values that the path holds, and how often it holds each,
/// do not change.
pub proof fn lemma_window_shuffle(p: Seq<usize>, q: Seq<usize>, n: nat, lo: int, hi: int)
    requires
        is_tour(p, n),
        1 <= lo <= hi <= n,
        q.len() == p.len(),
        forall|x: int| 0 <= x < lo || hi <= x < p.len() ==> q[x] == p[x],
        q.subrange(lo, hi).to_multiset() == p.subrange(lo, hi).to_multiset(),
    ensures
        is_tour(q, n),
        q.to_multiset() == p.to_multiset(),
{
    lemma_window_multiset(p, q, lo, hi);
    let head = p.subrange(0, n as int);
    let shuffled = q.subrange(0, n as int);
    assert(head.subrange(lo, hi) =~= p.subrange(lo, hi));
    assert(shuffled.subrange(lo, hi) =~= q.subrange(lo, hi));
    lemma_window_multiset(head, shuffled, lo, hi);
    assert(head.no_duplicates()) by {
        assert forall|i: int, j: int|
            0 <= i < head.len() && 0 <= j < head.len() && i != j implies head[i] != head[j] by {
            if i < j {
                assert(p[i] != p[j]);
            } else {
                assert(p[j] != p[i]);
            }
        }
    }
    head.lemma_multiset_has_no_duplicates();
    shuffled.lemma_multiset_has_no_duplicates_conv();
    head.to_multiset_ensures();
    shuffled.to_multiset_ensures();
    assert forall|i: int| 0 <= i < n implies #[trigger] q[i] < n by {
        assert(shuffled[i] == q[i]);
        assert(shuffled.contains(q[i]));
        assert(shuffled.to_multiset().count(q[i]) > 0);
        assert(head.to_multiset().count(q[i]) > 0);
        assert(head.contains(q[i]));
        let w = choose|w: int| 0 <= w < head.len() && head[w] == q[i];
        assert(p[w] == q[i]);
    }
    assert forall|i: int, j: int| 0 <= i < j < n implies q[i] != q[j] by {
        assert(shuffled[i] == q[i] && shuffled[j] == q[j]);
    }
}

/// A tour with its length.
pub type Scored = (Seq<usize>, int);

/// What weighing `neighbour` leaves: it is the working tour if it is
/// strictly shorter than the working tour was, or if `accept_worse` says so;
/// and the working tour that results is the best tour if it is strictly
/// shorter than the best tour was.
pub open spec fn is_weighed(
    best: Scored,
    working: Scored,
    neighbour: Scored,
    accept_worse: bool,
    best_after: Scored,
    working_after: Scored,
) -> bool {
    let accepted = neighbour.1 < working.1 || accept_worse;
    &&& working_after == if accepted {
        neighbour
    } else {
        working
    }
    &&& best_after == if working_after.1 < best.1 {
        working_after
    } else {
        best
    }
}

/// The working tour of a perturbation search, with its length.
pub struct Candidate {
    path: Vec<usize>,
    score: u64,
}

impl Candidate {
    /// The working tour.
    pub closed spec fn tour(&self) -> Seq<usize> {
        self.path@
    }

    /// The recorded length of the working tour.
    pub closed spec fn total(&self) -> int {
        self.score as int
    }

    /// The working tour with its recorded length.
    pub open spec fn scored(&self) -> Scored {
        (self.tour(), self.total())
    }

    /// The working tour is a tour of `solver`'s instance and the recorded
    /// length is its true length.
    pub open spec fn fits(&self, solver: &Solver) -> bool {
        &&& is_tour(self.tour(), solver.size())
        &&& self.total() == tour_length(solver.table(), self.tour())
    }

    /// The working tour.
    pub fn path(&self) -> (path: &Vec<usize>)
        ensures
            path@ == self.tour(),
    {
        &self.path
    }

    /// The recorded length of the working tour, in distance units.
    pub fn score(&self) -> (score: u64)
        ensures
            score == self.total(),
    {
        self.score
    }
}

impl Solver {
    /// A working tour that starts as a copy of the solver's tour.
    pub fn begin_annealing(&self) -> (working: Candidate)
        requires
            self.has_tour(),
        ensures
            working.fits(self),
            working.tour() == self.tour(),
            working.total() == self.total(),
    {
        Candidate { path: copy_path(self.path()), score: self.score() }
    }

    /// A neighbour of `candidate`: a copy in which a random window between
    /// the two ends is shuffled. An instance of fewer than
    /// `MIN_ANNEAL_NODES` points has no room for one, and gets a plain copy.
    pub fn tweak_candidate(&self, candidate: &Vec<usize>, rng: &mut StdRng) -> (tweaked: Vec<usize>)
        requires
            self.wf(),
            is_tour(candidate@, self.size()),
        ensures
            is_tour(tweaked@, self.size()),
            tweaked@.to_multiset() == candidate@.to_multiset(),
            self.size() < MIN_ANNEAL_NODES ==> tweaked@ == candidate@,
            self.size() >= MIN_ANNEAL_NODES ==> differs_in_window(
                candidate@,
                tweaked@,
                self.size() as int,
            ),
    {
        let n: usize = self.len();
        let mut tweaked: Vec<usize> = copy_path(candidate);
        if n < MIN_ANNEAL_NODES {
            return tweaked;
        }
        let width: usize = random_index(rng, MIN_WINDOW, WINDOW_LIMIT);
        let lo: usize = random_index(rng, 1, n - width + 1);
        shuffle_window(rng, &mut tweaked, lo, lo + width);
        proof {
            lemma_window_shuffle(candidate@, tweaked@, n as nat, lo as int, lo + width);
            assert(same_outside(candidate@, tweaked@, lo as int, lo + width));
        }
        tweaked
    }

    /// Weighs `neighbour` against the working tour. It becomes the working
    /// tour if it is strictly shorter, or if `accept_worse` says so. The
    /// working tour that results becomes the solver's tour if it is strictly
    /// shorter than that. Says whether `neighbour` was taken.
    pub fn consider(
        &mut self,
        working: &mut Candidate,
        neighbour: Vec<usize>,
        accept_worse: bool,
    ) -> (accepted: bool)
        requires
            old(self).has_tour(),
            old(working).fits(old(self)),
            is_tour(neighbour@, old(self).size()),
        ensures
            final(self).has_tour(),
            final(self).same_instance(old(self)),
            final(working).fits(final(self)),
            accepted == (tour_length(old(self).table(), neighbour@) < old(working).total()
                || accept_worse),
            is_weighed(
                old(self).scored(),
                old(working).scored(),
                (neighbour@, tour_length(old(self).table(), neighbour@)),
                accept_worse,
                final(self).scored(),
                final(working).scored(),
            ),
    {
        let length: u64 = self.get_distance(&neighbour);
        let accepted: bool = length < working.score || accept_worse;
        if accepted {
            working.path = neighbour;
            working.score = length;
        }
        self.commit(&working.path, working.score);
        accepted
    }

    /// One trial of the perturbation search: a neighbour of the working tour
    /// is drawn and weighed as `consider` says. An instance of fewer than
    /// `MIN_ANNEAL_NODES` points is left as it is.
    pub fn anneal_step(&mut self, working: &mut Candidate, rng: &mut StdRng, accept_worse: bool)
        requires
            old(self).has_tour(),
            old(working).fits(old(self)),
        ensures
            final(self).has_tour(),
            final(self).same_instance(old(self)),
            final(working).fits(final(self)),
            final(self).total() <= old(self).total(),
            old(self).size() < MIN_ANNEAL_NODES ==> {
                &&& final(self).scored() == old(self).scored()
                &&& final(working).scored() == old(working).scored()
            },
            old(self).size() >= MIN_ANNEAL_NODES ==> exists|neighbour: Seq<usize>|
                {
                    &&& is_tour(neighbour, old(self).size())
                    &&& differs_in_window(old(working).tour(), neighbour, old(self).size() as int)
                    &&& neighbour.to_multiset() == old(working).tour().to_multiset()
                    &&& #[trigger] is_weighed(
                        old(self).scored(),
                        old(working).scored(),
                        (neighbour, tour_length(old(self).table(), neighbour)),
                        accept_worse,
                        final(self).scored(),
                        final(working).scored(),
                    )
                },
    {
        if self.len() < MIN_ANNEAL_NODES {
            return ;
        }
        let neighbour: Vec<usize> = self.tweak_candidate(&working.path, rng);
        let ghost drawn = neighbour@;
        self.consider(working, neighbour, accept_worse);
        assert(is_weighed(
            old(self).scored(),
            old(working).scored(),
            (drawn, tour_length(old(self).table(), drawn)),
            accept_worse,
            self.scored(),
            working.scored(),
        ));
    }
}

} // verus!
