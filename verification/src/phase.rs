//! The order of the search phases, and the part of the time budget that
//! each may use. The caller owns the clock: it runs the trials of a timed
//! phase and reports the time that has passed.

use vstd::prelude::*;
use crate::distance::DistanceTable;
use crate::greedy::{is_greedy_tour, lemma_greedy_unique};
use crate::solver::Solver;
use crate::three_opt::three_opt_pass;
use crate::tour::{is_tour, tour_length};
use crate::two_opt::{is_two_opt_optimal, two_opt_sweeps};

verus! {

/// The time budget of a whole run where none is given, in milliseconds.
pub const DEFAULT_BUDGET_MS: u64 = 4950;

/// The first perturbation phase ends this many milliseconds into the run.
pub const FIRST_ANNEAL_MS: u64 = 1000;

/// A phase of a run, in the order in which the phases follow each other.
#[derive(Clone, Copy, Debug, PartialEq, Eq, Structural)]
pub enum Phase {
    /// Build the first tour.
    Construct,
    /// Perturb for a first slice of the budget.
    AnnealFirst,
    /// Reverse segments until no reversal helps.
    TwoOpt,
    /// One pass of three-segment moves.
    ThreeOpt,
    /// Perturb until the budget is used up.
    AnnealSecond,
    /// Nothing is left to do.
    Done,
}

impl Phase {
    /// The phase that follows this one; `Done` follows itself.
    pub open spec fn successor(self) -> Phase {
        match self {
            Phase::Construct => Phase::AnnealFirst,
            Phase::AnnealFirst => Phase::TwoOpt,
            Phase::TwoOpt => Phase::ThreeOpt,
            Phase::ThreeOpt => Phase::AnnealSecond,
            Phase::AnnealSecond => Phase::Done,
            Phase::Done => Phase::Done,
        }
    }

    /// The phase repeats trials until its deadline.
    pub open spec fn timed(self) -> bool {
        self == Phase::AnnealFirst || self == Phase::AnnealSecond
    }

    /// The time into the run at which the phase must stop, for a run of
    /// `budget_ms` milliseconds.
    pub open spec fn deadline_of(self, budget_ms: u64) -> u64 {
        if self == Phase::AnnealFirst && FIRST_ANNEAL_MS < budget_ms {
            FIRST_ANNEAL_MS
        } else {
            budget_ms
        }
    }

    /// The phase that a run is in once `elapsed_ms` milliseconds have passed
    /// and the work of this phase was done once more: a timed phase goes on
    /// until its deadline, every other phase hands over at once.
    pub open spec fn following(self, elapsed_ms: u64, budget_ms: u64) -> Phase {
        if self.timed() && elapsed_ms < self.deadline_of(budget_ms) {
            self
        } else {
            self.successor()
        }
    }

    /// The phase that follows this one.
    pub fn next(self) -> (phase: Phase)
        ensures
            phase == self.successor(),
    {
        match self {
            Phase::Construct => Phase::AnnealFirst,
            Phase::AnnealFirst => Phase::TwoOpt,
            Phase::TwoOpt => Phase::ThreeOpt,
            Phase::ThreeOpt => Phase::AnnealSecond,
            Phase::AnnealSecond => Phase::Done,
            Phase::Done => Phase::Done,
        }
    }

    /// Whether the phase repeats trials until its deadline.
    pub fn is_timed(self) -> (timed: bool)
        ensures
            timed == self.timed(),
    {
        match self {
            Phase::AnnealFirst => true,
            Phase::AnnealSecond => true,
            _ => false,
        }
    }

    /// The time into the run at which the phase must stop.
    pub fn deadline(self, budget_ms: u64) -> (ms: u64)
        ensures
            ms == self.deadline_of(budget_ms),
            ms <= budget_ms,
    {
        match self {
            Phase::AnnealFirst => if FIRST_ANNEAL_MS < budget_ms {
                FIRST_ANNEAL_MS
            } else {
                budget_ms
            },
            _ => budget_ms,
        }
    }

    /// The phase to go on with after one more piece of this phase's work,
    /// `elapsed_ms` milliseconds into a run of `budget_ms`.
    pub fn advance(self, elapsed_ms: u64, budget_ms: u64) -> (phase: Phase)
        ensures
            phase == self.following(elapsed_ms, budget_ms),
    {
        if self.is_timed() && elapsed_ms < self.deadline(budget_ms) {
            self
        } else {
            self.next()
        }
    }
}

/// `tour` is what the untimed phases make of an instance: `built` is the
/// greedy tour, `count` sweeps of reversals turn it into a tour no longer
/// than it that no reversal improves, and `tour` is the outcome of one pass
/// of three-segment moves over that.
pub open spec fn is_solution(
    table: DistanceTable,
    built: Seq<usize>,
    count: nat,
    tour: Seq<usize>,
) -> bool {
    let swept = two_opt_sweeps(table, built, count);
    &&& is_tour(built, table.size())
    &&& is_greedy_tour(table, built)
    &&& is_tour(swept, table.size())
    &&& is_two_opt_optimal(table, swept)
    &&& tour_length(table, swept) <= tour_length(table, built)
    &&& tour == three_opt_pass(table, swept)
    &&& tour_length(table, tour) <= tour_length(table, swept)
}

impl Solver {
    /// Does the work of an untimed phase. A timed phase is made of trials
    /// that the caller runs, and `Done` of nothing: for these the solver is
    /// left as it is.
    pub fn run_phase(&mut self, phase: Phase)
        requires
            old(self).wf(),
            phase != Phase::Construct ==> old(self).has_tour(),
        ensures
            final(self).has_tour(),
            final(self).same_instance(old(self)),
            phase == Phase::Construct ==> is_greedy_tour(final(self).table(), final(self).tour()),
            phase != Phase::Construct ==> final(self).total() <= old(self).total(),
            phase == Phase::TwoOpt ==> is_two_opt_optimal(final(self).table(), final(self).tour()),
            phase == Phase::TwoOpt ==> exists|count: nat|
                final(self).tour() == #[trigger] two_opt_sweeps(
                    old(self).table(),
                    old(self).tour(),
                    count,
                ),
            phase == Phase::ThreeOpt ==> final(self).tour() == three_opt_pass(
                old(self).table(),
                old(self).tour(),
            ),
            phase.timed() || phase == Phase::Done ==> final(self).tour() == old(self).tour()
                && final(self).total() == old(self).total(),
    {
        match phase {
            Phase::Construct => self.set_initial_path(),
            Phase::TwoOpt => self.run_two_opt(),
            Phase::ThreeOpt => self.run_three_opt(),
            _ => {},
        }
    }

    /// Runs the untimed phases in their order: the greedy construction, the
    /// reversals to a local optimum, and one pass of three-segment moves.
    /// The tour that results is no longer than the greedy tour.
    pub fn solve(&mut self)
        requires
            old(self).wf(),
        ensures
            final(self).has_tour(),
            final(self).same_instance(old(self)),
            exists|built: Seq<usize>, count: nat| #[trigger]
                is_solution(final(self).table(), built, count, final(self).tour()),
            forall|greedy: Seq<usize>|
                is_tour(greedy, final(self).size()) && #[trigger] is_greedy_tour(
                    final(self).table(),
                    greedy,
                ) ==> final(self).total() <= tour_length(final(self).table(), greedy),
    {
        self.run_phase(Phase::Construct);
        let ghost built = self.tour();
        self.run_phase(Phase::TwoOpt);
        let ghost count = choose|count: nat|
            self.tour() == #[trigger] two_opt_sweeps(self.table(), built, count);
        self.run_phase(Phase::ThreeOpt);
        proof {
            assert(is_solution(self.table(), built, count, self.tour()));
            assert forall|greedy: Seq<usize>|
                is_tour(greedy, self.size()) && #[trigger] is_greedy_tour(
                    self.table(),
                    greedy,
                ) implies self.total() <= tour_length(self.table(), greedy) by {
                lemma_greedy_unique(self.table(), greedy, built);
            }
        }
    }
}

} // verus!
