//! What every search shares: moves, the swap neighbourhood, snapshots, the
//! step log and the strategy traits.

use vstd::prelude::*;
use std::time::Instant;
use rand::rngs::ThreadRng;
use crate::instance::Instance;
use crate::tour::{is_tour, swapped, lemma_swap_keeps_tour, lemma_permutation_keeps_tour,
    lemma_identity_is_tour, make_identity_tour, is_valid_tour};
use crate::random::shuffle;
use crate::clock::elapsed_micros;

verus! {

/// A move: exchange the cities at two tour positions.
pub type Move = (usize, usize);

/// `m` is a move of a tour over `n` cities, written with its smaller
/// position first.
pub open spec fn move_ok(m: Move, n: int) -> bool {
    m.0 < m.1 < n
}

/// `moves` holds exactly the moves of a tour over `n` cities, each once.
pub open spec fn is_neighbourhood(moves: Seq<Move>, n: int) -> bool {
    &&& forall|k: int| 0 <= k < moves.len() ==> move_ok(#[trigger] moves[k], n)
    &&& forall|m: Move| move_ok(m, n) ==> moves.contains(m)
    &&& moves.no_duplicates()
}

/// Whether two moves are the same.
pub fn same_move(a: Move, b: Move) -> (r: bool)
    ensures
        r == (a == b),
{
    a.0 == b.0 && a.1 == b.1
}

/// Why a search could not run.
#[derive(Clone, Copy, Debug, PartialEq, Eq, Structural)]
pub enum SearchError {
    /// The supplied starting tour is not a tour of the instance.
    InvalidInitialSolution,
    /// The instance has fewer than two cities, so there is no move to make.
    EmptyNeighbourhood,
    /// The instance has no city, so there is no tour to build.
    EmptyInstance,
}

/// A snapshot of a search at one step.
#[derive(Clone, Debug)]
pub struct AlgorithmStepStatistics {
    pub solution: Vec<i32>,
    pub solution_score: Option<u128>,
    pub solution_distance: u64,
    pub evaluated_solutions: u64,
    pub elapsed_time: u128,
}

/// The snapshot describes a tour of `inst` with its true length and score.
pub open spec fn stats_ok(inst: Instance, st: AlgorithmStepStatistics) -> bool {
    &&& is_tour(st.solution@, inst.n())
    &&& st.solution_distance == inst.tour_len(st.solution@)
    &&& st.solution_score == inst.score(st.solution@)
}

/// A run's log: snapshots keyed by strictly increasing step numbers.
pub open spec fn log_ok(inst: Instance, log: Seq<(u64, AlgorithmStepStatistics)>) -> bool {
    &&& forall|i: int, j: int| 0 <= i < j < log.len() ==> #[trigger] log[i].0 < #[trigger] log[j].0
    &&& forall|i: int| 0 <= i < log.len() ==> stats_ok(inst, #[trigger] log[i].1)
}

/// The recorded lengths never increase from one snapshot to a later one.
pub open spec fn log_non_increasing(log: Seq<(u64, AlgorithmStepStatistics)>) -> bool {
    forall|i: int, j: int| 0 <= i < j < log.len() ==>
        #[trigger] log[j].1.solution_distance <= #[trigger] log[i].1.solution_distance
}

/// Every step number of the log is a multiple of `k`.
pub open spec fn log_keys_on(log: Seq<(u64, AlgorithmStepStatistics)>, k: int) -> bool {
    forall|i: int| 0 <= i < log.len() ==> (#[trigger] log[i]).0 as int % k == 0
}

/// Every step number of the log but the last is a multiple of `k`.
pub open spec fn log_keys_on_but_last(log: Seq<(u64, AlgorithmStepStatistics)>, k: int) -> bool {
    forall|i: int| 0 <= i < log.len() - 1 ==> (#[trigger] log[i]).0 as int % k == 0
}

/// The evaluation counts never decrease from one snapshot to a later one.
pub open spec fn log_counts_non_decreasing(log: Seq<(u64, AlgorithmStepStatistics)>) -> bool {
    forall|i: int, j: int| 0 <= i < j < log.len() ==>
        #[trigger] log[i].1.evaluated_solutions <= #[trigger] log[j].1.evaluated_solutions
}

/// Every recorded evaluation count is at most `e`.
pub open spec fn log_counts_at_most(log: Seq<(u64, AlgorithmStepStatistics)>, e: int) -> bool {
    forall|i: int| 0 <= i < log.len() ==> #[trigger] log[i].1.evaluated_solutions <= e
}

/// Every recorded length is at least `d`.
pub open spec fn log_at_least(log: Seq<(u64, AlgorithmStepStatistics)>, d: int) -> bool {
    forall|i: int| 0 <= i < log.len() ==> #[trigger] log[i].1.solution_distance >= d
}

/// The last step number of a log, or zero for an empty one.
pub open spec fn last_step(log: Seq<(u64, AlgorithmStepStatistics)>) -> int {
    if log.len() == 0 {
        0
    } else {
        log.last().0 as int
    }
}

/// The tours held by an optional starting tour.
pub open spec fn seed_view(o: Option<Vec<i32>>) -> Option<Seq<i32>> {
    match o {
        Some(s) => Some(s@),
        None => None,
    }
}

/// Searches that start from a tour.
pub trait SearchAlgorithm {
    spec fn problem(&self) -> Instance;

    spec fn seed(&self) -> Option<Seq<i32>>;

    /// The starting tour: the supplied one where it is a tour, a random tour
    /// where none was supplied.
    fn _load_initial_solution(&mut self) -> (r: Result<Vec<i32>, SearchError>)
        requires
            old(self).problem().wf(),
        ensures
            final(self).problem() == old(self).problem(),
            final(self).seed() == old(self).seed(),
            initial_solution_ok(old(self).problem(), old(self).seed(), r),
    ;
}

/// Algorithms that search the swap neighbourhood.
pub trait NeighbourhoodGenerator: SearchAlgorithm {
    fn _generate_neighbourhood(&self) -> (r: Vec<Move>)
        requires
            self.problem().wf(),
        ensures
            is_neighbourhood(r@, self.problem().n()),
    ;
}

/// A search strategy over one instance.
pub trait Algorithm: Sized {
    spec fn instance_of(&self) -> Instance;

    spec fn ready(&self) -> bool;

    fn new(instance: Instance, steps: i32, logging_interval: i32, initial_solution: Option<Vec<i32>>) -> (r: Self)
        requires
            instance.wf(),
            steps >= 0,
            logging_interval > 0,
        ensures
            r.ready(),
            r.instance_of() == instance,
    ;

    /// Runs the search once, returning its snapshots in step order.
    fn execute(&mut self) -> (r: Result<Vec<(u64, AlgorithmStepStatistics)>, SearchError>)
        requires
            old(self).ready(),
        ensures
            final(self).ready(),
            final(self).instance_of() == old(self).instance_of(),
            r matches Ok(log) ==> log_ok(old(self).instance_of(), log@) && log@.len() > 0,
    ;

    /// Short name of the strategy, as result tables label it.
    fn get_name(&self) -> (r: &String)
        requires
            self.ready(),
    ;
}

/// What `_load_initial_solution` returns for a seed.
pub open spec fn initial_solution_ok(inst: Instance, seed: Option<Seq<i32>>, r: Result<Vec<i32>, SearchError>) -> bool {
    match seed {
        Some(s) => if is_tour(s, inst.n()) {
            r matches Ok(t) && t@ == s
        } else {
            r == Err::<Vec<i32>, SearchError>(SearchError::InvalidInitialSolution)
        },
        None => r matches Ok(t) && is_tour(t@, inst.n()),
    }
}

/// The starting tour of a search: the supplied one, checked, or a random
/// permutation of the cities.
pub fn load_initial_solution(instance: &Instance, initial_solution: &Option<Vec<i32>>, rng: &mut ThreadRng)
    -> (r: Result<Vec<i32>, SearchError>)
    requires
        instance.wf(),
    ensures
        initial_solution_ok(*instance, match initial_solution { Some(s) => Some(s@), None => None }, r),
{
    let n = instance.num_cities();
    match initial_solution {
        Some(s) => {
            if is_valid_tour(s, n) {
                let mut t: Vec<i32> = Vec::new();
                let mut i: usize = 0;
                while i < s.len()
                    invariant
                        i <= s@.len(),
                        t@ == s@.take(i as int),
                    decreases s@.len() - i,
                {
                    t.push(s[i]);
                    i = i + 1;
                    assert(t@ =~= s@.take(i as int));
                }
                assert(t@ =~= s@);
                Ok(t)
            } else {
                Err(SearchError::InvalidInitialSolution)
            }
        },
        None => {
            let mut t = make_identity_tour(n);
            proof {
                lemma_identity_is_tour(n as int);
            }
            let ghost before = t@;
            shuffle(&mut t, rng);
            proof {
                lemma_permutation_keeps_tour(before, t@, n as int);
            }
            Ok(t)
        },
    }
}

/// `a` comes before `b` in order of first position, then second.
pub open spec fn move_before(a: Move, b: Move) -> bool {
    a.0 < b.0 || (a.0 == b.0 && a.1 < b.1)
}

/// All moves of a tour over `n` cities, in order of their first position,
/// then their second.
pub fn generate_neighbourhood(n: usize) -> (r: Vec<Move>)
    ensures
        is_neighbourhood(r@, n as int),
        forall|a: int, b: int| 0 <= a < b < r@.len() ==> move_before(#[trigger] r@[a], #[trigger] r@[b]),
        2 * r@.len() == n * (n - 1),
{
    let mut moves: Vec<Move> = Vec::new();
    let mut i: usize = 0;
    while i < n
        invariant
            i <= n,
            forall|k: int| 0 <= k < moves@.len() ==> move_ok(#[trigger] moves@[k], n as int)
                && moves@[k].0 < i,
            forall|m: Move| move_ok(m, n as int) && m.0 < i ==> moves@.contains(m),
            moves@.no_duplicates(),
            forall|a: int, b: int| 0 <= a < b < moves@.len() ==> move_before(#[trigger] moves@[a], #[trigger] moves@[b]),
            2 * moves@.len() == 2 * i * n - i * (i + 1),
        decreases n - i,
    {
        let mut j: usize = i + 1;
        while j < n
            invariant
                i < n,
                i + 1 <= j <= n,
                forall|k: int| 0 <= k < moves@.len() ==> move_ok(#[trigger] moves@[k], n as int)
                    && (moves@[k].0 < i || (moves@[k].0 == i && moves@[k].1 < j)),
                forall|m: Move| move_ok(m, n as int) && (m.0 < i || (m.0 == i && m.1 < j)) ==> moves@.contains(m),
                moves@.no_duplicates(),
                forall|a: int, b: int| 0 <= a < b < moves@.len() ==> move_before(#[trigger] moves@[a], #[trigger] moves@[b]),
                2 * moves@.len() == 2 * i * n - i * (i + 1) + 2 * (j - i - 1),
            decreases n - j,
        {
            let ghost old_moves = moves@;
            moves.push((i, j));
            assert forall|m: Move| move_ok(m, n as int) && (m.0 < i || (m.0 == i && m.1 < j + 1))
                implies moves@.contains(m) by {
                if m.0 == i && m.1 == j {
                    assert(moves@[moves@.len() - 1] == m);
                } else {
                    assert(old_moves.contains(m));
                    let k = choose|k: int| 0 <= k < old_moves.len() && old_moves[k] == m;
                    assert(moves@[k] == m);
                }
            }
            j = j + 1;
        }
        assert(2 * i * n - i * (i + 1) + 2 * (n - i - 1) == 2 * (i + 1) * n - (i + 1) * (i + 2)) by (nonlinear_arith);
        i = i + 1;
    }
    assert(2 * n * n - n * (n + 1) == n * (n - 1)) by (nonlinear_arith);
    moves
}

/// Length of the tour reached from `current_solution` by exchanging
/// positions `a` and `b`.
pub fn get_move_distance(a: usize, b: usize, instance: &Instance, current_solution: &Vec<i32>) -> (r: u64)
    requires
        instance.wf(),
        is_tour(current_solution@, instance.n()),
        a < instance.n(),
        b < instance.n(),
    ensures
        r == instance.tour_len(swapped(current_solution@, a as int, b as int)),
{
    let mut candidate = current_solution.clone();
    assert(candidate@ =~= current_solution@);
    apply_move(&mut candidate, a, b, Ghost(instance.n()));
    instance.get_solution_distance(&candidate)
}

/// Exchanges the cities at positions `a` and `b` of a tour.
pub fn apply_move(s: &mut Vec<i32>, a: usize, b: usize, n: Ghost<int>)
    requires
        is_tour(old(s)@, n@),
        a < n@,
        b < n@,
    ensures
        final(s)@ == swapped(old(s)@, a as int, b as int),
        is_tour(final(s)@, n@),
{
    proof {
        lemma_swap_keeps_tour(s@, n@, a as int, b as int);
    }
    let x = s[a];
    let y = s[b];
    s.set(a, y);
    s.set(b, x);
}

/// Copies a tour.
pub fn copy_tour(s: &Vec<i32>) -> (r: Vec<i32>)
    ensures
        r@ == s@,
{
    let r = s.clone();
    assert(r@ =~= s@);
    r
}

/// A snapshot of `solution` after `evaluated` evaluations, timed from `start`.
pub fn snapshot(instance: &Instance, solution: &Vec<i32>, evaluated: u64, start: &Instant) -> (r: AlgorithmStepStatistics)
    requires
        instance.wf(),
        is_tour(solution@, instance.n()),
    ensures
        stats_ok(*instance, r),
        r.solution@ == solution@,
        r.evaluated_solutions == evaluated,
{
    AlgorithmStepStatistics {
        solution: copy_tour(solution),
        solution_score: instance.get_solution_score(solution),
        solution_distance: instance.get_solution_distance(solution),
        evaluated_solutions: evaluated,
        elapsed_time: elapsed_micros(start),
    }
}

/// Records a snapshot under `step`: it replaces the last one where that was
/// taken at the same step, and is appended otherwise.
pub fn record(log: &mut Vec<(u64, AlgorithmStepStatistics)>, step: u64, stats: AlgorithmStepStatistics, inst: Ghost<Instance>)
    requires
        log_ok(inst@, old(log)@),
        stats_ok(inst@, stats),
        last_step(old(log)@) <= step,
    ensures
        log_ok(inst@, final(log)@),
        final(log)@.len() > 0,
        final(log)@.last() == (step, stats),
        last_step(final(log)@) == step,
        old(log)@.len() > 0 && old(log)@.last().0 == step ==> final(log)@ == old(log)@.drop_last().push((step, stats)),
        !(old(log)@.len() > 0 && old(log)@.last().0 == step) ==> final(log)@ == old(log)@.push((step, stats)),
        old(log)@.len() > 1 ==> final(log)@[0] == old(log)@[0],
        forall|k: int| k > 0 && #[trigger] log_keys_on(old(log)@, k) && step as int % k == 0
            ==> log_keys_on(final(log)@, k),
        forall|k: int| k > 0 && #[trigger] log_keys_on(old(log)@, k) ==> log_keys_on_but_last(final(log)@, k),
        log_non_increasing(old(log)@) && log_at_least(old(log)@, stats.solution_distance as int)
            ==> log_non_increasing(final(log)@) && log_at_least(final(log)@, stats.solution_distance as int),
        log_counts_non_decreasing(old(log)@) && log_counts_at_most(old(log)@, stats.evaluated_solutions as int)
            ==> log_counts_non_decreasing(final(log)@) && log_counts_at_most(final(log)@, stats.evaluated_solutions as int),
{
    let ghost before = log@;
    let len = log.len();
    if len > 0 && log[len - 1].0 == step {
        log.pop();
        log.push((step, stats));
        assert(log@ =~= old(log)@.drop_last().push((step, stats)));
    } else {
        log.push((step, stats));
    }
    proof {
        assert forall|k: int| k > 0 && #[trigger] log_keys_on(before, k) implies log_keys_on_but_last(log@, k) by {
            assert forall|i: int| 0 <= i < log@.len() - 1 implies (#[trigger] log@[i]).0 as int % k == 0 by {
                assert(log@[i] == before[i]);
            }
        }
        assert forall|k: int| k > 0 && #[trigger] log_keys_on(before, k) && step as int % k == 0
            implies log_keys_on(log@, k) by {
            assert forall|i: int| 0 <= i < log@.len() implies (#[trigger] log@[i]).0 as int % k == 0 by {
                if i < log@.len() - 1 {
                    assert(log@[i] == before[i]);
                }
            }
        }
        if log_non_increasing(before) && log_at_least(before, stats.solution_distance as int) {
            lemma_record_keeps_order(before, log@, (step, stats));
        }
        if log_counts_non_decreasing(before) && log_counts_at_most(before, stats.evaluated_solutions as int) {
            assert forall|i: int, j: int| 0 <= i < j < log@.len() implies
                #[trigger] log@[i].1.evaluated_solutions <= #[trigger] log@[j].1.evaluated_solutions by {
                assert(log@[i] == before[i]);
                if j < log@.len() - 1 {
                    assert(log@[j] == before[j]);
                }
            }
            assert forall|i: int| 0 <= i < log@.len() implies
                #[trigger] log@[i].1.evaluated_solutions <= stats.evaluated_solutions by {
                if i < log@.len() - 1 {
                    assert(log@[i] == before[i]);
                }
            }
        }
    }
}

/// The length of the tour reached from `s` by move `m`.
pub open spec fn move_len(inst: Instance, s: Seq<i32>, m: Move) -> int {
    inst.tour_len(swapped(s, m.0 as int, m.1 as int))
}

/// `s` has no move that makes it strictly shorter.
pub open spec fn locally_optimal(inst: Instance, s: Seq<i32>) -> bool {
    forall|m: Move| move_ok(m, inst.n()) ==>
        #[trigger] inst.tour_len(swapped(s, m.0 as int, m.1 as int)) >= inst.tour_len(s)
}

/// A rearranged neighbourhood is still a neighbourhood.
pub proof fn lemma_permuted_neighbourhood(before: Seq<Move>, after: Seq<Move>, n: int)
    requires
        is_neighbourhood(before, n),
        after.to_multiset() == before.to_multiset(),
    ensures
        is_neighbourhood(after, n),
        after.len() == before.len(),
{
    vstd::seq_lib::to_multiset_len(after);
    vstd::seq_lib::to_multiset_len(before);
    broadcast use vstd::seq_lib::group_to_multiset_ensures;

    assert forall|k: int| 0 <= k < after.len() implies move_ok(#[trigger] after[k], n) by {
        assert(after.contains(after[k]));
        assert(before.to_multiset().count(after[k]) > 0);
    }
    assert forall|m: Move| move_ok(m, n) implies after.contains(m) by {
        assert(before.contains(m));
        assert(before.to_multiset().count(m) > 0);
    }
    before.lemma_multiset_has_no_duplicates();
    after.lemma_multiset_has_no_duplicates_conv();
}

/// Recording a snapshot of length `d`, no longer than any recorded so far,
/// keeps the recorded lengths non-increasing.
pub proof fn lemma_record_keeps_order(before: Seq<(u64, AlgorithmStepStatistics)>,
    after: Seq<(u64, AlgorithmStepStatistics)>, x: (u64, AlgorithmStepStatistics))
    requires
        log_non_increasing(before),
        log_at_least(before, x.1.solution_distance as int),
        after == before.push(x) || (before.len() > 0 && after == before.drop_last().push(x)),
    ensures
        log_non_increasing(after),
        log_at_least(after, x.1.solution_distance as int),
{
    assert forall|i: int, j: int| 0 <= i < j < after.len() implies
        #[trigger] after[j].1.solution_distance <= #[trigger] after[i].1.solution_distance by {
        assert(after[i] == before[i]);
        if j < after.len() - 1 {
            assert(after[j] == before[j]);
        }
    }
    assert forall|i: int| 0 <= i < after.len() implies #[trigger] after[i].1.solution_distance
        >= x.1.solution_distance by {
        if i < after.len() - 1 {
            assert(after[i] == before[i]);
        }
    }
}

/// One step of a baseline search: `candidate` replaces `current` when its
/// length is strictly shorter. Returns whether it did.
pub fn keep_if_shorter(current: &mut Vec<i32>, current_distance: &mut u64, candidate: Vec<i32>, candidate_distance: u64)
    -> (r: bool)
    ensures
        r == (candidate_distance < *old(current_distance)),
        r ==> final(current)@ == candidate@ && *final(current_distance) == candidate_distance,
        !r ==> final(current)@ == old(current)@ && *final(current_distance) == *old(current_distance),
{
    if candidate_distance < *current_distance {
        *current = candidate;
        *current_distance = candidate_distance;
        true
    } else {
        false
    }
}

} // verus!
