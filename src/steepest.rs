//! Best-improvement local search.

use vstd::prelude::*;
use std::time::Instant;
use rand::rngs::ThreadRng;
use crate::instance::Instance;
use crate::tour::{is_tour, swapped};
use crate::search::{
    move_before,
    log_keys_on, log_keys_on_but_last,
    move_len,
    log_counts_non_decreasing, log_counts_at_most,
    seed_view,
    Algorithm, AlgorithmStepStatistics, Move, NeighbourhoodGenerator, SearchAlgorithm, SearchError,
    apply_move, generate_neighbourhood, get_move_distance, is_neighbourhood,
    load_initial_solution, locally_optimal,
    log_at_least, log_non_increasing, log_ok, last_step, move_ok, record, snapshot,
};

verus! {

/// `m` is the best move from `s`: it makes `s` strictly shorter, no move
/// gives a shorter tour, and every move before it in move order gives a
/// strictly longer one.
pub open spec fn is_best_move(inst: Instance, s: Seq<i32>, m: Move) -> bool {
    &&& move_ok(m, inst.n())
    &&& move_len(inst, s, m) < inst.tour_len(s)
    &&& forall|q: Move| move_ok(q, inst.n()) ==> #[trigger] move_len(inst, s, q) >= move_len(inst, s, m)
    &&& forall|q: Move| move_ok(q, inst.n()) && move_before(q, m) ==> #[trigger] move_len(inst, s, q) > move_len(inst, s, m)
}

/// The tour that best-improvement descent reaches from `s` within `fuel`
/// moves: the best move is applied while one exists.
pub open spec fn steepest_descent(inst: Instance, s: Seq<i32>, fuel: nat) -> Seq<i32>
    decreases fuel,
{
    if fuel == 0 {
        s
    } else if exists|m: Move| is_best_move(inst, s, m) {
        let m = choose|m: Move| is_best_move(inst, s, m);
        steepest_descent(inst, swapped(s, m.0 as int, m.1 as int), (fuel - 1) as nat)
    } else {
        s
    }
}

/// There is at most one best move.
pub proof fn lemma_best_move_unique(inst: Instance, s: Seq<i32>, a: Move, b: Move)
    requires
        is_best_move(inst, s, a),
        is_best_move(inst, s, b),
    ensures
        a == b,
{
    if move_before(a, b) {
        assert(move_len(inst, s, a) > move_len(inst, s, b));
        assert(move_len(inst, s, b) >= move_len(inst, s, a));
    } else if move_before(b, a) {
        assert(move_len(inst, s, b) > move_len(inst, s, a));
        assert(move_len(inst, s, a) >= move_len(inst, s, b));
    }
}

proof fn lemma_descent_step(inst: Instance, s: Seq<i32>, m: Move, fuel: nat)
    requires
        is_best_move(inst, s, m),
        fuel > 0,
    ensures
        steepest_descent(inst, s, fuel) == steepest_descent(inst, swapped(s, m.0 as int, m.1 as int), (fuel - 1) as nat),
{
    let c = choose|c: Move| is_best_move(inst, s, c);
    lemma_best_move_unique(inst, s, c, m);
}

proof fn lemma_descent_stops(inst: Instance, s: Seq<i32>, fuel: nat)
    requires
        locally_optimal(inst, s),
    ensures
        steepest_descent(inst, s, fuel) == s,
{
    if fuel > 0 && exists|m: Move| is_best_move(inst, s, m) {
        let m = choose|m: Move| is_best_move(inst, s, m);
        assert(inst.tour_len(swapped(s, m.0 as int, m.1 as int)) >= inst.tour_len(s));
    }
}

/// The best move of a neighbourhood from `current`: of the moves that give
/// the shortest tour, the first in the neighbourhood's order, with that
/// tour's length; `None` where no move gives a tour shorter than
/// `current_distance`.
pub fn best_improving_move(instance: &Instance, current: &Vec<i32>, current_distance: u64, neighbourhood: &Vec<Move>)
    -> (r: Option<(Move, u64)>)
    requires
        instance.wf(),
        is_tour(current@, instance.n()),
        current_distance == instance.tour_len(current@),
        forall|k: int| 0 <= k < neighbourhood@.len() ==> move_ok(#[trigger] neighbourhood@[k], instance.n()),
    ensures
        r is None <==> forall|q: int| 0 <= q < neighbourhood@.len() ==>
            #[trigger] move_len(*instance, current@, neighbourhood@[q]) >= current_distance,
        r matches Some(x) ==> exists|k: int| 0 <= k < neighbourhood@.len() && #[trigger] neighbourhood@[k] == x.0
            && x.1 == move_len(*instance, current@, x.0)
            && x.1 < current_distance
            && (forall|q: int| 0 <= q < neighbourhood@.len() ==> #[trigger] move_len(*instance, current@, neighbourhood@[q]) >= x.1)
            && (forall|q: int| 0 <= q < k ==> #[trigger] move_len(*instance, current@, neighbourhood@[q]) > x.1),
{
    let mut k: usize = 0;
    let mut chosen: usize = 0;
    let mut chosen_distance: u64 = current_distance;
    let mut found = false;
    while k < neighbourhood.len()
        invariant
            instance.wf(),
            is_tour(current@, instance.n()),
            current_distance == instance.tour_len(current@),
            forall|k: int| 0 <= k < neighbourhood@.len() ==> move_ok(#[trigger] neighbourhood@[k], instance.n()),
            k <= neighbourhood@.len(),
            found == (chosen_distance < current_distance),
            chosen_distance <= current_distance,
            found ==> chosen < k && chosen_distance == move_len(*instance, current@, neighbourhood@[chosen as int]),
            forall|q: int| 0 <= q < k ==> #[trigger] move_len(*instance, current@, neighbourhood@[q]) >= chosen_distance,
            found ==> forall|q: int| 0 <= q < chosen ==> #[trigger] move_len(*instance, current@, neighbourhood@[q]) > chosen_distance,
            !found ==> forall|q: int| 0 <= q < k ==> #[trigger] move_len(*instance, current@, neighbourhood@[q]) >= current_distance,
        decreases neighbourhood@.len() - k,
    {
        let (a, b) = neighbourhood[k];
        assert(move_ok(neighbourhood@[k as int], instance.n()));
        let d = get_move_distance(a, b, instance, current);
        if d < chosen_distance {
            chosen = k;
            chosen_distance = d;
            found = true;
        }
        k = k + 1;
    }
    if found {
        Some((neighbourhood[chosen], chosen_distance))
    } else {
        None
    }
}

/// Best-improvement local search: every pass evaluates the whole
/// neighbourhood and applies the move that shortens the tour most.
pub struct SteepestLocalSearch {
    algorithm_name: String,
    instance: Instance,
    initial_solution: Option<Vec<i32>>,
    rng: ThreadRng,
    logging_interval: u64,
}

impl SearchAlgorithm for SteepestLocalSearch {
    closed spec fn problem(&self) -> Instance {
        self.instance
    }

    closed spec fn seed(&self) -> Option<Seq<i32>> {
        match self.initial_solution {
            Some(s) => Some(s@),
            None => None,
        }
    }

    fn _load_initial_solution(&mut self) -> (r: Result<Vec<i32>, SearchError>) {
        load_initial_solution(&self.instance, &self.initial_solution, &mut self.rng)
    }
}

impl NeighbourhoodGenerator for SteepestLocalSearch {
    fn _generate_neighbourhood(&self) -> (r: Vec<Move>) {
        generate_neighbourhood(self.instance.num_cities())
    }
}

impl SteepestLocalSearch {
    /// Snapshots are taken at step numbers that are multiples of this.
    pub closed spec fn logging_every(&self) -> u64 {
        self.logging_interval
    }
}

impl Algorithm for SteepestLocalSearch {
    closed spec fn instance_of(&self) -> Instance {
        self.instance
    }

    closed spec fn ready(&self) -> bool {
        self.algorithm_name@ == "S"@ && self.instance.wf() && self.logging_interval > 0
    }

    fn new(instance: Instance, _steps: i32, logging_interval: i32, initial_solution: Option<Vec<i32>>) -> (r: Self)
        ensures
            r.problem() == instance,
            r.seed() == seed_view(initial_solution),
            r.logging_every() == logging_interval as u64,
    {
        SteepestLocalSearch {
            algorithm_name: String::from_str("S"),
            instance,
            initial_solution,
            rng: rand::thread_rng(),
            logging_interval: logging_interval as u64,
        }
    }

    fn get_name(&self) -> (r: &String)
        ensures
            r@ == "S"@,
    {
        &self.algorithm_name
    }

    /// Fails only on a supplied starting tour that is not a tour. Otherwise
    /// the recorded lengths never increase and the last snapshot holds a tour
    /// that no single move shortens.
    fn execute(&mut self) -> (r: Result<Vec<(u64, AlgorithmStepStatistics)>, SearchError>)
        ensures
            r is Err <==> (old(self).seed() matches Some(s) && !is_tour(s, old(self).problem().n())),
            r matches Err(e) ==> e == SearchError::InvalidInitialSolution,
            r matches Ok(log) ==> log_keys_on_but_last(log@, old(self).logging_every() as int)
                && log_non_increasing(log@) && log_counts_non_decreasing(log@)
                && locally_optimal(old(self).problem(), log@.last().1.solution@)
                && 2 * log@.last().1.evaluated_solutions >= old(self).problem().n() * (old(self).problem().n() - 1)
                && log@[0].0 == 0
                && log@.last().0 + log@.last().1.solution_distance <= old(self).problem().tour_len(log@[0].1.solution@)
                && (old(self).seed() matches Some(s) ==> log@[0].1.solution@ == s)
                && (old(self).seed() matches Some(s) ==> log@.last().1.solution@
                    == steepest_descent(old(self).problem(), s, (old(self).problem().tour_len(s) + 1) as nat)),
    {
        let start = Instant::now();
        let loaded = load_initial_solution(&self.instance, &self.initial_solution, &mut self.rng);
        let mut current = match loaded {
            Ok(t) => t,
            Err(e) => {
                return Err(e);
            },
        };
        let ghost inst = self.instance;
        let ghost n = inst.n();
        let mut current_distance = self.instance.get_solution_distance(&current);
        let ghost first = current@;
        let ghost first_distance = current_distance;
        let mut improved = true;
        let mut step: u64 = 0;
        let mut evaluated: u64 = 0;
        let mut neighbourhood = generate_neighbourhood(self.instance.num_cities());
        let mut log: Vec<(u64, AlgorithmStepStatistics)> = Vec::new();

        while improved
            invariant
                inst == self.instance,
                self.algorithm_name == old(self).algorithm_name,
                self.logging_interval == old(self).logging_interval,
                inst.wf(),
                n == inst.n(),
                self.logging_interval > 0,
                is_tour(current@, n),
                current_distance == inst.tour_len(current@),
                is_neighbourhood(neighbourhood@, n),
                2 * neighbourhood@.len() == n * (n - 1),
                !improved ==> evaluated >= neighbourhood@.len(),
                log_ok(inst, log@),
                log_non_increasing(log@),
                log_keys_on(log@, self.logging_interval as int),
                log_counts_non_decreasing(log@),
                log_counts_at_most(log@, evaluated as int),
                log_at_least(log@, current_distance as int),
                last_step(log@) <= step,
                step == 0 ==> current@ == first,
                step as int + current_distance <= first_distance,
                log@.len() > 0 ==> log@[0].0 == 0 && log@[0].1.solution@ == first,
                !improved ==> locally_optimal(inst, current@),
                !improved ==> log@.len() > 0,
                log@.len() == 0 ==> step == 0,
                forall|a: int, b: int| 0 <= a < b < neighbourhood@.len() ==>
                    move_before(#[trigger] neighbourhood@[a], #[trigger] neighbourhood@[b]),
                steepest_descent(inst, current@, (first_distance + 1 - step) as nat)
                    == steepest_descent(inst, first, (first_distance + 1) as nat),
                !improved ==> steepest_descent(inst, first, (first_distance + 1) as nat) == current@,
            decreases 2 * current_distance + if improved { 1int } else { 0 },
        {
            proof {
                if log@.len() == 0 {
                    assert(step % self.logging_interval == 0) by (nonlinear_arith)
                        requires step == 0, self.logging_interval > 0;
                }
            }
            if step % self.logging_interval == 0 {
                let stats = snapshot(&self.instance, &current, evaluated, &start);
                record(&mut log, step, stats, Ghost(inst));
            }
            improved = false;
            let found = best_improving_move(&self.instance, &current, current_distance, &neighbourhood);
            evaluated = evaluated.saturating_add(neighbourhood.len() as u64);
            match found {
                Some((m, d)) => {
                    proof {
                        let k = choose|k: int| 0 <= k < neighbourhood@.len() && #[trigger] neighbourhood@[k] == m
                            && d == move_len(inst, current@, m) && d < current_distance
                            && (forall|q: int| 0 <= q < neighbourhood@.len() ==> #[trigger] move_len(inst, current@, neighbourhood@[q]) >= d)
                            && (forall|q: int| 0 <= q < k ==> #[trigger] move_len(inst, current@, neighbourhood@[q]) > d);
                        assert(move_ok(neighbourhood@[k], n));
                        assert forall|q: Move| move_ok(q, n) implies #[trigger] move_len(inst, current@, q) >= d by {
                            assert(neighbourhood@.contains(q));
                            let j = choose|j: int| 0 <= j < neighbourhood@.len() && neighbourhood@[j] == q;
                            assert(move_len(inst, current@, neighbourhood@[j]) >= d);
                        }
                        assert forall|q: Move| move_ok(q, n) && move_before(q, m) implies
                            #[trigger] move_len(inst, current@, q) > d by {
                            assert(neighbourhood@.contains(q));
                            let j = choose|j: int| 0 <= j < neighbourhood@.len() && neighbourhood@[j] == q;
                            if j > k {
                                assert(move_before(neighbourhood@[k], neighbourhood@[j]));
                            }
                            assert(j != k);
                            assert(move_len(inst, current@, neighbourhood@[j]) > d);
                        }
                        assert(is_best_move(inst, current@, m));
                        lemma_descent_step(inst, current@, m, (first_distance + 1 - step) as nat);
                    }
                    apply_move(&mut current, m.0, m.1, Ghost(n));
                    current_distance = d;
                    step = step + 1;
                    improved = true;
                },
                None => {
                    assert forall|m: Move| move_ok(m, n) implies
                        #[trigger] inst.tour_len(swapped(current@, m.0 as int, m.1 as int))
                        >= inst.tour_len(current@) by {
                        assert(neighbourhood@.contains(m));
                        let q = choose|q: int| 0 <= q < neighbourhood@.len() && neighbourhood@[q] == m;
                        assert(move_len(inst, current@, neighbourhood@[q]) >= current_distance);
                    }
                    proof {
                        lemma_descent_stops(inst, current@, (first_distance + 1 - step) as nat);
                    }
                },
            }
        }
        let stats = snapshot(&self.instance, &current, evaluated, &start);
        record(&mut log, step, stats, Ghost(inst));
        Ok(log)
    }
}

} // verus!
