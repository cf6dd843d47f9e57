//! First-improvement local search.

use vstd::prelude::*;
use std::time::Instant;
use rand::rngs::ThreadRng;
use crate::instance::Instance;
use crate::tour::{is_tour, swapped};
use crate::random::shuffle;
use crate::search::{
    log_keys_on, log_keys_on_but_last,
    log_counts_non_decreasing, log_counts_at_most,
    seed_view,
    Algorithm, AlgorithmStepStatistics, Move, NeighbourhoodGenerator, SearchAlgorithm, SearchError,
    apply_move, generate_neighbourhood, get_move_distance, is_neighbourhood,
    lemma_permuted_neighbourhood, load_initial_solution, locally_optimal,
    log_at_least, log_non_increasing, log_ok, last_step, move_ok, record, snapshot,
};

verus! {

/// First-improvement local search: moves are tried in a fresh random order
/// on every pass, and the first one that shortens the tour is applied.
pub struct GreedyLocalSearch {
    algorithm_name: String,
    instance: Instance,
    initial_solution: Option<Vec<i32>>,
    rng: ThreadRng,
    logging_interval: u64,
}

impl SearchAlgorithm for GreedyLocalSearch {
    closed spec fn problem(&self) -> Instance {
        self.instance
    }

    closed spec fn seed(&self) -> Option<Seq<i32>> {
        match self.initial_solution {
            Some(s) => Some(s@),
            None => None,
        }
    }

    fn _load_initial_solution(&mut self) -> (r: Result<Vec<i32>, SearchError>) {
        load_initial_solution(&self.instance, &self.initial_solution, &mut self.rng)
    }
}

impl NeighbourhoodGenerator for GreedyLocalSearch {
    fn _generate_neighbourhood(&self) -> (r: Vec<Move>) {
        generate_neighbourhood(self.instance.num_cities())
    }
}

impl GreedyLocalSearch {
    /// Snapshots are taken at step numbers that are multiples of this.
    pub closed spec fn logging_every(&self) -> u64 {
        self.logging_interval
    }
}

impl Algorithm for GreedyLocalSearch {
    closed spec fn instance_of(&self) -> Instance {
        self.instance
    }

    closed spec fn ready(&self) -> bool {
        self.algorithm_name@ == "G"@ && self.instance.wf() && self.logging_interval > 0
    }

    fn new(instance: Instance, _steps: i32, logging_interval: i32, initial_solution: Option<Vec<i32>>) -> (r: Self)
        ensures
            r.problem() == instance,
            r.seed() == seed_view(initial_solution),
            r.logging_every() == logging_interval as u64,
    {
        GreedyLocalSearch {
            algorithm_name: String::from_str("G"),
            instance,
            initial_solution,
            rng: rand::thread_rng(),
            logging_interval: logging_interval as u64,
        }
    }

    fn get_name(&self) -> (r: &String)
        ensures
            r@ == "G"@,
    {
        &self.algorithm_name
    }

    /// Fails only on a supplied starting tour that is not a tour. Otherwise
    /// the recorded lengths never increase and the last snapshot holds a tour
    /// that no single move shortens.
    fn execute(&mut self) -> (r: Result<Vec<(u64, AlgorithmStepStatistics)>, SearchError>)
        ensures
            r is Err <==> (old(self).seed() matches Some(s) && !is_tour(s, old(self).problem().n())),
            r matches Err(e) ==> e == SearchError::InvalidInitialSolution,
            r matches Ok(log) ==> log_keys_on_but_last(log@, old(self).logging_every() as int)
                && log_non_increasing(log@) && log_counts_non_decreasing(log@)
                && locally_optimal(old(self).problem(), log@.last().1.solution@)
                && 2 * log@.last().1.evaluated_solutions >= old(self).problem().n() * (old(self).problem().n() - 1)
                && log@[0].0 == 0
                && log@.last().0 + log@.last().1.solution_distance <= old(self).problem().tour_len(log@[0].1.solution@)
                && (old(self).seed() matches Some(s) ==> log@[0].1.solution@ == s),
    {
        let start = Instant::now();
        let loaded = load_initial_solution(&self.instance, &self.initial_solution, &mut self.rng);
        let mut current = match loaded {
            Ok(t) => t,
            Err(e) => {
                return Err(e);
            },
        };
        let ghost inst = self.instance;
        let ghost n = inst.n();
        let mut current_distance = self.instance.get_solution_distance(&current);
        let ghost first = current@;
        let ghost first_distance = current_distance;
        let mut improved = true;
        let mut step: u64 = 0;
        let mut evaluated: u64 = 0;
        let mut neighbourhood = generate_neighbourhood(self.instance.num_cities());
        let mut log: Vec<(u64, AlgorithmStepStatistics)> = Vec::new();

        while improved
            invariant
                inst == self.instance,
                self.algorithm_name == old(self).algorithm_name,
                self.logging_interval == old(self).logging_interval,
                inst.wf(),
                n == inst.n(),
                self.logging_interval > 0,
                is_tour(current@, n),
                current_distance == inst.tour_len(current@),
                is_neighbourhood(neighbourhood@, n),
                2 * neighbourhood@.len() == n * (n - 1),
                !improved ==> evaluated >= neighbourhood@.len(),
                log_ok(inst, log@),
                log_non_increasing(log@),
                log_keys_on(log@, self.logging_interval as int),
                log_counts_non_decreasing(log@),
                log_counts_at_most(log@, evaluated as int),
                log_at_least(log@, current_distance as int),
                last_step(log@) <= step,
                step == 0 ==> current@ == first,
                step as int + current_distance <= first_distance,
                log@.len() > 0 ==> log@[0].0 == 0 && log@[0].1.solution@ == first,
                !improved ==> locally_optimal(inst, current@),
                !improved ==> log@.len() > 0,
                log@.len() == 0 ==> step == 0,
            decreases 2 * current_distance + if improved { 1int } else { 0 },
        {
            proof {
                if log@.len() == 0 {
                    assert(step % self.logging_interval == 0) by (nonlinear_arith)
                        requires step == 0, self.logging_interval > 0;
                }
            }
            if step % self.logging_interval == 0 {
                let stats = snapshot(&self.instance, &current, evaluated, &start);
                record(&mut log, step, stats, Ghost(inst));
            }
            improved = false;
            let ghost unshuffled = neighbourhood@;
            shuffle(&mut neighbourhood, &mut self.rng);
            proof {
                lemma_permuted_neighbourhood(unshuffled, neighbourhood@, n);
            }
            let mut k: usize = 0;
            let mut chosen: Move = (0, 0);
            let mut chosen_distance: u64 = 0;
            while k < neighbourhood.len() && !improved
                invariant
                    inst == self.instance,
                    self.algorithm_name == old(self).algorithm_name,
                    self.logging_interval == old(self).logging_interval,
                    inst.wf(),
                    n == inst.n(),
                    is_tour(current@, n),
                    current_distance == inst.tour_len(current@),
                    is_neighbourhood(neighbourhood@, n),
                    k <= neighbourhood@.len(),
                    evaluated >= k,
                    log_counts_at_most(log@, evaluated as int),
                    improved ==> move_ok(chosen, n) && chosen_distance < current_distance
                        && chosen_distance == inst.tour_len(swapped(current@, chosen.0 as int, chosen.1 as int)),
                    !improved ==> forall|q: int| 0 <= q < k ==> #[trigger] inst.tour_len(
                        swapped(current@, neighbourhood@[q].0 as int, neighbourhood@[q].1 as int))
                        >= current_distance,
                decreases neighbourhood@.len() - k,
            {
                let (a, b) = neighbourhood[k];
                assert(move_ok(neighbourhood@[k as int], n));
                evaluated = evaluated.saturating_add(1);
                let d = get_move_distance(a, b, &self.instance, &current);
                if d < current_distance {
                    chosen = (a, b);
                    chosen_distance = d;
                    improved = true;
                }
                k = k + 1;
            }
            if improved {
                apply_move(&mut current, chosen.0, chosen.1, Ghost(n));
                current_distance = chosen_distance;
                step = step + 1;
            } else {
                assert forall|m: Move| move_ok(m, n) implies
                    #[trigger] inst.tour_len(swapped(current@, m.0 as int, m.1 as int))
                    >= inst.tour_len(current@) by {
                    assert(neighbourhood@.contains(m));
                    let q = choose|q: int| 0 <= q < neighbourhood@.len() && neighbourhood@[q] == m;
                    assert(inst.tour_len(swapped(current@, neighbourhood@[q].0 as int,
                        neighbourhood@[q].1 as int)) >= current_distance);
                }
            }
        }
        let stats = snapshot(&self.instance, &current, evaluated, &start);
        record(&mut log, step, stats, Ghost(inst));
        Ok(log)
    }
}

} // verus!
