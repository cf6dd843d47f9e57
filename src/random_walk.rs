//! Random walk baseline.

use vstd::prelude::*;
use std::time::Instant;
use rand::rngs::ThreadRng;
use crate::instance::Instance;
use crate::tour::{is_tour, swapped};
use crate::random::gen_below;
use crate::search::{
    log_keys_on, log_keys_on_but_last,
    keep_if_shorter,
    log_counts_non_decreasing, log_counts_at_most,
    seed_view,
    Algorithm, AlgorithmStepStatistics, SearchAlgorithm, SearchError,
    apply_move, copy_tour, load_initial_solution, log_at_least, log_non_increasing, log_ok, last_step, record, snapshot,
};

verus! {

/// One step of the walk from the two drawn positions: the tour with them
/// exchanged replaces `current` when it is strictly shorter. Returns whether
/// it did.
pub fn walk_step(instance: &Instance, current: &mut Vec<i32>, current_distance: &mut u64, index1: usize, index2: usize)
    -> (r: bool)
    requires
        instance.wf(),
        is_tour(old(current)@, instance.n()),
        *old(current_distance) == instance.tour_len(old(current)@),
        index1 < instance.n(),
        index2 < instance.n(),
    ensures
        r == (instance.tour_len(swapped(old(current)@, index1 as int, index2 as int)) < *old(current_distance)),
        r ==> final(current)@ == swapped(old(current)@, index1 as int, index2 as int),
        !r ==> final(current)@ == old(current)@,
        *final(current_distance) == instance.tour_len(final(current)@),
        is_tour(final(current)@, instance.n()),
{
    let mut solution = copy_tour(current);
    apply_move(&mut solution, index1, index2, Ghost(instance.n()));
    let distance = instance.get_solution_distance(&solution);
    keep_if_shorter(current, current_distance, solution, distance)
}

/// Baseline that exchanges two random positions at every step and keeps the
/// result when it is shorter than the current tour.
pub struct RandomWalk {
    algorithm_name: String,
    instance: Instance,
    steps: u64,
    initial_solution: Option<Vec<i32>>,
    rng: ThreadRng,
    logging_interval: u64,
}

impl SearchAlgorithm for RandomWalk {
    closed spec fn problem(&self) -> Instance {
        self.instance
    }

    closed spec fn seed(&self) -> Option<Seq<i32>> {
        match self.initial_solution {
            Some(s) => Some(s@),
            None => None,
        }
    }

    fn _load_initial_solution(&mut self) -> (r: Result<Vec<i32>, SearchError>) {
        load_initial_solution(&self.instance, &self.initial_solution, &mut self.rng)
    }
}

impl RandomWalk {
    /// Number of steps a run takes.
    pub closed spec fn step_budget(&self) -> u64 {
        self.steps
    }
}

impl RandomWalk {
    /// Snapshots are taken at step numbers that are multiples of this.
    pub closed spec fn logging_every(&self) -> u64 {
        self.logging_interval
    }
}

impl Algorithm for RandomWalk {
    closed spec fn instance_of(&self) -> Instance {
        self.instance
    }

    closed spec fn ready(&self) -> bool {
        self.algorithm_name@ == "RW"@ && self.instance.wf() && self.logging_interval > 0
    }

    fn new(instance: Instance, steps: i32, logging_interval: i32, initial_solution: Option<Vec<i32>>) -> (r: Self)
        ensures
            r.problem() == instance,
            r.seed() == seed_view(initial_solution),
            r.logging_every() == logging_interval as u64,
            r.step_budget() == steps as u64,
    {
        RandomWalk {
            algorithm_name: String::from_str("RW"),
            instance,
            steps: steps as u64,
            initial_solution,
            rng: rand::thread_rng(),
            logging_interval: logging_interval as u64,
        }
    }

    fn get_name(&self) -> (r: &String)
        ensures
            r@ == "RW"@,
    {
        &self.algorithm_name
    }

    /// Fails on a supplied starting tour that is not a tour and on an
    /// instance without cities. Otherwise the recorded lengths never
    /// increase and the last snapshot is recorded under the step budget.
    fn execute(&mut self) -> (r: Result<Vec<(u64, AlgorithmStepStatistics)>, SearchError>)
        ensures
            (old(self).seed() matches Some(s) && !is_tour(s, old(self).problem().n()))
                ==> r == Err::<Vec<(u64, AlgorithmStepStatistics)>, SearchError>(SearchError::InvalidInitialSolution),
            !(old(self).seed() matches Some(s) && !is_tour(s, old(self).problem().n())) && old(self).problem().n() == 0
                ==> r == Err::<Vec<(u64, AlgorithmStepStatistics)>, SearchError>(SearchError::EmptyInstance),
            r is Ok <==> !(old(self).seed() matches Some(s) && !is_tour(s, old(self).problem().n()))
                && old(self).problem().n() > 0,
            r matches Ok(log) ==> log_keys_on_but_last(log@, old(self).logging_every() as int)
                && log_non_increasing(log@) && log_counts_non_decreasing(log@)
                && log@.last().0 == old(self).step_budget()
                && log@.last().1.evaluated_solutions == old(self).step_budget()
                && (old(self).seed() matches Some(s) ==> log@.last().1.solution_distance <= old(self).problem().tour_len(s)),
    {
        let start = Instant::now();
        let loaded = load_initial_solution(&self.instance, &self.initial_solution, &mut self.rng);
        let mut current = match loaded {
            Ok(t) => t,
            Err(e) => {
                return Err(e);
            },
        };
        let n = self.instance.num_cities();
        if n == 0 {
            return Err(SearchError::EmptyInstance);
        }
        let ghost inst = self.instance;
        let mut current_distance = self.instance.get_solution_distance(&current);
        let ghost first = current@;
        let ghost first_distance = current_distance;
        let mut step: u64 = 0;
        let mut evaluated: u64 = 0;
        let mut log: Vec<(u64, AlgorithmStepStatistics)> = Vec::new();
        let mut i: u64 = 0;
        while i < self.steps
            invariant
                inst == self.instance,
                self.algorithm_name == old(self).algorithm_name,
                self.logging_interval == old(self).logging_interval,
                inst == old(self).instance,
                self.steps == old(self).steps,
                self.logging_interval > 0,
                inst.wf(),
                n == inst.n() <= crate::instance::MAX_CITIES,
                n > 0,
                i <= self.steps,
                step <= i,
                evaluated == i,
                is_tour(current@, n as int),
                current_distance == inst.tour_len(current@),
                current_distance <= first_distance,
                first_distance == inst.tour_len(first),
                old(self).seed() matches Some(s) ==> first == s,
                log_ok(inst, log@),
                log_non_increasing(log@),
                log_keys_on(log@, self.logging_interval as int),
                log_counts_non_decreasing(log@),
                log_counts_at_most(log@, evaluated as int),
                log_at_least(log@, current_distance as int),
                last_step(log@) <= step,
            decreases self.steps - i,
        {
            i = i + 1;
            evaluated = evaluated + 1;
            if step % self.logging_interval == 0 {
                let stats = snapshot(&self.instance, &current, evaluated, &start);
                record(&mut log, step, stats, Ghost(inst));
            }
            let index1 = gen_below(&mut self.rng, n as u64) as usize;
            let index2 = gen_below(&mut self.rng, n as u64) as usize;
            if walk_step(&self.instance, &mut current, &mut current_distance, index1, index2) {
                step = step + 1;
            }
        }
        let stats = snapshot(&self.instance, &current, evaluated, &start);
        record(&mut log, self.steps, stats, Ghost(inst));
        Ok(log)
    }
}

} // verus!
