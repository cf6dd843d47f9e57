//! Simulated annealing with a heating and a cooling phase.

use vstd::prelude::*;
use std::time::Instant;
use rand::rngs::ThreadRng;
use crate::geometry::UNIT;
use crate::instance::Instance;
use crate::tour::{is_tour, swapped};
use crate::random::{choose_pair, gen_below};
use crate::search::{
    log_keys_on, log_keys_on_but_last,
    move_len,
    log_counts_non_decreasing, log_counts_at_most,
    seed_view,
    Algorithm, AlgorithmStepStatistics, Move, NeighbourhoodGenerator, SearchAlgorithm, SearchError,
    apply_move, copy_tour, generate_neighbourhood, get_move_distance, is_neighbourhood,
    load_initial_solution, log_at_least, log_non_increasing, log_ok, last_step,
    move_ok, record, snapshot,
};

verus! {

/// Most terms drawn by the series sampler for `exp(-x)`; the chance of
/// needing more is below one in 64 factorial.
pub const MAX_SERIES_TERMS: u64 = 64;

/// Draws `true` with probability `num / den`.
fn bernoulli_ratio(rng: &mut ThreadRng, num: u64, den: u64) -> (r: bool)
    requires
        den > 0,
    ensures
        num == 0 ==> !r,
        num >= den ==> r,
{
    gen_below(rng, den) < num
}

/// Draws `true` with probability `exp(-num / den)`, for `num <= den`: the
/// series draws `Bernoulli(num / (den * k))` for `k = 1, 2, ...` until one
/// fails, and answers whether that took an odd number of draws.
fn bernoulli_exp_fraction(rng: &mut ThreadRng, num: u64, den: u64) -> (r: bool)
    requires
        den > 0,
        num <= den,
    ensures
        num == 0 ==> r,
{
    let mut k: u64 = 1;
    while k < MAX_SERIES_TERMS
        invariant
            1 <= k <= MAX_SERIES_TERMS,
            den > 0,
            num == 0 ==> k == 1,
        decreases MAX_SERIES_TERMS - k,
    {
        let hit = bernoulli_ratio(rng, num, den) && gen_below(rng, k) == 0;
        if !hit {
            break;
        }
        k = k + 1;
    }
    k % 2 == 1
}

/// Draws `true` with probability `exp(-num / den)`.
pub fn bernoulli_exp_minus(rng: &mut ThreadRng, num: u64, den: u64) -> (r: bool)
    requires
        den > 0,
    ensures
        num == 0 ==> r,
{
    let whole = num / den;
    let frac = num % den;
    assert(num == 0 ==> whole == 0 && frac == 0) by (nonlinear_arith)
        requires den > 0, whole == num / den, frac == num % den;
    let mut i: u64 = 0;
    while i < whole
        invariant
            i <= whole,
            den > 0,
            num == 0 ==> whole == 0,
        decreases whole - i,
    {
        if !bernoulli_exp_fraction(rng, 1, 1) {
            return false;
        }
        i = i + 1;
    }
    bernoulli_exp_fraction(rng, frac, den)
}

/// The Metropolis rule: a candidate no longer than the current tour is
/// always accepted; a longer one with probability
/// `exp(-(candidate - current) / temperature)`, never at temperature zero.
pub fn metropolis_accepts(rng: &mut ThreadRng, current: u64, candidate: u64, temperature: u64) -> (r: bool)
    ensures
        candidate <= current ==> r,
        temperature == 0 && candidate > current ==> !r,
{
    if candidate <= current {
        true
    } else if temperature == 0 {
        false
    } else {
        bernoulli_exp_minus(rng, candidate - current, temperature)
    }
}

/// Temperature after one heating round: ten percent higher, held once it
/// would leave the machine range.
pub fn heat(temperature: u64) -> (r: u64)
    ensures
        temperature <= u64::MAX / 11 ==> r == temperature * 11 / 10,
        temperature > u64::MAX / 11 ==> r == temperature,
{
    if temperature <= u64::MAX / 11 {
        temperature * 11 / 10
    } else {
        temperature
    }
}

/// Temperature after one cooling round: one percent lower, rounded down.
pub fn cool(temperature: u64) -> (r: u64)
    ensures
        r == temperature * 99 / 100,
{
    (temperature as u128 * 99 / 100) as u64
}

/// Whether a heating round that accepted `accepted` of `trials` moves ends
/// the heating: at least 95 percent were accepted.
pub fn heating_done(accepted: u64, trials: u64) -> (r: bool)
    requires
        trials <= 1_000_000_000,
        accepted <= trials,
    ensures
        r == (accepted * 100 >= trials * 95),
{
    accepted * 100 >= trials * 95
}

/// Whether cooling stops: the temperature is below one hundredth of a unit
/// and the best tour has not improved for more trials than there are cities.
pub fn cooling_done(temperature: u64, no_improvement: u64, n: u64) -> (r: bool)
    ensures
        r == (temperature < UNIT / 100 && no_improvement > n),
{
    temperature < UNIT / 100 && no_improvement > n
}

/// Most cooling rounds a run takes; no instance comes near it.
pub const MAX_COOLING_ROUNDS: u64 = 1_099_511_627_776;

/// One cooling trial for the drawn move `m`, whose tour has length
/// `candidate_distance`, and the drawn acceptance `accepted`: an accepted
/// move is applied; then a current tour shorter than the best becomes the
/// best and resets `no_improvement`, and otherwise `no_improvement` grows by
/// one (held at its largest value). Returns `accepted`.
pub fn cooling_trial(
    instance: &Instance,
    current: &mut Vec<i32>,
    current_distance: &mut u64,
    best: &mut Vec<i32>,
    best_distance: &mut u64,
    no_improvement: &mut u64,
    m: Move,
    candidate_distance: u64,
    accepted: bool,
) -> (r: bool)
    requires
        instance.wf(),
        is_tour(old(current)@, instance.n()),
        *old(current_distance) == instance.tour_len(old(current)@),
        is_tour(old(best)@, instance.n()),
        *old(best_distance) == instance.tour_len(old(best)@),
        move_ok(m, instance.n()),
        candidate_distance == move_len(*instance, old(current)@, m),
    ensures
        r == accepted,
        accepted ==> final(current)@ == swapped(old(current)@, m.0 as int, m.1 as int)
            && *final(current_distance) == candidate_distance,
        !accepted ==> final(current)@ == old(current)@ && *final(current_distance) == *old(current_distance),
        is_tour(final(current)@, instance.n()),
        *final(current_distance) == instance.tour_len(final(current)@),
        is_tour(final(best)@, instance.n()),
        *final(best_distance) == instance.tour_len(final(best)@),
        *final(current_distance) < *old(best_distance) ==> final(best)@ == final(current)@
            && *final(best_distance) == *final(current_distance) && *final(no_improvement) == 0,
        *final(current_distance) >= *old(best_distance) ==> final(best)@ == old(best)@
            && *final(best_distance) == *old(best_distance)
            && *final(no_improvement) == if *old(no_improvement) < u64::MAX { *old(no_improvement) + 1 } else { u64::MAX as int },
{
    if accepted {
        apply_move(current, m.0, m.1, Ghost(instance.n()));
        *current_distance = candidate_distance;
    }
    if *current_distance < *best_distance {
        *best = copy_tour(current);
        *best_distance = *current_distance;
        *no_improvement = 0;
    } else {
        *no_improvement = no_improvement.saturating_add(1);
    }
    accepted
}

/// Simulated annealing: a heating phase raises the temperature until nearly
/// every random move is accepted, then a cooling phase lowers it while
/// tracking the best tour found.
pub struct SimmulatedAnnealing {
    algorithm_name: String,
    instance: Instance,
    initial_solution: Option<Vec<i32>>,
    rng: ThreadRng,
    logging_interval: u64,
}

impl SimmulatedAnnealing {
    /// Two runs agree on everything but the state of their generators.
    pub closed spec fn same_settings(&self, other: &Self) -> bool {
        &&& self.instance == other.instance
        &&& self.initial_solution == other.initial_solution
        &&& self.logging_interval == other.logging_interval
        &&& self.algorithm_name == other.algorithm_name
    }

    /// Probability of accepting a candidate, as the Metropolis rule gives it,
    /// drawn once: whether the candidate is accepted.
    pub fn acceptance_probability(&mut self, current_energy: u64, new_energy: u64, temperature: u64) -> (r: bool)
        ensures
            new_energy <= current_energy ==> r,
            temperature == 0 && new_energy > current_energy ==> !r,
            final(self).same_settings(old(self)),
    {
        metropolis_accepts(&mut self.rng, current_energy, new_energy, temperature)
    }
}

impl SearchAlgorithm for SimmulatedAnnealing {
    closed spec fn problem(&self) -> Instance {
        self.instance
    }

    closed spec fn seed(&self) -> Option<Seq<i32>> {
        match self.initial_solution {
            Some(s) => Some(s@),
            None => None,
        }
    }

    fn _load_initial_solution(&mut self) -> (r: Result<Vec<i32>, SearchError>) {
        load_initial_solution(&self.instance, &self.initial_solution, &mut self.rng)
    }
}

impl NeighbourhoodGenerator for SimmulatedAnnealing {
    fn _generate_neighbourhood(&self) -> (r: Vec<Move>) {
        generate_neighbourhood(self.instance.num_cities())
    }
}

impl SimmulatedAnnealing {
    /// Snapshots are taken at step numbers that are multiples of this.
    pub closed spec fn logging_every(&self) -> u64 {
        self.logging_interval
    }
}

impl Algorithm for SimmulatedAnnealing {
    closed spec fn instance_of(&self) -> Instance {
        self.instance
    }

    closed spec fn ready(&self) -> bool {
        self.algorithm_name@ == "SA"@ && self.instance.wf() && self.logging_interval > 0
    }

    fn new(instance: Instance, _steps: i32, logging_interval: i32, initial_solution: Option<Vec<i32>>) -> (r: Self)
        ensures
            r.problem() == instance,
            r.seed() == seed_view(initial_solution),
            r.logging_every() == logging_interval as u64,
    {
        SimmulatedAnnealing {
            algorithm_name: String::from_str("SA"),
            instance,
            initial_solution,
            rng: rand::thread_rng(),
            logging_interval: logging_interval as u64,
        }
    }

    fn get_name(&self) -> (r: &String)
        ensures
            r@ == "SA"@,
    {
        &self.algorithm_name
    }

    /// Fails on a supplied starting tour that is not a tour, and on an
    /// instance with fewer than two cities. Otherwise every snapshot, all
    /// taken while cooling, holds the best tour found so far, so the recorded
    /// lengths never increase.
    fn execute(&mut self) -> (r: Result<Vec<(u64, AlgorithmStepStatistics)>, SearchError>)
        ensures
            (old(self).seed() matches Some(s) && !is_tour(s, old(self).problem().n()))
                ==> r == Err::<Vec<(u64, AlgorithmStepStatistics)>, SearchError>(SearchError::InvalidInitialSolution),
            !(old(self).seed() matches Some(s) && !is_tour(s, old(self).problem().n())) && old(self).problem().n() < 2
                ==> r == Err::<Vec<(u64, AlgorithmStepStatistics)>, SearchError>(SearchError::EmptyNeighbourhood),
            r is Ok <==> !(old(self).seed() matches Some(s) && !is_tour(s, old(self).problem().n()))
                && old(self).problem().n() >= 2,
            r matches Ok(log) ==> log_keys_on_but_last(log@, old(self).logging_every() as int)
                && log_non_increasing(log@) && log_counts_non_decreasing(log@) && log@[0].0 == 0
                && log@.last().1.evaluated_solutions > 0
                && (forall|i: int| 0 <= i < log@.len() ==>
                    (#[trigger] log@[i]).1.evaluated_solutions as int % (2 * old(self).problem().n()) == 0)
                && (old(self).seed() matches Some(s) ==> log@[0].1.solution_distance <= old(self).problem().tour_len(s)),
    {
        let start = Instant::now();
        let loaded = load_initial_solution(&self.instance, &self.initial_solution, &mut self.rng);
        let mut current = match loaded {
            Ok(t) => t,
            Err(e) => {
                return Err(e);
            },
        };
        let n = self.instance.num_cities();
        if n < 2 {
            return Err(SearchError::EmptyNeighbourhood);
        }
        let ghost inst = self.instance;
        let neighbourhood = generate_neighbourhood(n);
        assert(neighbourhood@.contains((0usize, 1usize)));
        let mut current_distance = self.instance.get_solution_distance(&current);
        let ghost first = current@;
        let ghost first_distance = current_distance;
        let best_start = copy_tour(&current);
        let mut best = best_start;
        let mut best_distance = current_distance;

        let mut step: u64 = 0;
        let mut evaluated: u64 = 0;
        let mut temperature: u64 = UNIT;
        let mut no_improvement: u64 = 0;
        let max_iterations: usize = 2 * n;

        let mut heating = true;
        let mut rounds: u64 = 0;
        while heating && rounds < u64::MAX
            invariant
                inst == self.instance,
                self.algorithm_name == old(self).algorithm_name,
                inst == old(self).instance,
                self.initial_solution == old(self).initial_solution,
                self.logging_interval == old(self).logging_interval,
                inst.wf(),
                n == inst.n(),
                2 <= n <= crate::instance::MAX_CITIES,
                max_iterations == 2 * n,
                is_neighbourhood(neighbourhood@, n as int),
                neighbourhood@.len() > 0,
                is_tour(current@, n as int),
                current_distance == inst.tour_len(current@),
            decreases u64::MAX - rounds,
        {
            rounds = rounds + 1;
            let mut accepted: u64 = 0;
            let mut t: usize = 0;
            while t < max_iterations
                invariant
                    inst == self.instance,
                    self.algorithm_name == old(self).algorithm_name,
                    inst == old(self).instance,
                    self.initial_solution == old(self).initial_solution,
                    self.logging_interval == old(self).logging_interval,
                    inst.wf(),
                    n == inst.n(),
                    is_neighbourhood(neighbourhood@, n as int),
                    neighbourhood@.len() > 0,
                    is_tour(current@, n as int),
                    current_distance == inst.tour_len(current@),
                    t <= max_iterations,
                    accepted <= t,
                decreases max_iterations - t,
            {
                let m = choose_pair(&neighbourhood, &mut self.rng).unwrap();
                assert(move_ok(m, n as int)) by {
                    let k = choose|k: int| 0 <= k < neighbourhood@.len() && neighbourhood@[k] == m;
                    assert(move_ok(neighbourhood@[k], n as int));
                }
                let d = get_move_distance(m.0, m.1, &self.instance, &current);
                if self.acceptance_probability(current_distance, d, temperature) {
                    accepted = accepted + 1;
                    apply_move(&mut current, m.0, m.1, Ghost(n as int));
                    current_distance = d;
                }
                t = t + 1;
            }
            if heating_done(accepted, max_iterations as u64) {
                heating = false;
            } else {
                temperature = heat(temperature);
            }
        }

        let mut log: Vec<(u64, AlgorithmStepStatistics)> = Vec::new();
        let mut cooling = true;
        let mut rounds: u64 = 0;
        while cooling && rounds < MAX_COOLING_ROUNDS
            invariant
                rounds <= MAX_COOLING_ROUNDS,
                evaluated == rounds * max_iterations,
                !cooling ==> rounds > 0,
                best_distance <= first_distance,
                log@.len() > 0 ==> log@[0].1.solution_distance <= first_distance,
                forall|i: int| 0 <= i < log@.len() ==> (#[trigger] log@[i]).1.evaluated_solutions as int % max_iterations as int == 0,
                inst == self.instance,
                self.algorithm_name == old(self).algorithm_name,
                inst == old(self).instance,
                self.initial_solution == old(self).initial_solution,
                self.logging_interval == old(self).logging_interval,
                self.logging_interval > 0,
                inst.wf(),
                n == inst.n(),
                2 <= n <= crate::instance::MAX_CITIES,
                max_iterations == 2 * n,
                is_neighbourhood(neighbourhood@, n as int),
                neighbourhood@.len() > 0,
                is_tour(current@, n as int),
                current_distance == inst.tour_len(current@),
                is_tour(best@, n as int),
                best_distance == inst.tour_len(best@),
                log_ok(inst, log@),
                log_non_increasing(log@),
                log_keys_on(log@, self.logging_interval as int),
                log_counts_non_decreasing(log@),
                log_counts_at_most(log@, evaluated as int),
                log_at_least(log@, best_distance as int),
                last_step(log@) <= step,
                log@.len() == 0 ==> step == 0,
                log@.len() > 0 ==> log@[0].0 == 0,
            decreases MAX_COOLING_ROUNDS - rounds,
        {
            let ghost log_before = log@;
            rounds = rounds + 1;
            proof {
                assert(evaluated == (rounds - 1) * max_iterations);
                vstd::arithmetic::div_mod::lemma_mod_multiples_basic((rounds - 1) as int, max_iterations as int);
                if log@.len() == 0 {
                    assert(step % self.logging_interval == 0) by (nonlinear_arith)
                        requires step == 0, self.logging_interval > 0;
                }
            }
            if step % self.logging_interval == 0 {
                let stats = snapshot(&self.instance, &best, evaluated, &start);
                record(&mut log, step, stats, Ghost(inst));
                assert forall|i: int| 0 <= i < log@.len() implies
                    (#[trigger] log@[i]).1.evaluated_solutions as int % max_iterations as int == 0 by {
                    if i < log@.len() - 1 {
                        assert(log@[i] == log_before[i]);
                    }
                }
            }
            let ghost step_before = step;
            let mut t: usize = 0;
            while t < max_iterations
                invariant
                    inst == self.instance,
                    self.algorithm_name == old(self).algorithm_name,
                    inst == old(self).instance,
                    self.initial_solution == old(self).initial_solution,
                    self.logging_interval == old(self).logging_interval,
                    inst.wf(),
                    n == inst.n(),
                    is_neighbourhood(neighbourhood@, n as int),
                    neighbourhood@.len() > 0,
                    is_tour(current@, n as int),
                    current_distance == inst.tour_len(current@),
                    is_tour(best@, n as int),
                    best_distance == inst.tour_len(best@),
                    step >= step_before,
                    1 <= rounds <= MAX_COOLING_ROUNDS,
                    max_iterations == 2 * n,
                    2 <= n <= crate::instance::MAX_CITIES,
                    evaluated == (rounds - 1) * max_iterations + t,
                    best_distance <= first_distance,
                    log_at_least(log@, best_distance as int),
                    log_counts_at_most(log@, evaluated as int),
                    t <= max_iterations,
                decreases max_iterations - t,
            {
                let m = choose_pair(&neighbourhood, &mut self.rng).unwrap();
                assert(move_ok(m, n as int)) by {
                    let k = choose|k: int| 0 <= k < neighbourhood@.len() && neighbourhood@[k] == m;
                    assert(move_ok(neighbourhood@[k], n as int));
                }
                let d = get_move_distance(m.0, m.1, &self.instance, &current);
                assert(evaluated + 1 <= MAX_COOLING_ROUNDS * max_iterations) by (nonlinear_arith)
                    requires evaluated == (rounds - 1) * max_iterations + t, t < max_iterations,
                        1 <= rounds <= MAX_COOLING_ROUNDS;
                evaluated = evaluated + 1;
                let accepted = self.acceptance_probability(current_distance, d, temperature);
                if cooling_trial(&self.instance, &mut current, &mut current_distance, &mut best, &mut best_distance,
                    &mut no_improvement, m, d, accepted) {
                    step = step.saturating_add(1);
                }
                t = t + 1;
            }
            assert(evaluated == rounds * max_iterations) by (nonlinear_arith)
                requires evaluated == (rounds - 1) * max_iterations + max_iterations;
            temperature = cool(temperature);
            if cooling_done(temperature, no_improvement, n as u64) {
                cooling = false;
            }
        }

        proof {
            if log@.len() == 0 {
                assert(step == 0);
            }
        }
        let ghost log_before = log@;
        proof {
            vstd::arithmetic::div_mod::lemma_mod_multiples_basic(rounds as int, max_iterations as int);
            assert(rounds * max_iterations > 0) by (nonlinear_arith)
                requires rounds > 0, max_iterations > 0;
        }
        let stats = snapshot(&self.instance, &best, evaluated, &start);
        record(&mut log, step, stats, Ghost(inst));
        assert forall|i: int| 0 <= i < log@.len() implies
            (#[trigger] log@[i]).1.evaluated_solutions as int % max_iterations as int == 0 by {
            if i < log@.len() - 1 {
                assert(log@[i] == log_before[i]);
            }
        }
        Ok(log)
    }
}

} // verus!
