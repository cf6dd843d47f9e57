//! Tabu search with an elite candidate list and aspiration.

use vstd::prelude::*;
use std::time::Instant;
use rand::rngs::ThreadRng;
use crate::instance::Instance;
use crate::tour::{is_tour, swapped};
use crate::tabu_list::{Candidate, TabuList, select_elite};
use crate::search::{
    log_keys_on, log_keys_on_but_last,
    move_len,
    log_counts_non_decreasing, log_counts_at_most,
    seed_view,
    Algorithm, AlgorithmStepStatistics, Move, NeighbourhoodGenerator, SearchAlgorithm, SearchError,
    apply_move, copy_tour, generate_neighbourhood, get_move_distance, is_neighbourhood,
    load_initial_solution, log_at_least, log_non_increasing, log_ok, last_step,
    move_ok, record, snapshot,
};

verus! {

/// Tabu search: an elite list of the best moves from the current tour is
/// kept between iterations, and recently applied moves are forbidden for a
/// while unless they beat the best tour found.
pub struct TabuSearch {
    algorithm_name: String,
    instance: Instance,
    initial_solution: Option<Vec<i32>>,
    rng: ThreadRng,
    logging_interval: u64,
}

/// Whether the search takes a candidate move: one that is not tabu always,
/// a tabu one only where it is strictly shorter than the best tour found.
pub fn admissible(tabu: &TabuList, m: Move, candidate_distance: u64, best_distance: u64) -> (r: bool)
    requires
        tabu.wf(),
    ensures
        r == (!tabu@.contains_key(m) || candidate_distance < best_distance),
{
    !tabu.contains(m) || candidate_distance < best_distance
}

/// No two candidates carry the same move.
pub open spec fn distinct_moves(c: Seq<Candidate>) -> bool {
    forall|i: int, j: int| 0 <= i < j < c.len() ==> #[trigger] c[i].0 != #[trigger] c[j].0
}

/// Every candidate is a move over `n` cities.
pub open spec fn valid_moves(c: Seq<Candidate>, n: int) -> bool {
    forall|i: int| 0 <= i < c.len() ==> move_ok(#[trigger] c[i].0, n)
}

/// Each candidate carries the length of the tour its move leads to from `s`.
pub open spec fn evaluated_from(inst: Instance, s: Seq<i32>, c: Seq<Candidate>) -> bool {
    forall|i: int| 0 <= i < c.len() ==>
        (#[trigger] c[i]).1 == inst.tour_len(swapped(s, c[i].0.0 as int, c[i].0.1 as int))
}

/// Pairs each move with the length of the tour it leads to from `current`.
pub fn evaluate_moves(instance: &Instance, current: &Vec<i32>, moves: &Vec<Move>) -> (r: Vec<Candidate>)
    requires
        instance.wf(),
        is_tour(current@, instance.n()),
        forall|i: int| 0 <= i < moves@.len() ==> move_ok(#[trigger] moves@[i], instance.n()),
    ensures
        r@.len() == moves@.len(),
        forall|i: int| 0 <= i < r@.len() ==> (#[trigger] r@[i]).0 == moves@[i],
        evaluated_from(*instance, current@, r@),
{
    let mut r: Vec<Candidate> = Vec::new();
    let mut i: usize = 0;
    while i < moves.len()
        invariant
            instance.wf(),
            is_tour(current@, instance.n()),
            forall|i: int| 0 <= i < moves@.len() ==> move_ok(#[trigger] moves@[i], instance.n()),
            i <= moves@.len(),
            r@.len() == i,
            forall|j: int| 0 <= j < i ==> (#[trigger] r@[j]).0 == moves@[j],
            evaluated_from(*instance, current@, r@),
        decreases moves@.len() - i,
    {
        let m = moves[i];
        assert(move_ok(moves@[i as int], instance.n()));
        let d = get_move_distance(m.0, m.1, instance, current);
        r.push((m, d));
        i = i + 1;
    }
    r
}

/// The moves of a list of candidates.
pub fn moves_of(c: &Vec<Candidate>) -> (r: Vec<Move>)
    ensures
        r@.len() == c@.len(),
        forall|i: int| 0 <= i < r@.len() ==> #[trigger] r@[i] == c@[i].0,
{
    let mut r: Vec<Move> = Vec::new();
    let mut i: usize = 0;
    while i < c.len()
        invariant
            i <= c@.len(),
            r@.len() == i,
            forall|j: int| 0 <= j < i ==> #[trigger] r@[j] == c@[j].0,
        decreases c@.len() - i,
    {
        r.push(c[i].0);
        i = i + 1;
    }
    r
}

/// Candidates with distinct moves are distinct.
proof fn lemma_distinct_moves_no_duplicates(c: Seq<Candidate>)
    requires
        distinct_moves(c),
    ensures
        c.no_duplicates(),
{
    assert forall|i: int, j: int| 0 <= i < c.len() && 0 <= j < c.len() && i != j implies c[i] != c[j] by {
        if i < j {
            assert(c[i].0 != c[j].0);
        } else {
            assert(c[j].0 != c[i].0);
        }
    }
}

/// A selection of distinct candidates drawn from a list keeps the list's
/// properties.
proof fn lemma_selection_keeps(inst: Instance, s: Seq<i32>, cands: Seq<Candidate>, sel: Seq<Candidate>)
    requires
        distinct_moves(cands),
        valid_moves(cands, inst.n()),
        evaluated_from(inst, s, cands),
        sel.no_duplicates(),
        forall|j: int| 0 <= j < sel.len() ==> cands.contains(#[trigger] sel[j]),
    ensures
        distinct_moves(sel),
        valid_moves(sel, inst.n()),
        evaluated_from(inst, s, sel),
{
    assert forall|i: int, j: int| 0 <= i < j < sel.len() implies #[trigger] sel[i].0 != #[trigger] sel[j].0 by {
        assert(cands.contains(sel[i]));
        assert(cands.contains(sel[j]));
        let a = choose|a: int| 0 <= a < cands.len() && cands[a] == sel[i];
        let b = choose|b: int| 0 <= b < cands.len() && cands[b] == sel[j];
        assert(sel[i] != sel[j]);
        if a < b {
            assert(cands[a].0 != cands[b].0);
        } else if b < a {
            assert(cands[b].0 != cands[a].0);
        }
    }
    assert forall|i: int| 0 <= i < sel.len() implies move_ok(#[trigger] sel[i].0, inst.n()) by {
        assert(cands.contains(sel[i]));
        let a = choose|a: int| 0 <= a < cands.len() && cands[a] == sel[i];
        assert(move_ok(cands[a].0, inst.n()));
    }
    assert forall|i: int| 0 <= i < sel.len() implies
        (#[trigger] sel[i]).1 == inst.tour_len(swapped(s, sel[i].0.0 as int, sel[i].0.1 as int)) by {
        assert(cands.contains(sel[i]));
        let a = choose|a: int| 0 <= a < cands.len() && cands[a] == sel[i];
        assert(cands[a].1 == inst.tour_len(swapped(s, cands[a].0.0 as int, cands[a].0.1 as int)));
    }
}

/// Takes or refuses the popped candidate move `mv`, of length
/// `candidate_distance`. A move is taken when it is not tabu, or when it is
/// strictly shorter than the best tour found (aspiration). A taken move is
/// applied, becomes tabu for `tenure` iterations, and either sets a new best
/// tour (resetting `no_improvement`) or counts one more iteration without
/// improvement. A refused move changes nothing. Returns whether it was taken.
pub fn take_candidate(
    instance: &Instance,
    tabu: &mut TabuList,
    tenure: u64,
    current: &mut Vec<i32>,
    current_distance: &mut u64,
    best: &mut Vec<i32>,
    best_distance: &mut u64,
    no_improvement: &mut u64,
    mv: Move,
    candidate_distance: u64,
) -> (r: bool)
    requires
        instance.wf(),
        old(tabu).wf(),
        tenure >= 1,
        is_tour(old(current)@, instance.n()),
        *old(current_distance) == instance.tour_len(old(current)@),
        is_tour(old(best)@, instance.n()),
        *old(best_distance) == instance.tour_len(old(best)@),
        move_ok(mv, instance.n()),
        candidate_distance == move_len(*instance, old(current)@, mv),
        *old(no_improvement) < u64::MAX,
    ensures
        r == (!old(tabu)@.contains_key(mv) || candidate_distance < *old(best_distance)),
        final(tabu).wf(),
        is_tour(final(current)@, instance.n()),
        *final(current_distance) == instance.tour_len(final(current)@),
        is_tour(final(best)@, instance.n()),
        *final(best_distance) == instance.tour_len(final(best)@),
        r ==> final(current)@ == swapped(old(current)@, mv.0 as int, mv.1 as int)
            && *final(current_distance) == candidate_distance
            && final(tabu)@ == old(tabu)@.insert(mv, tenure),
        r && candidate_distance < *old(best_distance) ==> final(best)@ == final(current)@
            && *final(best_distance) == candidate_distance && *final(no_improvement) == 0,
        r && candidate_distance >= *old(best_distance) ==> final(best)@ == old(best)@
            && *final(best_distance) == *old(best_distance) && *final(no_improvement) == *old(no_improvement) + 1,
        !r ==> final(current)@ == old(current)@ && *final(current_distance) == *old(current_distance)
            && final(tabu)@ == old(tabu)@ && final(best)@ == old(best)@
            && *final(best_distance) == *old(best_distance) && *final(no_improvement) == *old(no_improvement),
{
    if admissible(tabu, mv, candidate_distance, *best_distance) {
        apply_move(current, mv.0, mv.1, Ghost(instance.n()));
        *current_distance = candidate_distance;
        tabu.insert(mv, tenure);
        if candidate_distance < *best_distance {
            *best = copy_tour(current);
            *best_distance = candidate_distance;
            *no_improvement = 0;
        } else {
            *no_improvement = *no_improvement + 1;
        }
        true
    } else {
        false
    }
}

impl SearchAlgorithm for TabuSearch {
    closed spec fn problem(&self) -> Instance {
        self.instance
    }

    closed spec fn seed(&self) -> Option<Seq<i32>> {
        match self.initial_solution {
            Some(s) => Some(s@),
            None => None,
        }
    }

    fn _load_initial_solution(&mut self) -> (r: Result<Vec<i32>, SearchError>) {
        load_initial_solution(&self.instance, &self.initial_solution, &mut self.rng)
    }
}

impl NeighbourhoodGenerator for TabuSearch {
    fn _generate_neighbourhood(&self) -> (r: Vec<Move>) {
        generate_neighbourhood(self.instance.num_cities())
    }
}

impl TabuSearch {
    /// Snapshots are taken at step numbers that are multiples of this.
    pub closed spec fn logging_every(&self) -> u64 {
        self.logging_interval
    }
}

impl Algorithm for TabuSearch {
    closed spec fn instance_of(&self) -> Instance {
        self.instance
    }

    closed spec fn ready(&self) -> bool {
        self.algorithm_name@ == "TS"@ && self.instance.wf() && self.logging_interval > 0
    }

    fn new(instance: Instance, _steps: i32, logging_interval: i32, initial_solution: Option<Vec<i32>>) -> (r: Self)
        ensures
            r.problem() == instance,
            r.seed() == seed_view(initial_solution),
            r.logging_every() == logging_interval as u64,
    {
        TabuSearch {
            algorithm_name: String::from_str("TS"),
            instance,
            initial_solution,
            rng: rand::thread_rng(),
            logging_interval: logging_interval as u64,
        }
    }

    fn get_name(&self) -> (r: &String)
        ensures
            r@ == "TS"@,
    {
        &self.algorithm_name
    }

    /// Fails on a supplied starting tour that is not a tour, and on an
    /// instance with fewer than two cities. Otherwise every snapshot holds
    /// the best tour found so far, so the recorded lengths never increase.
    fn execute(&mut self) -> (r: Result<Vec<(u64, AlgorithmStepStatistics)>, SearchError>)
        ensures
            (old(self).seed() matches Some(s) && !is_tour(s, old(self).problem().n()))
                ==> r == Err::<Vec<(u64, AlgorithmStepStatistics)>, SearchError>(SearchError::InvalidInitialSolution),
            !(old(self).seed() matches Some(s) && !is_tour(s, old(self).problem().n())) && old(self).problem().n() < 2
                ==> r == Err::<Vec<(u64, AlgorithmStepStatistics)>, SearchError>(SearchError::EmptyNeighbourhood),
            r is Ok <==> !(old(self).seed() matches Some(s) && !is_tour(s, old(self).problem().n()))
                && old(self).problem().n() >= 2,
            r matches Ok(log) ==> 2 * log@.last().1.evaluated_solutions >= old(self).problem().n() * (old(self).problem().n() - 1),
            r matches Ok(log) ==> forall|m: Move| move_ok(m, old(self).problem().n()) ==>
                log@.last().1.solution_distance <= #[trigger] move_len(old(self).problem(), log@[0].1.solution@, m),
            r matches Ok(log) ==> log_keys_on_but_last(log@, old(self).logging_every() as int)
                && log_non_increasing(log@) && log_counts_non_decreasing(log@)
                && log@[0].0 == 0
                && (old(self).seed() matches Some(s) ==> log@[0].1.solution@ == s),
    {
        let start = Instant::now();
        let loaded = load_initial_solution(&self.instance, &self.initial_solution, &mut self.rng);
        let mut current = match loaded {
            Ok(t) => t,
            Err(e) => {
                return Err(e);
            },
        };
        let n = self.instance.num_cities();
        if n < 2 {
            return Err(SearchError::EmptyNeighbourhood);
        }
        let ghost inst = self.instance;
        let neighbourhood = generate_neighbourhood(n);
        let mut current_distance = self.instance.get_solution_distance(&current);
        let mut best = copy_tour(&current);
        let mut best_distance = current_distance;
        let ghost first = current@;

        let mut evaluated: u64 = 0;
        let mut no_improvement: u64 = 0;
        let mut step: u64 = 0;

        let tabu_tenure: u64 = if n / 4 > 0 { (n / 4) as u64 } else { 1 };
        let mut tabu = TabuList::new();
        let elite_k: usize = if n / 10 > 0 { n / 10 } else { 1 };
        let mut master: Vec<Candidate> = Vec::new();
        let mut master_threshold: i128 = 0;
        let mut log: Vec<(u64, AlgorithmStepStatistics)> = Vec::new();
        let mut rounds: u64 = 0;

        loop
            invariant
                inst == self.instance,
                self.algorithm_name == old(self).algorithm_name,
                self.logging_interval == old(self).logging_interval,
                old(self).ready(),
                inst == old(self).instance,
                !(old(self).seed() matches Some(s) && !is_tour(s, inst.n())),
                old(self).seed() matches Some(s) ==> first == s,
                inst.wf(),
                n == inst.n(),
                n >= 2,
                self.logging_interval > 0,
                tabu_tenure >= 1,
                elite_k >= 1,
                is_neighbourhood(neighbourhood@, n as int),
                is_tour(current@, n as int),
                current_distance == inst.tour_len(current@),
                is_tour(best@, n as int),
                best_distance == inst.tour_len(best@),
                step == 0 ==> best@ == first,
                step <= rounds,
                no_improvement <= n,
                tabu.wf(),
                distinct_moves(master@),
                valid_moves(master@, n as int),
                log_ok(inst, log@),
                log_non_increasing(log@),
                log_keys_on(log@, self.logging_interval as int),
                log_counts_non_decreasing(log@),
                log_counts_at_most(log@, evaluated as int),
                log_at_least(log@, best_distance as int),
                last_step(log@) <= step,
                log@.len() == 0 ==> step == 0,
                log@.len() > 0 ==> log@[0].0 == 0 && log@[0].1.solution@ == first,
                rounds == 0 ==> master@.len() == 0 && current@ == first && tabu@ == Map::<Move, u64>::empty(),
                rounds > 0 ==> 2 * evaluated >= n * (n - 1),
                2 * neighbourhood@.len() == n * (n - 1),
                rounds > 0 ==> forall|m: Move| move_ok(m, n as int) ==> best_distance <= #[trigger] move_len(inst, first, m),
            decreases u64::MAX - rounds,
        {
            if rounds == u64::MAX {
                let stats = snapshot(&self.instance, &best, evaluated, &start);
                record(&mut log, step, stats, Ghost(inst));
                return Ok(log);
            }
            let ghost first_round = rounds == 0;
            rounds = rounds + 1;
            proof {
                if log@.len() == 0 {
                    assert(step % self.logging_interval == 0) by (nonlinear_arith)
                        requires step == 0, self.logging_interval > 0;
                }
            }
            if step % self.logging_interval == 0 {
                let stats = snapshot(&self.instance, &best, evaluated, &start);
                record(&mut log, step, stats, Ghost(inst));
            }

            tabu.decay();

            if master.len() == 0 {
                assert forall|i: int| 0 <= i < neighbourhood@.len() implies
                    move_ok(#[trigger] neighbourhood@[i], n as int) by {}
                let cands = evaluate_moves(&self.instance, &current, &neighbourhood);
                evaluated = evaluated.saturating_add(neighbourhood.len() as u64);
                proof {
                    assert forall|i: int, j: int| 0 <= i < j < cands@.len() implies
                        #[trigger] cands@[i].0 != #[trigger] cands@[j].0 by {
                        assert(neighbourhood@[i] != neighbourhood@[j]);
                    }
                    lemma_distinct_moves_no_duplicates(cands@);
                }
                assert(neighbourhood@.contains((0usize, 1usize)));
                master = select_elite(&cands, elite_k);
                proof {
                    lemma_selection_keeps(inst, current@, cands@, master@);
                }
                proof {
                    if first_round {
                        assert forall|m: Move| move_ok(m, n as int) implies
                            master@[0].1 <= #[trigger] move_len(inst, first, m) by {
                            assert(neighbourhood@.contains(m));
                            let i = choose|i: int| 0 <= i < neighbourhood@.len() && neighbourhood@[i] == m;
                            assert(cands@[i].0 == m);
                            assert(cands@[i].1 == move_len(inst, current@, m));
                            assert(cands@.contains(cands@[i]));
                            if master@.contains(cands@[i]) {
                                let j = choose|j: int| 0 <= j < master@.len() && master@[j] == cands@[i];
                                if j > 0 {
                                    assert(master@[0].1 <= master@[j].1);
                                }
                            } else {
                                if master@.len() > 1 {
                                    assert(master@[0].1 <= master@[master@.len() - 1].1);
                                }
                            }
                        }
                    }
                }
                master_threshold = current_distance as i128 - master[master.len() - 1].1 as i128;
            } else {
                let moves = moves_of(&master);
                let cands = evaluate_moves(&self.instance, &current, &moves);
                evaluated = evaluated.saturating_add(cands.len() as u64);
                proof {
                    assert forall|i: int, j: int| 0 <= i < j < cands@.len() implies
                        #[trigger] cands@[i].0 != #[trigger] cands@[j].0 by {
                        assert(master@[i].0 != master@[j].0);
                    }
                    lemma_distinct_moves_no_duplicates(cands@);
                }
                master = select_elite(&cands, cands.len());
                proof {
                    lemma_selection_keeps(inst, current@, cands@, master@);
                }
                if master[0].1 as i128 > master_threshold {
                    master = Vec::new();
                    continue;
                }
            }

            let ghost listed = master@;
            let (mv, candidate_distance) = master.remove(0);
            assert(listed[0] == (mv, candidate_distance));
            assert(move_ok(listed[0].0, n as int));
            proof {
                assert(master@ =~= listed.subrange(1, listed.len() as int));
                assert forall|i: int, j: int| 0 <= i < j < master@.len() implies
                    #[trigger] master@[i].0 != #[trigger] master@[j].0 by {
                    assert(listed[i + 1].0 != listed[j + 1].0);
                }
                assert forall|i: int| 0 <= i < master@.len() implies move_ok(#[trigger] master@[i].0, n as int) by {
                    assert(move_ok(listed[i + 1].0, n as int));
                }
            }
            assert(candidate_distance == move_len(inst, current@, mv)) by {
                assert(listed[0].1 == inst.tour_len(swapped(current@, listed[0].0.0 as int, listed[0].0.1 as int)));
            }
            assert(first_round ==> forall|m: Move| move_ok(m, n as int) ==>
                candidate_distance <= #[trigger] move_len(inst, first, m));
            assert(first_round ==> !tabu@.contains_key(mv));
            let ghost old_best_distance = best_distance;
            if take_candidate(&self.instance, &mut tabu, tabu_tenure, &mut current, &mut current_distance,
                &mut best, &mut best_distance, &mut no_improvement, mv, candidate_distance) {
                step = step + 1;
            }
            assert(best_distance <= old_best_distance);
            assert(first_round ==> best_distance <= candidate_distance);

            if no_improvement > n as u64 {
                let stats = snapshot(&self.instance, &best, evaluated, &start);
                record(&mut log, step, stats, Ghost(inst));
                return Ok(log);
            }
        }
    }
}

} // verus!
