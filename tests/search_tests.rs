use tsp_meta::annealing::{cooling_trial, cool, cooling_done, heat, heating_done, metropolis_accepts, SimmulatedAnnealing};
use tsp_meta::geometry::{euclidean_distance, UNIT};
use tsp_meta::greedy::GreedyLocalSearch;
use tsp_meta::heuristic::{nearest_neighbour_tour, HeuristicBaseline};
use tsp_meta::instance::{Instance, InstanceError};
use tsp_meta::random_search::RandomSearch;
use tsp_meta::random_walk::{walk_step, RandomWalk};
use tsp_meta::search::{
    generate_neighbourhood, get_move_distance, load_initial_solution, Algorithm, AlgorithmStepStatistics,
    keep_if_shorter, NeighbourhoodGenerator, SearchAlgorithm, SearchError,
};
use tsp_meta::steepest::{best_improving_move, SteepestLocalSearch};
use tsp_meta::tabu::{admissible, take_candidate, TabuSearch};
use tsp_meta::tabu_list::{select_elite, TabuList};
use tsp_meta::tour::is_valid_tour;

fn square() -> Instance {
    let coords = vec![(0, 0), (0, UNIT as i64), (UNIT as i64, UNIT as i64), (UNIT as i64, 0)];
    Instance::new("square".to_string(), coords, vec![1, 2, 3, 4]).unwrap()
}

fn is_permutation(s: &[i32], n: usize) -> bool {
    let mut seen = vec![false; n];
    if s.len() != n {
        return false;
    }
    for &c in s {
        if c < 1 || c as usize > n || seen[(c - 1) as usize] {
            return false;
        }
        seen[(c - 1) as usize] = true;
    }
    true
}

fn check_log(inst: &Instance, log: &[(u64, AlgorithmStepStatistics)]) {
    assert!(!log.is_empty());
    for w in log.windows(2) {
        assert!(w[0].0 < w[1].0);
    }
    for (_, st) in log {
        assert!(is_permutation(&st.solution, inst.num_cities()));
        assert_eq!(st.solution_distance, inst.get_solution_distance(&st.solution));
    }
}

fn non_increasing(log: &[(u64, AlgorithmStepStatistics)]) -> bool {
    log.windows(2).all(|w| w[1].1.solution_distance <= w[0].1.solution_distance)
}

#[test]
fn distance_is_rounded_down_euclidean() {
    assert_eq!(euclidean_distance((0, 0), (3_000_000, 4_000_000)), 5_000_000);
    assert_eq!(euclidean_distance((0, 0), (1_000_000, 1_000_000)), 1_414_213);
    assert_eq!(euclidean_distance((5, 5), (5, 5)), 0);
    assert_eq!(euclidean_distance((-2, 0), (1, 4)), 5);
}

#[test]
fn instance_rejects_bad_input() {
    let too_far = vec![(0, 0), (2_000_000_000_000, 0)];
    assert_eq!(Instance::new("a".to_string(), too_far, vec![1, 2]).unwrap_err(), InstanceError::CoordinateOutOfRange);
    let coords = vec![(0, 0), (1, 0), (2, 0)];
    assert_eq!(Instance::new("b".to_string(), coords.clone(), vec![1, 1, 2]).unwrap_err(), InstanceError::InvalidOptimalTour);
    assert_eq!(Instance::new("c".to_string(), coords.clone(), vec![1, 2]).unwrap_err(), InstanceError::InvalidOptimalTour);
    assert_eq!(Instance::new("d".to_string(), coords.clone(), vec![0, 1, 2]).unwrap_err(), InstanceError::InvalidOptimalTour);
    let ok = Instance::new("e".to_string(), coords, vec![3, 1, 2]).unwrap();
    assert_eq!(ok.num_cities(), 3);
    assert_eq!(ok.get_name(), "e");
    assert_eq!(ok.distance(0, 2), 2);
    assert_eq!(ok.distance(2, 0), 2);
}

#[test]
fn square_tour_lengths_and_score() {
    let inst = square();
    assert_eq!(inst.get_solution_distance(&vec![1, 2, 3, 4]), 4_000_000);
    assert_eq!(inst.get_solution_distance(&vec![1, 3, 2, 4]), 4_828_426);
    assert_eq!(inst.optimal_distance(), 4_000_000);
    assert_eq!(inst.get_solution_score(&vec![1, 2, 3, 4]), Some(1_000_000));
    assert_eq!(inst.get_solution_score(&vec![1, 3, 2, 4]), Some(1_207_107));
}

#[test]
fn tour_length_ignores_rotation_and_reversal() {
    let coords = vec![(0, 0), (3_000_000, 0), (3_000_000, 4_000_000), (1_000_000, 7_000_000), (-2_000_000, 1_000_000)];
    let inst = Instance::new("p".to_string(), coords, vec![1, 2, 3, 4, 5]).unwrap();
    let t = vec![2, 5, 1, 4, 3];
    let d = inst.get_solution_distance(&t);
    for k in 0..t.len() {
        let mut r = t[k..].to_vec();
        r.extend_from_slice(&t[..k]);
        assert_eq!(inst.get_solution_distance(&r), d);
    }
    let mut rev = t.clone();
    rev.reverse();
    assert_eq!(inst.get_solution_distance(&rev), d);
}

#[test]
fn move_distance_swaps_two_positions() {
    let inst = square();
    assert_eq!(get_move_distance(1, 2, &inst, &vec![1, 3, 2, 4]), 4_000_000);
    assert_eq!(get_move_distance(0, 1, &inst, &vec![1, 2, 3, 4]), 4_828_426);
}

#[test]
fn neighbourhood_holds_every_pair_once() {
    let moves = generate_neighbourhood(5);
    assert_eq!(moves.len(), 10);
    assert_eq!(moves[0], (0, 1));
    assert_eq!(moves[9], (3, 4));
    assert!(generate_neighbourhood(1).is_empty());
}

#[test]
fn tour_validation_accepts_only_permutations() {
    assert!(is_valid_tour(&vec![2, 3, 1], 3));
    assert!(!is_valid_tour(&vec![2, 2, 1], 3));
    assert!(!is_valid_tour(&vec![2, 4, 1], 3));
    assert!(!is_valid_tour(&vec![1, 2], 3));
    assert!(is_valid_tour(&vec![], 0));
}

#[test]
fn random_initial_solution_is_shuffled_permutation() {
    let coords: Vec<(i64, i64)> = (0..10).map(|i| (i * 1000, (i * i) % 7 * 1000)).collect();
    let inst = Instance::new("ten".to_string(), coords, (1..=10).collect()).unwrap();
    let mut rng = rand::thread_rng();
    let mut differs = false;
    for _ in 0..20 {
        let t = load_initial_solution(&inst, &None, &mut rng).unwrap();
        assert!(is_permutation(&t, 10));
        if t != (1..=10).collect::<Vec<i32>>() {
            differs = true;
        }
    }
    assert!(differs);
    let seeded = load_initial_solution(&inst, &Some(vec![10, 9, 8, 7, 6, 5, 4, 3, 2, 1]), &mut rng).unwrap();
    assert_eq!(seeded, vec![10, 9, 8, 7, 6, 5, 4, 3, 2, 1]);
    assert_eq!(load_initial_solution(&inst, &Some(vec![1, 2, 3]), &mut rng).unwrap_err(), SearchError::InvalidInitialSolution);
}

#[test]
fn steepest_on_square_reaches_perimeter() {
    let inst = square();
    let mut alg = SteepestLocalSearch::new(inst.clone(), 1000, 1, Some(vec![1, 3, 2, 4]));
    let log = alg.execute().unwrap();
    check_log(&inst, &log);
    assert!(non_increasing(&log));
    assert_eq!(log[0].1.solution, vec![1, 3, 2, 4]);
    assert_eq!(log.iter().map(|e| e.0).collect::<Vec<u64>>(), vec![0, 1]);
    assert_eq!(log[1].1.solution, vec![4, 3, 2, 1]);
    assert_eq!(log[1].1.solution_distance, 4_000_000);
    assert_eq!(log[1].1.solution_score, Some(1_000_000));
    assert_eq!(log[1].1.evaluated_solutions, 12);
    assert_eq!(alg.get_name(), "S");
    assert_eq!(alg._generate_neighbourhood().len(), 6);
}

#[test]
fn greedy_on_square_reaches_perimeter() {
    let inst = square();
    let mut alg = GreedyLocalSearch::new(inst.clone(), 1000, 1, Some(vec![1, 3, 2, 4]));
    let log = alg.execute().unwrap();
    check_log(&inst, &log);
    assert!(non_increasing(&log));
    assert_eq!(log[0].0, 0);
    assert_eq!(log.last().unwrap().1.solution_distance, 4_000_000);
    assert_eq!(log.last().unwrap().0, 1);
    assert!(log.last().unwrap().1.evaluated_solutions >= 6);
}

#[test]
fn local_searches_reject_invalid_seed() {
    let inst = square();
    let mut g = GreedyLocalSearch::new(inst.clone(), 10, 1, Some(vec![1, 1, 2, 3]));
    assert_eq!(g.execute().unwrap_err(), SearchError::InvalidInitialSolution);
    let mut s = SteepestLocalSearch::new(inst, 10, 1, Some(vec![1, 2, 3]));
    assert_eq!(s._load_initial_solution().unwrap_err(), SearchError::InvalidInitialSolution);
    assert_eq!(s.execute().unwrap_err(), SearchError::InvalidInitialSolution);
}

#[test]
fn tabu_on_square_does_not_panic() {
    let inst = square();
    let mut alg = TabuSearch::new(inst.clone(), 1000, 1, Some(vec![1, 3, 2, 4]));
    let log = alg.execute().unwrap();
    check_log(&inst, &log);
    assert!(non_increasing(&log));
    assert_eq!(log[0].1.solution, vec![1, 3, 2, 4]);
    assert_eq!(log.last().unwrap().1.solution_distance, 4_000_000);
}

#[test]
fn tabu_needs_two_cities() {
    let inst = Instance::new("one".to_string(), vec![(0, 0)], vec![1]).unwrap();
    let mut alg = TabuSearch::new(inst.clone(), 10, 1, None);
    assert_eq!(alg.execute().unwrap_err(), SearchError::EmptyNeighbourhood);
    let mut sa = SimmulatedAnnealing::new(inst, 10, 1, None);
    assert_eq!(sa.execute().unwrap_err(), SearchError::EmptyNeighbourhood);
}

#[test]
fn annealing_on_square_keeps_best() {
    let inst = square();
    let mut alg = SimmulatedAnnealing::new(inst.clone(), 1000, 5, Some(vec![1, 3, 2, 4]));
    let log = alg.execute().unwrap();
    check_log(&inst, &log);
    assert!(non_increasing(&log));
    assert_eq!(log[0].0, 0);
    assert!(log.last().unwrap().1.solution_distance <= 4_828_426);
    assert!(log[0].1.solution_distance <= 4_828_426);
    assert!(log.last().unwrap().1.evaluated_solutions > 0);
    assert!(log.iter().all(|e| e.1.evaluated_solutions % 8 == 0));
    assert_eq!(alg.get_name(), "SA");
}

#[test]
fn annealing_schedule_values() {
    assert_eq!(heat(1_000_000), 1_100_000);
    assert_eq!(heat(u64::MAX), u64::MAX);
    assert_eq!(cool(1_000_000), 990_000);
    assert_eq!(cool(150), 148);
    assert!(heating_done(19, 20));
    assert!(!heating_done(18, 20));
    assert!(heating_done(8, 8));
    assert!(cooling_done(9_999, 5, 4));
    assert!(!cooling_done(10_000, 5, 4));
    assert!(!cooling_done(9_999, 4, 4));
}

#[test]
fn metropolis_rule_edges() {
    let mut rng = rand::thread_rng();
    for _ in 0..100 {
        assert!(metropolis_accepts(&mut rng, 100, 90, 0));
        assert!(metropolis_accepts(&mut rng, 100, 100, 5));
        assert!(!metropolis_accepts(&mut rng, 100, 101, 0));
    }
    let mut accepted = 0;
    for _ in 0..2000 {
        if metropolis_accepts(&mut rng, 0, 1_000, 1_000) {
            accepted += 1;
        }
    }
    // exp(-1) is about 0.37
    assert!(accepted > 550 && accepted < 930, "accepted {}", accepted);
    let mut far = 0;
    for _ in 0..200 {
        if metropolis_accepts(&mut rng, 0, 1_000_000, 1) {
            far += 1;
        }
    }
    assert_eq!(far, 0);
}

#[test]
fn tabu_list_ages_and_forbids() {
    let mut t = TabuList::new();
    assert!(!t.contains((0, 1)));
    t.insert((0, 1), 2);
    t.insert((1, 2), 1);
    assert!(t.contains((0, 1)));
    assert!(t.contains((1, 2)));
    t.decay();
    assert!(t.contains((0, 1)));
    assert!(!t.contains((1, 2)));
    t.decay();
    assert!(!t.contains((0, 1)));
    t.insert((2, 3), 1);
    t.insert((2, 3), 3);
    t.decay();
    t.decay();
    assert!(t.contains((2, 3)));
}

#[test]
fn aspiration_admits_tabu_move_only_when_best() {
    let mut t = TabuList::new();
    t.insert((0, 1), 3);
    assert!(!admissible(&t, (0, 1), 10, 10));
    assert!(admissible(&t, (0, 1), 9, 10));
    assert!(admissible(&t, (1, 2), 50, 10));
}

#[test]
fn elite_selection_keeps_shortest_in_order() {
    let cands = vec![((0, 1), 7), ((0, 2), 3), ((1, 2), 5), ((0, 3), 3), ((1, 3), 1)];
    assert_eq!(select_elite(&cands, 3), vec![((1, 3), 1), ((0, 2), 3), ((0, 3), 3)]);
    assert_eq!(select_elite(&cands, 10).len(), 5);
    assert_eq!(select_elite(&cands, 1), vec![((1, 3), 1)]);
}

#[test]
fn nearest_neighbour_from_fixed_city_is_repeatable() {
    let inst = square();
    let a = nearest_neighbour_tour(&inst, 0);
    let b = nearest_neighbour_tour(&inst, 0);
    assert_eq!(a, b);
    assert_eq!(a, vec![1, 2, 3, 4]);
    assert_eq!(nearest_neighbour_tour(&inst, 2), vec![3, 2, 1, 4]);
}

#[test]
fn heuristic_baseline_single_snapshot() {
    let inst = square();
    let mut h = HeuristicBaseline::new(inst.clone(), 0, 1, None);
    let log = h.execute().unwrap();
    assert_eq!(log.len(), 1);
    assert_eq!(log[0].0, 0);
    assert_eq!(log[0].1.evaluated_solutions, 0);
    assert_eq!(log[0].1.solution_distance, 4_000_000);
    let empty = Instance::new("none".to_string(), vec![], vec![]).unwrap();
    let mut h0 = HeuristicBaseline::new(empty, 0, 1, None);
    assert_eq!(h0.execute().unwrap_err(), SearchError::EmptyInstance);
}

#[test]
fn random_baselines_log_under_budget() {
    let inst = square();
    let mut rs = RandomSearch::new(inst.clone(), 50, 5, None);
    let log = rs.execute().unwrap();
    check_log(&inst, &log);
    assert!(non_increasing(&log));
    assert_eq!(log.last().unwrap().0, 50);
    assert_eq!(log.last().unwrap().1.evaluated_solutions, 50);
    let mut rw = RandomWalk::new(inst.clone(), 50, 5, Some(vec![1, 3, 2, 4]));
    let log = rw.execute().unwrap();
    check_log(&inst, &log);
    assert!(non_increasing(&log));
    assert_eq!(log.last().unwrap().0, 50);
    assert_eq!(log[0].1.solution, vec![1, 3, 2, 4]);
}

#[test]
fn instance_rejects_too_many_cities() {
    let n = tsp_meta::instance::MAX_CITIES + 1;
    let coords = vec![(0i64, 0i64); n];
    assert_eq!(Instance::new("big".to_string(), coords, vec![]).unwrap_err(), InstanceError::TooManyCities);
}

#[test]
fn best_move_takes_first_shortest() {
    let inst = square();
    let nb = generate_neighbourhood(4);
    assert_eq!(best_improving_move(&inst, &vec![1, 3, 2, 4], 4_828_426, &nb), Some(((0, 3), 4_000_000)));
    assert_eq!(best_improving_move(&inst, &vec![1, 2, 3, 4], 4_000_000, &nb), None);
}

#[test]
fn baseline_steps_keep_only_shorter() {
    let inst = square();
    let mut cur = vec![1, 3, 2, 4];
    let mut d = 4_828_426u64;
    assert!(!keep_if_shorter(&mut cur, &mut d, vec![2, 1, 3, 4], 4_828_426));
    assert_eq!(cur, vec![1, 3, 2, 4]);
    assert!(walk_step(&inst, &mut cur, &mut d, 1, 2));
    assert_eq!(cur, vec![1, 2, 3, 4]);
    assert_eq!(d, 4_000_000);
    assert!(!walk_step(&inst, &mut cur, &mut d, 0, 1));
    assert!(!walk_step(&inst, &mut cur, &mut d, 3, 3));
    assert_eq!(cur, vec![1, 2, 3, 4]);
}

#[test]
fn tabu_step_applies_and_forbids() {
    let inst = square();
    let mut tabu = TabuList::new();
    let mut cur = vec![1, 3, 2, 4];
    let mut cd = 4_828_426u64;
    let mut best = cur.clone();
    let mut bd = cd;
    let mut stall = 0u64;
    assert!(take_candidate(&inst, &mut tabu, 2, &mut cur, &mut cd, &mut best, &mut bd, &mut stall, (1, 2), 4_000_000));
    assert_eq!(cur, vec![1, 2, 3, 4]);
    assert_eq!((cd, bd, stall), (4_000_000, 4_000_000, 0));
    assert!(tabu.contains((1, 2)));
    // tabu and not better than the best: refused
    assert!(!take_candidate(&inst, &mut tabu, 2, &mut cur, &mut cd, &mut best, &mut bd, &mut stall, (1, 2), 4_828_426));
    assert_eq!(cur, vec![1, 2, 3, 4]);
    // not tabu, worse: taken, counts a stall
    assert!(take_candidate(&inst, &mut tabu, 2, &mut cur, &mut cd, &mut best, &mut bd, &mut stall, (0, 1), 4_828_426));
    assert_eq!(cur, vec![2, 1, 3, 4]);
    assert_eq!((cd, bd, stall), (4_828_426, 4_000_000, 1));
    assert_eq!(best, vec![1, 2, 3, 4]);
}

#[test]
fn cooling_trial_tracks_best() {
    let inst = square();
    let mut cur = vec![1, 2, 3, 4];
    let mut cd = 4_000_000u64;
    let mut best = cur.clone();
    let mut bd = cd;
    let mut stall = 3u64;
    assert!(cooling_trial(&inst, &mut cur, &mut cd, &mut best, &mut bd, &mut stall, (0, 1), 4_828_426, true));
    assert_eq!(cur, vec![2, 1, 3, 4]);
    assert_eq!((cd, bd, stall), (4_828_426, 4_000_000, 4));
    assert!(!cooling_trial(&inst, &mut cur, &mut cd, &mut best, &mut bd, &mut stall, (0, 1), 4_000_000, false));
    assert_eq!(cur, vec![2, 1, 3, 4]);
    assert_eq!(stall, 5);
    assert!(cooling_trial(&inst, &mut cur, &mut cd, &mut best, &mut bd, &mut stall, (0, 1), 4_000_000, true));
    assert_eq!(stall, 6);
    let mut cur2 = vec![1, 3, 2, 4];
    let mut cd2 = 4_828_426u64;
    let mut best2 = cur2.clone();
    let mut bd2 = cd2;
    let mut stall2 = 7u64;
    assert!(cooling_trial(&inst, &mut cur2, &mut cd2, &mut best2, &mut bd2, &mut stall2, (1, 2), 4_000_000, true));
    assert_eq!((bd2, stall2), (4_000_000, 0));
    assert_eq!(best2, vec![1, 2, 3, 4]);
}
