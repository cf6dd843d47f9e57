//! The nearest-neighbour construction.

use vstd::prelude::*;
use std::time::Instant;
use rand::rngs::ThreadRng;
use crate::instance::{Instance, MAX_CITIES};
use crate::tour::{is_tour, lemma_missing_city};
use crate::random::gen_below;
use crate::search::{Algorithm, AlgorithmStepStatistics, SearchError, snapshot};

verus! {

/// `s` is the nearest-neighbour tour of `inst` from city index `start`:
/// each city is followed by the nearest city not yet visited, the one of
/// smallest index among equally near ones.
pub open spec fn nearest_neighbour_order(inst: Instance, s: Seq<i32>, start: int) -> bool {
    &&& is_tour(s, inst.n())
    &&& s.len() > 0
    &&& s[0] == start + 1
    &&& forall|k: int, c: int| 0 <= k < s.len() - 1 && 0 <= c < inst.n()
        && !(#[trigger] s.take(k + 1).contains((c + 1) as i32)) ==> {
            &&& inst.dist(s[k] - 1, s[k + 1] - 1) <= #[trigger] inst.dist(s[k] - 1, c)
            &&& (c + 1 < s[k + 1] ==> inst.dist(s[k] - 1, s[k + 1] - 1) < inst.dist(s[k] - 1, c))
        }
}

/// Two nearest-neighbour tours from the same city agree on their first
/// `k + 1` cities.
proof fn lemma_prefix_agrees(inst: Instance, start: int, a: Seq<i32>, b: Seq<i32>, k: int)
    requires
        inst.wf(),
        nearest_neighbour_order(inst, a, start),
        nearest_neighbour_order(inst, b, start),
        0 <= k < inst.n(),
    ensures
        a.take(k + 1) == b.take(k + 1),
    decreases k,
{
    if k == 0 {
        assert(a.take(1) =~= b.take(1));
    } else {
        let j = k - 1;
        lemma_prefix_agrees(inst, start, a, b, j);
        assert(a[j] == a.take(j + 1)[j]);
        assert(b[j] == b.take(j + 1)[j]);
        let x = a[j + 1] - 1;
        let y = b[j + 1] - 1;
        assert(!a.take(j + 1).contains((x + 1) as i32)) by {
            if a.take(j + 1).contains((x + 1) as i32) {
                let i = choose|i: int| 0 <= i < j + 1 && #[trigger] a.take(j + 1)[i] == (x + 1) as i32;
                assert(a[i] == a[j + 1]);
            }
        }
        assert(!b.take(j + 1).contains((y + 1) as i32)) by {
            if b.take(j + 1).contains((y + 1) as i32) {
                let i = choose|i: int| 0 <= i < j + 1 && #[trigger] b.take(j + 1)[i] == (y + 1) as i32;
                assert(b[i] == b[j + 1]);
            }
        }
        if x < y {
            assert(inst.dist(b[j] - 1, y) < inst.dist(b[j] - 1, x));
            assert(inst.dist(a[j] - 1, x) <= inst.dist(a[j] - 1, y));
        } else if y < x {
            assert(inst.dist(a[j] - 1, x) < inst.dist(a[j] - 1, y));
            assert(inst.dist(b[j] - 1, y) <= inst.dist(b[j] - 1, x));
        }
        assert(a.take(k + 1) =~= a.take(j + 1).push(a[j + 1]));
        assert(b.take(k + 1) =~= b.take(j + 1).push(b[j + 1]));
    }
}

/// The nearest-neighbour tour from a fixed starting city is unique, so
/// building it twice from the same city gives the same tour.
pub proof fn lemma_nearest_neighbour_deterministic(inst: Instance, start: int, a: Seq<i32>, b: Seq<i32>)
    requires
        inst.wf(),
        nearest_neighbour_order(inst, a, start),
        nearest_neighbour_order(inst, b, start),
    ensures
        a == b,
{
    let n = inst.n();
    lemma_prefix_agrees(inst, start, a, b, n - 1);
    assert(a =~= a.take(n));
    assert(b =~= b.take(n));
}

/// Builds the nearest-neighbour tour from city index `start_city`.
pub fn nearest_neighbour_tour(instance: &Instance, start_city: usize) -> (r: Vec<i32>)
    requires
        instance.wf(),
        start_city < instance.n(),
    ensures
        nearest_neighbour_order(*instance, r@, start_city as int),
{
    let n = instance.num_cities();
    let mut visited: Vec<bool> = Vec::new();
    let mut i: usize = 0;
    while i < n
        invariant
            i <= n,
            visited@.len() == i,
            forall|c: int| 0 <= c < i ==> !visited@[c],
        decreases n - i,
    {
        visited.push(false);
        i = i + 1;
    }
    visited.set(start_city, true);
    let mut tour: Vec<i32> = Vec::new();
    tour.push((start_city + 1) as i32);
    let mut current_city: usize = start_city;
    assert forall|c: int| 0 <= c < n implies (#[trigger] visited@[c] <==> tour@.contains((c + 1) as i32)) by {
        if c == start_city {
            assert(tour@[0] == (c + 1) as i32);
        }
    }

    while tour.len() < n
        invariant
            instance.wf(),
            n == instance.n() <= MAX_CITIES,
            1 <= tour@.len() <= n,
            visited@.len() == n,
            current_city < n,
            tour@.last() == current_city + 1,
            tour@[0] == start_city + 1,
            forall|k: int| 0 <= k < tour@.len() ==> 1 <= #[trigger] tour@[k] <= n,
            tour@.no_duplicates(),
            forall|c: int| 0 <= c < n ==> (#[trigger] visited@[c] <==> tour@.contains((c + 1) as i32)),
            forall|k: int, c: int| 0 <= k < tour@.len() - 1 && 0 <= c < n
                && !(#[trigger] tour@.take(k + 1).contains((c + 1) as i32)) ==> {
                    &&& instance.dist(tour@[k] - 1, tour@[k + 1] - 1) <= #[trigger] instance.dist(tour@[k] - 1, c)
                    &&& (c + 1 < tour@[k + 1] ==> instance.dist(tour@[k] - 1, tour@[k + 1] - 1)
                        < instance.dist(tour@[k] - 1, c))
                },
        decreases n - tour@.len(),
    {
        proof {
            lemma_missing_city(tour@, n as int);
        }
        let mut next: usize = n;
        let mut next_distance: u64 = 0;
        let mut c: usize = 0;
        while c < n
            invariant
                instance.wf(),
                n == instance.n(),
                visited@.len() == n,
                current_city < n,
                c <= n,
                next == n || (next < c && !visited@[next as int]
                    && next_distance == instance.dist(current_city as int, next as int)),
                next == n ==> forall|q: int| 0 <= q < c ==> #[trigger] visited@[q],
                next < n ==> forall|q: int| 0 <= q < c && !visited@[q] ==>
                    next_distance <= #[trigger] instance.dist(current_city as int, q)
                    && (q < next ==> next_distance < instance.dist(current_city as int, q)),
            decreases n - c,
        {
            if !visited[c] {
                let d = instance.distance(current_city, c);
                if next == n || d < next_distance {
                    next = c;
                    next_distance = d;
                }
            }
            c = c + 1;
        }
        assert(next < n) by {
            let m = choose|m: i32| 1 <= m <= n && !(#[trigger] tour@.contains(m));
            assert(!visited@[m - 1]);
        }
        let ghost old_tour = tour@;
        let ghost old_visited = visited@;
        tour.push((next + 1) as i32);
        visited.set(next, true);
        proof {
            assert(!old_tour.contains((next + 1) as i32));
            assert(tour@.take(old_tour.len() as int) =~= old_tour);
            assert forall|k: int| 0 <= k < tour@.len() implies 1 <= #[trigger] tour@[k] <= n by {
                if k < old_tour.len() {
                    assert(tour@[k] == old_tour[k]);
                }
            }
            assert forall|i: int, j: int| 0 <= i < tour@.len() && 0 <= j < tour@.len() && i != j
                implies tour@[i] != tour@[j] by {
                if i < old_tour.len() && j < old_tour.len() {
                    assert(old_tour[i] != old_tour[j]);
                } else if i < old_tour.len() {
                    assert(old_tour.contains(tour@[i]));
                } else {
                    assert(old_tour.contains(tour@[j]));
                }
            }
            assert forall|q: int| 0 <= q < n implies (#[trigger] visited@[q] <==> tour@.contains((q + 1) as i32)) by {
                if q == next {
                    assert(tour@[old_tour.len() as int] == (q + 1) as i32);
                } else if old_tour.contains((q + 1) as i32) {
                    let j = choose|j: int| 0 <= j < old_tour.len() && old_tour[j] == (q + 1) as i32;
                    assert(tour@[j] == (q + 1) as i32);
                } else if tour@.contains((q + 1) as i32) {
                    let j = choose|j: int| 0 <= j < tour@.len() && tour@[j] == (q + 1) as i32;
                    if j < old_tour.len() {
                        assert(old_tour[j] == (q + 1) as i32);
                    }
                }
            }
            assert forall|k: int, q: int| 0 <= k < tour@.len() - 1 && 0 <= q < n
                && !(#[trigger] tour@.take(k + 1).contains((q + 1) as i32)) implies {
                    &&& instance.dist(tour@[k] - 1, tour@[k + 1] - 1) <= #[trigger] instance.dist(tour@[k] - 1, q)
                    &&& (q + 1 < tour@[k + 1] ==> instance.dist(tour@[k] - 1, tour@[k + 1] - 1)
                        < instance.dist(tour@[k] - 1, q))
                } by {
                if k < old_tour.len() - 1 {
                    assert(tour@.take(k + 1) =~= old_tour.take(k + 1));
                    assert(tour@[k] == old_tour[k]);
                    assert(tour@[k + 1] == old_tour[k + 1]);
                } else {
                    assert(tour@.take(k + 1) =~= old_tour);
                    assert(tour@[k] == current_city + 1);
                    assert(!old_visited[q]);
                    assert(tour@[k + 1] == next + 1);
                }
            }
        }
        current_city = next;
    }
    tour
}

/// One-shot baseline: the nearest-neighbour tour from a random city.
pub struct HeuristicBaseline {
    algorithm_name: String,
    instance: Instance,
    rng: ThreadRng,
}

impl Algorithm for HeuristicBaseline {
    closed spec fn instance_of(&self) -> Instance {
        self.instance
    }

    closed spec fn ready(&self) -> bool {
        self.algorithm_name@ == "H"@ && self.instance.wf()
    }

    fn new(instance: Instance, _steps: i32, _logging_interval: i32, _initial_solution: Option<Vec<i32>>) -> (r: Self) {
        HeuristicBaseline { algorithm_name: String::from_str("H"), instance, rng: rand::thread_rng() }
    }

    fn get_name(&self) -> (r: &String)
        ensures
            r@ == "H"@,
    {
        &self.algorithm_name
    }

    /// Fails only on an instance without cities; otherwise records the
    /// nearest-neighbour tour from some city as the single snapshot.
    fn execute(&mut self) -> (r: Result<Vec<(u64, AlgorithmStepStatistics)>, SearchError>)
        ensures
            r is Err <==> old(self).instance_of().n() == 0,
            r matches Err(e) ==> e == SearchError::EmptyInstance,
            r matches Ok(log) ==> log@.len() == 1 && log@[0].0 == 0 && log@[0].1.evaluated_solutions == 0
                && exists|start: int| 0 <= start < old(self).instance_of().n()
                    && nearest_neighbour_order(old(self).instance_of(), #[trigger] log@[0].1.solution@, start),
    {
        let start = Instant::now();
        let n = self.instance.num_cities();
        if n == 0 {
            return Err(SearchError::EmptyInstance);
        }
        let start_city = gen_below(&mut self.rng, n as u64) as usize;
        let tour = nearest_neighbour_tour(&self.instance, start_city);
        let stats = snapshot(&self.instance, &tour, 0, &start);
        let mut log: Vec<(u64, AlgorithmStepStatistics)> = Vec::new();
        log.push((0, stats));
        assert(self.instance == old(self).instance);
        assert(nearest_neighbour_order(old(self).instance_of(), log@[0].1.solution@, start_city as int));
        assert(0 <= start_city < old(self).instance_of().n());
        Ok(log)
    }
}

} // verus!
