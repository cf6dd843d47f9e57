//! A problem instance: coordinates, distance table, reference tour, and
//! tour length and score.

use vstd::prelude::*;
use crate::geometry::{Point, MAX_DIST, coord_ok, sq_dist, is_floor_sqrt, euclidean_distance, lemma_sq_dist_symmetric};
use crate::tour::{is_tour, is_valid_tour};

verus! {

/// Largest number of cities an instance may hold.
pub const MAX_CITIES: usize = 1_048_576;

/// Fixed-point scale of a score: a score of `SCORE_SCALE` means optimal.
pub const SCORE_SCALE: u128 = 1_000_000;

/// Sum of a sequence of integers.
pub open spec fn seq_sum(s: Seq<int>) -> int
    decreases s.len(),
{
    if s.len() == 0 {
        0
    } else {
        seq_sum(s.drop_last()) + s.last()
    }
}

/// Position that follows `i` on a cycle of length `n`.
pub open spec fn next_pos(i: int, n: int) -> int {
    if i + 1 < n {
        i + 1
    } else {
        0
    }
}

/// Why an instance could not be built.
#[derive(Clone, Copy, Debug, PartialEq, Eq, Structural)]
pub enum InstanceError {
    TooManyCities,
    CoordinateOutOfRange,
    InvalidOptimalTour,
}

/// A symmetric Euclidean instance: city coordinates, their distance table and
/// a reference optimal tour.
#[derive(Clone, Debug)]
pub struct Instance {
    pub(crate) name: String,
    pub(crate) city_coords: Vec<Point>,
    pub(crate) optimal_solution: Vec<i32>,
    pub(crate) adjacency_matrix: Vec<Vec<u64>>,
}

impl Instance {
    /// Number of cities.
    pub open(crate) spec fn n(&self) -> int {
        self.city_coords@.len() as int
    }

    pub open(crate) spec fn name_view(&self) -> Seq<char> {
        self.name@
    }

    pub open(crate) spec fn coords(&self) -> Seq<Point> {
        self.city_coords@
    }

    pub open(crate) spec fn optimal(&self) -> Seq<i32> {
        self.optimal_solution@
    }

    /// Distance between cities of indices `a` and `b` (zero-based).
    pub open(crate) spec fn dist(&self, a: int, b: int) -> int {
        self.adjacency_matrix@[a]@[b] as int
    }

    pub open(crate) spec fn wf(&self) -> bool {
        &&& self.n() <= MAX_CITIES
        &&& forall|i: int| 0 <= i < self.n() ==> coord_ok(#[trigger] self.city_coords@[i])
        &&& self.adjacency_matrix@.len() == self.n()
        &&& forall|a: int| 0 <= a < self.n() ==> (#[trigger] self.adjacency_matrix@[a])@.len() == self.n()
        &&& forall|a: int, b: int| 0 <= a < self.n() && 0 <= b < self.n() ==>
            is_floor_sqrt(#[trigger] self.dist(a, b), sq_dist(self.city_coords@[a], self.city_coords@[b]))
            && self.dist(a, b) == self.dist(b, a)
            && self.dist(a, b) < MAX_DIST
        &&& is_tour(self.optimal_solution@, self.n())
    }

    /// Length of the edge that leaves position `i` of tour `s`.
    pub open(crate) spec fn edge(&self, s: Seq<i32>, i: int) -> int {
        self.dist(s[i] - 1, s[next_pos(i, s.len() as int)] - 1)
    }

    pub open(crate) spec fn edges(&self, s: Seq<i32>) -> Seq<int> {
        Seq::new(s.len(), |i: int| self.edge(s, i))
    }

    /// Length of the closed tour `s`.
    pub open(crate) spec fn tour_len(&self, s: Seq<i32>) -> int {
        seq_sum(self.edges(s))
    }

    /// Score of `s`: its length relative to the optimal tour, scaled by
    /// `SCORE_SCALE`; `None` where the optimal tour has length zero.
    pub open(crate) spec fn score(&self, s: Seq<i32>) -> Option<u128> {
        let opt = self.tour_len(self.optimal_solution@);
        if opt == 0 {
            None
        } else {
            Some(((self.tour_len(s) * SCORE_SCALE + opt - 1) / opt) as u128)
        }
    }

    /// Builds an instance from its coordinates and a reference optimal tour,
    /// computing the full distance table.
    pub fn new(name: String, city_coords: Vec<Point>, optimal_solution: Vec<i32>) -> (r: Result<Instance, InstanceError>)
        ensures
            city_coords@.len() > MAX_CITIES ==> (r matches Err(e) && e == InstanceError::TooManyCities),
            city_coords@.len() <= MAX_CITIES && !(forall|i: int| 0 <= i < city_coords@.len() ==> coord_ok(#[trigger] city_coords@[i]))
                ==> (r matches Err(e) && e == InstanceError::CoordinateOutOfRange),
            city_coords@.len() <= MAX_CITIES && (forall|i: int| 0 <= i < city_coords@.len() ==> coord_ok(#[trigger] city_coords@[i]))
                && !is_tour(optimal_solution@, city_coords@.len() as int)
                ==> (r matches Err(e) && e == InstanceError::InvalidOptimalTour),
            r is Ok <==> (city_coords@.len() <= MAX_CITIES
                && (forall|i: int| 0 <= i < city_coords@.len() ==> coord_ok(#[trigger] city_coords@[i]))
                && is_tour(optimal_solution@, city_coords@.len() as int)),
            r matches Ok(inst) ==> inst.wf() && inst.name_view() == name@ && inst.coords() == city_coords@
                && inst.optimal() == optimal_solution@,
    {
        let n = city_coords.len();
        if n > MAX_CITIES {
            return Err(InstanceError::TooManyCities);
        }
        let mut i: usize = 0;
        while i < n
            invariant
                i <= n == city_coords@.len(),
                n <= MAX_CITIES,
                forall|k: int| 0 <= k < i ==> coord_ok(#[trigger] city_coords@[k]),
            decreases n - i,
        {
            let p = city_coords[i];
            if !(-crate::geometry::MAX_COORD <= p.0 && p.0 <= crate::geometry::MAX_COORD
                && -crate::geometry::MAX_COORD <= p.1 && p.1 <= crate::geometry::MAX_COORD) {
                assert(!coord_ok(city_coords@[i as int]));
                return Err(InstanceError::CoordinateOutOfRange);
            }
            i = i + 1;
        }
        if !is_valid_tour(&optimal_solution, n) {
            return Err(InstanceError::InvalidOptimalTour);
        }
        let adjacency_matrix = Self::distance_table(&city_coords);
        Ok(Instance { name, city_coords, optimal_solution, adjacency_matrix })
    }

    /// Distance table of a list of points: row `a`, column `b` holds the
    /// distance between points `a` and `b`.
    fn distance_table(coords: &Vec<Point>) -> (m: Vec<Vec<u64>>)
        requires
            forall|i: int| 0 <= i < coords@.len() ==> coord_ok(#[trigger] coords@[i]),
        ensures
            m@.len() == coords@.len(),
            forall|a: int| 0 <= a < coords@.len() ==> (#[trigger] m@[a])@.len() == coords@.len(),
            forall|a: int, b: int| 0 <= a < coords@.len() && 0 <= b < coords@.len() ==>
                is_floor_sqrt(#[trigger] m@[a]@[b] as int, sq_dist(coords@[a], coords@[b]))
                && m@[a]@[b] == m@[b]@[a]
                && m@[a]@[b] < MAX_DIST,
    {
        let n = coords.len();
        let mut m: Vec<Vec<u64>> = Vec::new();
        let mut i: usize = 0;
        while i < n
            invariant
                i <= n == coords@.len(),
                forall|k: int| 0 <= k < n ==> coord_ok(#[trigger] coords@[k]),
                m@.len() == i,
                forall|a: int| 0 <= a < i ==> (#[trigger] m@[a])@.len() == n,
                forall|a: int, b: int| 0 <= a < i && 0 <= b < n ==>
                    is_floor_sqrt(#[trigger] m@[a]@[b] as int, sq_dist(coords@[a], coords@[b]))
                    && m@[a]@[b] < MAX_DIST,
                forall|a: int, b: int| 0 <= a < i && 0 <= b < i ==> #[trigger] m@[a]@[b] == m@[b]@[a],
            decreases n - i,
        {
            let mut row: Vec<u64> = Vec::new();
            let mut j: usize = 0;
            while j < n
                invariant
                    i < n == coords@.len(),
                    j <= n,
                    forall|k: int| 0 <= k < n ==> coord_ok(#[trigger] coords@[k]),
                    m@.len() == i,
                    forall|a: int| 0 <= a < i ==> (#[trigger] m@[a])@.len() == n,
                    forall|a: int, b: int| 0 <= a < i && 0 <= b < n ==>
                        is_floor_sqrt(#[trigger] m@[a]@[b] as int, sq_dist(coords@[a], coords@[b]))
                        && m@[a]@[b] < MAX_DIST,
                    row@.len() == j,
                    forall|b: int| 0 <= b < j ==>
                        is_floor_sqrt(#[trigger] row@[b] as int, sq_dist(coords@[i as int], coords@[b]))
                        && row@[b] < MAX_DIST,
                    forall|b: int| 0 <= b < j && b < i ==> #[trigger] row@[b] == m@[b]@[i as int],
                decreases n - j,
            {
                if j < i {
                    let d = m[j][i];
                    proof {
                        lemma_sq_dist_symmetric(coords@[j as int], coords@[i as int]);
                    }
                    row.push(d);
                } else {
                    let d = euclidean_distance(coords[i], coords[j]);
                    row.push(d);
                }
                j = j + 1;
            }
            m.push(row);
            i = i + 1;
            assert forall|a: int, b: int| 0 <= a < i && 0 <= b < i implies #[trigger] m@[a]@[b] == m@[b]@[a] by {
                if a == i - 1 && b < i - 1 {
                    assert(m@[a]@[b] == row@[b]);
                } else if b == i - 1 && a < i - 1 {
                    assert(m@[b]@[a] == row@[a]);
                }
            }
        }
        m
    }

    /// Name of the instance.
    pub fn get_name(&self) -> (r: &String)
        ensures
            r@ == self.name_view(),
    {
        &self.name
    }

    /// Number of cities.
    pub fn num_cities(&self) -> (r: usize)
        requires
            self.wf(),
        ensures
            r == self.n(),
            r <= MAX_CITIES,
    {
        self.city_coords.len()
    }

    /// The reference optimal tour.
    pub fn optimal_solution(&self) -> (r: &Vec<i32>)
        ensures
            r@ == self.optimal(),
    {
        &self.optimal_solution
    }

    /// The city coordinates, in order of city index.
    pub fn city_coords(&self) -> (r: &Vec<Point>)
        ensures
            r@ == self.coords(),
    {
        &self.city_coords
    }

    /// Distance between the cities of zero-based indices `a` and `b`.
    pub fn distance(&self, a: usize, b: usize) -> (r: u64)
        requires
            self.wf(),
            a < self.n(),
            b < self.n(),
        ensures
            r == self.dist(a as int, b as int),
            r < MAX_DIST,
    {
        assert(self.dist(a as int, b as int) < MAX_DIST);
        self.adjacency_matrix[a][b]
    }

    /// Length of the closed tour `solution`: the sum of the distances between
    /// consecutive cities, including the edge back to the first city.
    pub fn get_solution_distance(&self, solution: &Vec<i32>) -> (r: u64)
        requires
            self.wf(),
            is_tour(solution@, self.n()),
        ensures
            r == self.tour_len(solution@),
    {
        let n = solution.len();
        let mut dist: u64 = 0;
        let mut i: usize = 0;
        while i < n
            invariant
                i <= n == self.n(),
                self.wf(),
                is_tour(solution@, n as int),
                dist == seq_sum(self.edges(solution@).take(i as int)),
                dist <= i * MAX_DIST,
            decreases n - i,
        {
            let a = solution[i];
            let b = if i + 1 < n {
                solution[i + 1]
            } else {
                solution[0]
            };
            assert(1 <= solution@[next_pos(i as int, n as int)] <= n);
            let d = self.adjacency_matrix[(a - 1) as usize][(b - 1) as usize];
            assert(self.dist(a - 1, b - 1) < MAX_DIST);
            assert(self.edges(solution@).take(i + 1).drop_last() =~= self.edges(solution@).take(i as int));
            dist = dist + d;
            i = i + 1;
        }
        assert(self.edges(solution@).take(n as int) =~= self.edges(solution@));
        dist
    }

    /// Length of the reference optimal tour.
    pub fn optimal_distance(&self) -> (r: u64)
        requires
            self.wf(),
        ensures
            r == self.tour_len(self.optimal()),
    {
        self.get_solution_distance(&self.optimal_solution)
    }

    /// Score of `solution`: its length divided by the optimal length, in
    /// units of `1 / SCORE_SCALE`, rounded up (so only a tour as short as the
    /// optimal one scores exactly `SCORE_SCALE`); `None` where the optimal
    /// tour has length zero.
    pub fn get_solution_score(&self, solution: &Vec<i32>) -> (r: Option<u128>)
        requires
            self.wf(),
            is_tour(solution@, self.n()),
        ensures
            r == self.score(solution@),
            r matches Some(v) ==> (v <= SCORE_SCALE ==> self.tour_len(solution@) <= self.tour_len(self.optimal())),
            r matches Some(v) ==> (self.tour_len(solution@) >= self.tour_len(self.optimal()) ==> v >= SCORE_SCALE),
            r matches Some(v) ==> (self.tour_len(solution@) == self.tour_len(self.optimal()) ==> v == SCORE_SCALE),
    {
        let opt = self.optimal_distance();
        let len = self.get_solution_distance(solution);
        if opt == 0 {
            None
        } else {
            let v = (len as u128 * SCORE_SCALE + opt as u128 - 1) / opt as u128;
            proof {
                lemma_ceil_ratio(len as int, opt as int, SCORE_SCALE as int);
            }
            Some(v)
        }
    }
}

/// `ceil(len * k / opt)` is at most `k` only for `len <= opt`, and at least
/// `k` for `len >= opt`.
proof fn lemma_ceil_ratio(len: int, opt: int, k: int)
    requires
        0 <= len,
        0 < opt,
        0 < k,
    ensures
        (len * k + opt - 1) / opt <= k ==> len <= opt,
        len >= opt ==> (len * k + opt - 1) / opt >= k,
        len == opt ==> (len * k + opt - 1) / opt == k,
{
    let v = (len * k + opt - 1) / opt;
    vstd::arithmetic::div_mod::lemma_fundamental_div_mod(len * k + opt - 1, opt);
    let r = (len * k + opt - 1) % opt;
    vstd::arithmetic::div_mod::lemma_mod_bound(len * k + opt - 1, opt);
    assert(len * k + opt - 1 == opt * v + r);
    assert(v <= k ==> len <= opt) by (nonlinear_arith)
        requires len * k + opt - 1 == opt * v + r, 0 <= r < opt, 0 < k, 0 < opt;
    assert(len >= opt ==> v >= k) by (nonlinear_arith)
        requires len * k + opt - 1 == opt * v + r, 0 <= r < opt, 0 < k, 0 < opt;
    assert(len == opt ==> v <= k) by (nonlinear_arith)
        requires len * k + opt - 1 == opt * v + r, 0 <= r < opt, 0 < k, 0 < opt;
}

/// The sum of a concatenation is the sum of its parts.
pub proof fn lemma_seq_sum_append(a: Seq<int>, b: Seq<int>)
    ensures
        seq_sum(a + b) == seq_sum(a) + seq_sum(b),
    decreases b.len(),
{
    if b.len() == 0 {
        assert(a + b =~= a);
    } else {
        lemma_seq_sum_append(a, b.drop_last());
        assert((a + b).drop_last() =~= a + b.drop_last());
    }
}

/// The sum of one element is that element.
pub proof fn lemma_seq_sum_single(x: int)
    ensures
        seq_sum(seq![x]) == x,
{
    assert(seq![x].drop_last() =~= Seq::<int>::empty());
    assert(seq_sum(Seq::<int>::empty()) == 0);
}

/// Reversing a sequence keeps its sum.
pub proof fn lemma_seq_sum_reverse(a: Seq<int>)
    ensures
        seq_sum(a.reverse()) == seq_sum(a),
    decreases a.len(),
{
    if a.len() > 0 {
        lemma_seq_sum_reverse(a.drop_last());
        assert(a.reverse() =~= seq![a.last()] + a.drop_last().reverse());
        lemma_seq_sum_append(seq![a.last()], a.drop_last().reverse());
        lemma_seq_sum_single(a.last());
    }
}

/// The tour `s` started from its position `k` instead.
pub open spec fn rotated(s: Seq<i32>, k: int) -> Seq<i32> {
    s.subrange(k, s.len() as int) + s.subrange(0, k)
}

impl Instance {
    /// The length of a tour does not depend on the city it starts from.
    pub proof fn lemma_tour_len_rotation(&self, s: Seq<i32>, k: int)
        requires
            self.wf(),
            is_tour(s, self.n()),
            0 <= k < s.len(),
        ensures
            self.tour_len(rotated(s, k)) == self.tour_len(s),
    {
        let n = s.len() as int;
        let r = rotated(s, k);
        let e = self.edges(s);
        assert(self.edges(r) =~= e.subrange(k, n) + e.subrange(0, k)) by {
            assert forall|i: int| 0 <= i < n implies #[trigger] self.edges(r)[i] == (e.subrange(k, n) + e.subrange(0, k))[i] by {
                if i < n - k {
                    assert(r[i] == s[i + k]);
                    if i + 1 < n - k {
                        assert(r[i + 1] == s[i + k + 1]);
                    } else if i + 1 < n {
                        assert(r[i + 1] == s[0]);
                    }
                } else {
                    assert(r[i] == s[i - (n - k)]);
                    if i + 1 < n {
                        assert(r[i + 1] == s[i + 1 - (n - k)]);
                    } else {
                        assert(r[0] == s[k]);
                    }
                }
            }
        }
        lemma_seq_sum_append(e.subrange(k, n), e.subrange(0, k));
        lemma_seq_sum_append(e.subrange(0, k), e.subrange(k, n));
        assert(e =~= e.subrange(0, k) + e.subrange(k, n));
    }

    /// The length of a tour does not depend on the direction it is walked in.
    pub proof fn lemma_tour_len_reversal(&self, s: Seq<i32>)
        requires
            self.wf(),
            is_tour(s, self.n()),
        ensures
            self.tour_len(s.reverse()) == self.tour_len(s),
    {
        let n = s.len() as int;
        if n > 0 {
            let r = s.reverse();
            let e = self.edges(s);
            assert(self.edges(r) =~= e.take(n - 1).reverse() + seq![e[n - 1]]) by {
                assert forall|i: int| 0 <= i < n implies #[trigger] self.edges(r)[i]
                    == (e.take(n - 1).reverse() + seq![e[n - 1]])[i] by {
                    assert(1 <= s[n - 1 - i] <= n);
                    if i < n - 1 {
                        assert(1 <= s[n - 2 - i] <= n);
                        assert(self.dist(s[n - 1 - i] - 1, s[n - 2 - i] - 1) == self.dist(s[n - 2 - i] - 1, s[n - 1 - i] - 1));
                    } else {
                        assert(1 <= s[0] <= n);
                        assert(self.dist(s[0] - 1, s[n - 1] - 1) == self.dist(s[n - 1] - 1, s[0] - 1));
                    }
                }
            }
            lemma_seq_sum_append(e.take(n - 1).reverse(), seq![e[n - 1]]);
            lemma_seq_sum_reverse(e.take(n - 1));
            lemma_seq_sum_single(e[n - 1]);
            assert(e.drop_last() =~= e.take(n - 1));
        }
    }
}

} // verus!
