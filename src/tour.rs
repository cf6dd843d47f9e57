//! Tours as permutations of the cities `1..=n`, and the swap move on them.

use vstd::prelude::*;

verus! {

/// `s` visits each city `1..=n` exactly once.
pub open spec fn is_tour(s: Seq<i32>, n: int) -> bool {
    &&& s.len() == n
    &&& forall|i: int| 0 <= i < n ==> 1 <= #[trigger] s[i] <= n
    &&& s.no_duplicates()
}

/// `s` with the entries at positions `a` and `b` exchanged.
pub open spec fn swapped(s: Seq<i32>, a: int, b: int) -> Seq<i32> {
    s.update(a, s[b]).update(b, s[a])
}

/// The tour `1, 2, ..., n`.
pub open spec fn identity_tour(n: int) -> Seq<i32> {
    Seq::new(n as nat, |i: int| (i + 1) as i32)
}

/// Exchanging two positions of a tour yields a tour.
pub proof fn lemma_swap_keeps_tour(s: Seq<i32>, n: int, a: int, b: int)
    requires
        is_tour(s, n),
        0 <= a < n,
        0 <= b < n,
    ensures
        is_tour(swapped(s, a, b), n),
{
    let t = swapped(s, a, b);
    assert forall|i: int| 0 <= i < n implies 1 <= #[trigger] t[i] <= n by {
        if i == b {
        } else if i == a {
        } else {
        }
    }
    assert forall|i: int, j: int| 0 <= i < n && 0 <= j < n && i != j implies t[i] != t[j] by {
        let pi = if i == a { b } else if i == b { a } else { i };
        let pj = if j == a { b } else if j == b { a } else { j };
        assert(t[i] == s[pi]);
        assert(t[j] == s[pj]);
    }
}

/// A rearrangement of a tour (same multiset of entries) is a tour.
pub proof fn lemma_permutation_keeps_tour(s: Seq<i32>, t: Seq<i32>, n: int)
    requires
        is_tour(s, n),
        t.to_multiset() == s.to_multiset(),
    ensures
        is_tour(t, n),
{
    broadcast use vstd::seq_lib::group_to_multiset_ensures;

    vstd::seq_lib::to_multiset_len(t);
    vstd::seq_lib::to_multiset_len(s);
    assert(t.len() == s.len());
    assert forall|i: int| 0 <= i < n implies 1 <= #[trigger] t[i] <= n by {
        assert(t.contains(t[i]));
        assert(s.to_multiset().count(t[i]) > 0);
        assert(s.contains(t[i]));
    }
    s.lemma_multiset_has_no_duplicates();
    t.lemma_multiset_has_no_duplicates_conv();
}

/// The identity tour is a tour.
pub proof fn lemma_identity_is_tour(n: int)
    requires
        0 <= n <= i32::MAX,
    ensures
        is_tour(identity_tour(n), n),
{
    let s = identity_tour(n);
    assert forall|i: int| 0 <= i < n implies 1 <= #[trigger] s[i] <= n by {
        assert(s[i] == i + 1);
    }
    assert forall|i: int, j: int| 0 <= i < n && 0 <= j < n && i != j implies s[i] != s[j] by {
        assert(s[i] == i + 1);
        assert(s[j] == j + 1);
    }
}

/// Builds the tour `1, 2, ..., n`.
pub fn make_identity_tour(n: usize) -> (r: Vec<i32>)
    requires
        n <= i32::MAX,
    ensures
        r@ == identity_tour(n as int),
{
    let mut v: Vec<i32> = Vec::new();
    let mut i: usize = 0;
    while i < n
        invariant
            i <= n <= i32::MAX,
            v@ == identity_tour(i as int),
        decreases n - i,
    {
        v.push((i + 1) as i32);
        i = i + 1;
        assert(v@ =~= identity_tour(i as int));
    }
    v
}

/// Decides whether `s` is a tour over `n` cities.
pub fn is_valid_tour(s: &Vec<i32>, n: usize) -> (r: bool)
    ensures
        r == is_tour(s@, n as int),
{
    if s.len() != n {
        return false;
    }
    let mut seen: Vec<bool> = Vec::new();
    let mut k: usize = 0;
    while k < n
        invariant
            k <= n,
            seen@.len() == k,
            forall|c: int| 0 <= c < k ==> !seen@[c],
        decreases n - k,
    {
        seen.push(false);
        k = k + 1;
    }
    let mut i: usize = 0;
    while i < n
        invariant
            i <= n,
            s@.len() == n,
            seen@.len() == n,
            forall|k: int| 0 <= k < i ==> 1 <= #[trigger] s@[k] <= n,
            forall|k: int, l: int| 0 <= k < i && 0 <= l < i && k != l ==> s@[k] != s@[l],
            forall|c: int|
                0 <= c < n ==> (#[trigger] seen@[c] <==> exists|k: int| 0 <= k < i && s@[k] == c + 1),
        decreases n - i,
    {
        let v = s[i];
        if v < 1 || v as usize > n {
            assert(!is_tour(s@, n as int));
            return false;
        }
        let c = (v - 1) as usize;
        if seen[c] {
            proof {
                let k = choose|k: int| 0 <= k < i && s@[k] == c + 1;
                assert(s@[k] == s@[i as int]);
            }
            assert(!is_tour(s@, n as int));
            return false;
        }
        seen.set(c, true);
        i = i + 1;
        assert forall|d: int|
            0 <= d < n implies (#[trigger] seen@[d] <==> exists|k: int|
                0 <= k < i && s@[k] == d + 1) by {
            if d != c {
                if seen@[d] {
                    let k = choose|k: int| 0 <= k < i - 1 && s@[k] == d + 1;
                    assert(0 <= k < i && s@[k] == d + 1);
                }
            } else {
                assert(s@[i - 1] == d + 1);
            }
        }
    }
    true
}

/// A sequence of fewer than `n` distinct cities of `1..=n` misses one.
pub proof fn lemma_missing_city(path: Seq<i32>, n: int)
    requires
        path.len() < n <= i32::MAX,
        path.no_duplicates(),
        forall|i: int| 0 <= i < path.len() ==> 1 <= #[trigger] path[i] <= n,
    ensures
        exists|c: i32| 1 <= c <= n && !(#[trigger] path.contains(c)),
{
    let ints = path.map_values(|x: i32| x as int);
    assert(ints.no_duplicates()) by {
        assert forall|i: int, j: int| 0 <= i < ints.len() && 0 <= j < ints.len() && i != j
            implies ints[i] != ints[j] by {
            assert(path[i] != path[j]);
        }
    }
    ints.unique_seq_to_set();
    vstd::set_lib::lemma_int_range(1, n + 1);
    if forall|c: i32| 1 <= c <= n ==> #[trigger] path.contains(c) {
        let full = vstd::set_lib::set_int_range(1, n + 1);
        assert(full.subset_of(ints.to_set())) by {
            assert forall|c: int| full.contains(c) implies ints.to_set().contains(c) by {
                assert(path.contains(c as i32)) by {
                    assert(1 <= (c as i32) <= n);
                }
                let i = choose|i: int| 0 <= i < path.len() && path[i] == c as i32;
                assert(ints[i] == c);
            }
        }
        ints.lemma_cardinality_of_set();
        vstd::set_lib::lemma_len_subset(full, ints.to_set());
        assert(false);
    }
}

} // verus!
