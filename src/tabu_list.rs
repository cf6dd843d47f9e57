//! The tabu list and the selection of elite candidate moves.

use vstd::prelude::*;
use crate::search::{Move, same_move};

verus! {

/// Moves that are currently forbidden, each with its remaining tenure.
pub struct TabuList {
    entries: Vec<(Move, u64)>,
}

/// A candidate move with the length of the tour it leads to.
pub type Candidate = (Move, u64);

/// Candidates in ascending order of length.
pub open spec fn sorted_by_length(c: Seq<Candidate>) -> bool {
    forall|i: int, j: int| 0 <= i < j < c.len() ==> #[trigger] c[i].1 <= #[trigger] c[j].1
}

impl TabuList {
    /// The list as a map from move to remaining tenure.
    pub closed spec fn view(&self) -> Map<Move, u64> {
        Map::new(
            |m: Move| exists|k: int| 0 <= k < self.entries@.len() && self.entries@[k].0 == m,
            |m: Move| self.entries@[choose|k: int| 0 <= k < self.entries@.len() && self.entries@[k].0 == m].1,
        )
    }

    /// Each move appears once, and every tenure is at least one.
    pub closed spec fn wf(&self) -> bool {
        &&& forall|i: int, j: int| 0 <= i < j < self.entries@.len() ==>
            #[trigger] self.entries@[i].0 != #[trigger] self.entries@[j].0
        &&& forall|i: int| 0 <= i < self.entries@.len() ==> #[trigger] self.entries@[i].1 >= 1
    }

    proof fn lemma_view_at(&self, k: int)
        requires
            self.wf(),
            0 <= k < self.entries@.len(),
        ensures
            self@.contains_key(self.entries@[k].0),
            self@[self.entries@[k].0] == self.entries@[k].1,
    {
        let m = self.entries@[k].0;
        let j = choose|j: int| 0 <= j < self.entries@.len() && self.entries@[j].0 == m;
        if j != k {
            if j < k {
                assert(self.entries@[j].0 != self.entries@[k].0);
            } else {
                assert(self.entries@[k].0 != self.entries@[j].0);
            }
        }
    }

    /// Every move in the list has a tenure of at least one.
    pub proof fn lemma_tenures_positive(&self)
        requires
            self.wf(),
        ensures
            forall|m: Move| #[trigger] self@.contains_key(m) ==> self@[m] >= 1,
    {
        assert forall|m: Move| #[trigger] self@.contains_key(m) implies self@[m] >= 1 by {
            let k = choose|k: int| 0 <= k < self.entries@.len() && self.entries@[k].0 == m;
            self.lemma_view_at(k);
        }
    }

    /// An empty list.
    pub fn new() -> (r: TabuList)
        ensures
            r.wf(),
            r@ == Map::<Move, u64>::empty(),
    {
        let r = TabuList { entries: Vec::new() };
        assert(r@ =~= Map::<Move, u64>::empty());
        r
    }

    /// Whether move `m` is forbidden.
    pub fn contains(&self, m: Move) -> (r: bool)
        requires
            self.wf(),
        ensures
            r == self@.contains_key(m),
    {
        let mut k: usize = 0;
        while k < self.entries.len()
            invariant
                k <= self.entries@.len(),
                forall|q: int| 0 <= q < k ==> #[trigger] self.entries@[q].0 != m,
            decreases self.entries@.len() - k,
        {
            if same_move(self.entries[k].0, m) {
                assert(self.entries@[k as int].0 == m);
                return true;
            }
            k = k + 1;
        }
        false
    }

    /// Forbids `m` for `tenure` iterations, replacing any tenure it had.
    pub fn insert(&mut self, m: Move, tenure: u64)
        requires
            old(self).wf(),
            tenure >= 1,
        ensures
            final(self).wf(),
            final(self)@ == old(self)@.insert(m, tenure),
    {
        let ghost before = *self;
        let mut k: usize = 0;
        while k < self.entries.len()
            invariant
                *self == before,
                before == *old(self),
                before.wf(),
                tenure >= 1,
                k <= self.entries@.len(),
                forall|q: int| 0 <= q < k ==> #[trigger] self.entries@[q].0 != m,
            decreases self.entries@.len() - k,
        {
            if same_move(self.entries[k].0, m) {
                self.entries.set(k, (m, tenure));
                proof {
                    assert forall|i: int, j: int| 0 <= i < j < self.entries@.len() implies
                        #[trigger] self.entries@[i].0 != #[trigger] self.entries@[j].0 by {
                        assert(before.entries@[i].0 != before.entries@[j].0);
                    }
                    assert(self.wf());
                    assert forall|mm: Move| #[trigger] self@.contains_key(mm) <==> before@.insert(m, tenure).contains_key(mm) by {
                        if mm != m && before@.contains_key(mm) {
                            let j = choose|j: int| 0 <= j < before.entries@.len() && before.entries@[j].0 == mm;
                            assert(self.entries@[j].0 == mm);
                        }
                        if mm == m {
                            assert(self.entries@[k as int].0 == mm);
                        }
                    }
                    assert forall|mm: Move| #[trigger] self@.contains_key(mm) implies self@[mm] == before@.insert(m, tenure)[mm] by {
                        let j = choose|j: int| 0 <= j < self.entries@.len() && self.entries@[j].0 == mm;
                        self.lemma_view_at(j);
                        if j != k {
                            before.lemma_view_at(j);
                        }
                    }
                    assert(self@ =~= before@.insert(m, tenure));
                }
                return;
            }
            k = k + 1;
        }
        self.entries.push((m, tenure));
        proof {
            assert forall|i: int, j: int| 0 <= i < j < self.entries@.len() implies
                #[trigger] self.entries@[i].0 != #[trigger] self.entries@[j].0 by {
                if j < before.entries@.len() {
                    assert(before.entries@[i].0 != before.entries@[j].0);
                }
            }
            assert(self.wf());
            let len = before.entries@.len() as int;
            assert forall|mm: Move| #[trigger] self@.contains_key(mm) <==> before@.insert(m, tenure).contains_key(mm) by {
                if mm != m && before@.contains_key(mm) {
                    let j = choose|j: int| 0 <= j < before.entries@.len() && before.entries@[j].0 == mm;
                    assert(self.entries@[j].0 == mm);
                }
                if mm == m {
                    assert(self.entries@[len].0 == mm);
                }
            }
            assert forall|mm: Move| #[trigger] self@.contains_key(mm) implies self@[mm] == before@.insert(m, tenure)[mm] by {
                let j = choose|j: int| 0 <= j < self.entries@.len() && self.entries@[j].0 == mm;
                self.lemma_view_at(j);
                if j != len {
                    before.lemma_view_at(j);
                }
            }
            assert(self@ =~= before@.insert(m, tenure));
        }
    }

    /// Ages every entry by one iteration; entries whose tenure runs out leave.
    pub fn decay(&mut self)
        requires
            old(self).wf(),
        ensures
            final(self).wf(),
            forall|m: Move| #[trigger] final(self)@.contains_key(m) <==>
                (old(self)@.contains_key(m) && old(self)@[m] > 1),
            forall|m: Move| #[trigger] final(self)@.contains_key(m) ==> final(self)@[m] == old(self)@[m] - 1,
    {
        let ghost before = *self;
        let mut kept: Vec<(Move, u64)> = Vec::new();
        let mut k: usize = 0;
        while k < self.entries.len()
            invariant
                *self == before,
                before.wf(),
                k <= self.entries@.len(),
                forall|i: int, j: int| 0 <= i < j < kept@.len() ==> #[trigger] kept@[i].0 != #[trigger] kept@[j].0,
                forall|i: int| 0 <= i < kept@.len() ==> #[trigger] kept@[i].1 >= 1,
                forall|i: int| 0 <= i < kept@.len() ==> exists|q: int| 0 <= q < k
                    && before.entries@[q].0 == #[trigger] kept@[i].0 && before.entries@[q].1 == kept@[i].1 + 1,
                forall|q: int| 0 <= q < k && #[trigger] before.entries@[q].1 > 1 ==> exists|i: int|
                    0 <= i < kept@.len() && kept@[i].0 == before.entries@[q].0,
            decreases self.entries@.len() - k,
        {
            let (m, t) = self.entries[k];
            if t > 1 {
                let ghost old_kept = kept@;
                assert forall|i: int| 0 <= i < old_kept.len() implies #[trigger] old_kept[i].0 != m by {
                    let q = choose|q: int| 0 <= q < k && before.entries@[q].0 == old_kept[i].0
                        && before.entries@[q].1 == old_kept[i].1 + 1;
                    assert(before.entries@[q].0 != before.entries@[k as int].0);
                }
                kept.push((m, t - 1));
                assert forall|i: int| 0 <= i < kept@.len() implies exists|q: int| 0 <= q < k + 1
                    && before.entries@[q].0 == #[trigger] kept@[i].0 && before.entries@[q].1 == kept@[i].1 + 1 by {
                    if i < old_kept.len() {
                        assert(kept@[i] == old_kept[i]);
                    } else {
                        assert(before.entries@[k as int].0 == kept@[i].0);
                    }
                }
                assert forall|q: int| 0 <= q < k + 1 && #[trigger] before.entries@[q].1 > 1 implies exists|i: int|
                    0 <= i < kept@.len() && kept@[i].0 == before.entries@[q].0 by {
                    if q < k {
                        let i = choose|i: int| 0 <= i < old_kept.len() && old_kept[i].0 == before.entries@[q].0;
                        assert(kept@[i] == old_kept[i]);
                    } else {
                        assert(kept@[old_kept.len() as int].0 == before.entries@[q].0);
                    }
                }
            }
            k = k + 1;
        }
        self.entries = kept;
        proof {
            assert forall|m: Move| #[trigger] self@.contains_key(m) <==>
                (before@.contains_key(m) && before@[m] > 1) by {
                if self@.contains_key(m) {
                    let i = choose|i: int| 0 <= i < self.entries@.len() && self.entries@[i].0 == m;
                    let q = choose|q: int| 0 <= q < before.entries@.len()
                        && before.entries@[q].0 == self.entries@[i].0 && before.entries@[q].1 == self.entries@[i].1 + 1;
                    before.lemma_view_at(q);
                }
                if before@.contains_key(m) && before@[m] > 1 {
                    let q = choose|q: int| 0 <= q < before.entries@.len() && before.entries@[q].0 == m;
                    before.lemma_view_at(q);
                    assert(before.entries@[q].1 > 1);
                }
            }
            assert forall|m: Move| #[trigger] self@.contains_key(m) implies self@[m] == before@[m] - 1 by {
                let i = choose|i: int| 0 <= i < self.entries@.len() && self.entries@[i].0 == m;
                self.lemma_view_at(i);
                let q = choose|q: int| 0 <= q < before.entries@.len()
                    && before.entries@[q].0 == self.entries@[i].0 && before.entries@[q].1 == self.entries@[i].1 + 1;
                before.lemma_view_at(q);
            }
        }
    }
}

/// Inserting a candidate where the lengths pass it keeps a list sorted, and
/// a new candidate keeps it free of repeats.
proof fn lemma_insert_keeps_order(before: Seq<Candidate>, p: int, c: Candidate)
    requires
        sorted_by_length(before),
        before.no_duplicates(),
        !before.contains(c),
        0 <= p <= before.len(),
        forall|j: int| 0 <= j < p ==> (#[trigger] before[j]).1 <= c.1,
        p < before.len() ==> before[p].1 > c.1,
    ensures
        sorted_by_length(before.insert(p, c)),
        before.insert(p, c).no_duplicates(),
{
    let inserted = before.insert(p, c);
    let len = before.len();
    assert(sorted_by_length(inserted)) by {
        assert forall|a: int, b: int| 0 <= a < b < inserted.len() implies
            #[trigger] inserted[a].1 <= #[trigger] inserted[b].1 by {
            if b < p {
            } else if b == p {
            } else if a < p {
                assert(inserted[b] == before[b - 1]);
                if p < len {
                    assert(before[p].1 > c.1);
                    assert(before[p].1 <= before[b - 1].1);
                }
            } else if a == p {
                assert(inserted[b] == before[b - 1]);
                assert(before[p].1 <= before[b - 1].1);
            } else {
                assert(inserted[a] == before[a - 1]);
                assert(inserted[b] == before[b - 1]);
            }
        }
    }
    assert(inserted.no_duplicates()) by {
        assert forall|a: int, b: int| 0 <= a < inserted.len() && 0 <= b < inserted.len() && a != b
            implies inserted[a] != inserted[b] by {
            if a != p && b != p {
                let a0 = if a < p { a } else { a - 1 };
                let b0 = if b < p { b } else { b - 1 };
                assert(inserted[a] == before[a0]);
                assert(inserted[b] == before[b0]);
            } else if a == p {
                let b0 = if b < p { b } else { b - 1 };
                assert(inserted[b] == before[b0]);
            } else {
                let a0 = if a < p { a } else { a - 1 };
                assert(inserted[a] == before[a0]);
            }
        }
    }
}

/// One step of `select_elite`: the candidate at `i` enters the list at `p`,
/// and the longest entry leaves where the list is over `k`.
proof fn lemma_elite_step(cands: Seq<Candidate>, i: int, k: int, before: Seq<Candidate>, p: int, now: Seq<Candidate>)
    requires
        0 <= i < cands.len(),
        k >= 1,
        cands.no_duplicates(),
        sorted_by_length(before),
        before.len() == if k < i { k } else { i },
        forall|j: int| 0 <= j < before.len() ==> exists|q: int| 0 <= q < i && cands[q] == #[trigger] before[j],
        forall|q: int| 0 <= q < i ==>
            before.contains(#[trigger] cands[q]) || (before.len() == k && before.len() > 0 && cands[q].1 >= before.last().1),
        before.len() < k || (before.len() > 0 && cands[i].1 < before.last().1),
        0 <= p <= before.len(),
        forall|j: int| 0 <= j < p ==> (#[trigger] before[j]).1 <= cands[i].1,
        p < before.len() ==> before[p].1 > cands[i].1,
        sorted_by_length(before.insert(p, cands[i])),
        now == if before.len() + 1 > k { before.insert(p, cands[i]).drop_last() } else { before.insert(p, cands[i]) },
    ensures
        now.len() == if k < i + 1 { k } else { i + 1 },
        forall|j: int| 0 <= j < now.len() ==> exists|q: int| 0 <= q < i + 1 && cands[q] == #[trigger] now[j],
        forall|q: int| 0 <= q < i + 1 ==>
            now.contains(#[trigger] cands[q]) || (now.len() == k && now.len() > 0 && cands[q].1 >= now.last().1),
{
    let c = cands[i];
    let len = before.len();
    let inserted = before.insert(p, c);
    if len + 1 > k {
        assert(p < len);
    }

    assert(now.len() > 0);
    assert(now[p] == c);
    assert(now.last().1 <= before.last().1 || len < k) by {
        if len >= k {
            assert(now.last() == inserted[len - 1]);
            if p < len - 1 {
                assert(inserted[len - 1] == before[len - 2]);
            }
        }
    }
    assert forall|j: int| 0 <= j < now.len() implies exists|q: int| 0 <= q < i + 1
        && cands[q] == #[trigger] now[j] by {
        if j == p {
            assert(cands[i] == now[j]);
        } else {
            let j0 = if j < p { j } else { j - 1 };
            assert(now[j] == before[j0]);
            let q = choose|q: int| 0 <= q < i && cands[q] == before[j0];
        }
    }
    assert forall|q: int| 0 <= q < i + 1 implies
        now.contains(#[trigger] cands[q]) || (now.len() == k && now.len() > 0 && cands[q].1 >= now.last().1) by {
        if q == i {
            assert(now[p] == cands[q]);
        } else if before.contains(cands[q]) {
            let j = choose|j: int| 0 <= j < before.len() && before[j] == cands[q];
            let j1 = if j < p { j } else { j + 1 };
            assert(inserted[j1] == cands[q]);
            if j1 < now.len() {
                assert(now[j1] == cands[q]);
            } else {
                assert(inserted[j1].1 >= inserted[now.len() - 1].1);
            }
        }
    }
}

/// The `k` shortest candidates, in ascending order of length; of two
/// candidates of equal length the earlier one comes first.
pub fn select_elite(cands: &Vec<Candidate>, k: usize) -> (r: Vec<Candidate>)
    requires
        cands@.no_duplicates(),
        k >= 1,
    ensures
        sorted_by_length(r@),
        r@.len() == if k < cands@.len() { k as int } else { cands@.len() as int },
        r@.no_duplicates(),
        forall|j: int| 0 <= j < r@.len() ==> cands@.contains(#[trigger] r@[j]),
        forall|c: Candidate| #[trigger] cands@.contains(c) ==>
            r@.contains(c) || (r@.len() == k && r@.len() > 0 && c.1 >= r@.last().1),
{
    let mut r: Vec<Candidate> = Vec::new();
    let mut i: usize = 0;
    while i < cands.len()
        invariant
            k >= 1,
            i <= cands@.len(),
            cands@.no_duplicates(),
            sorted_by_length(r@),
            r@.len() == if k < i { k as int } else { i as int },
            r@.no_duplicates(),
            forall|j: int| 0 <= j < r@.len() ==> exists|q: int| 0 <= q < i && cands@[q] == #[trigger] r@[j],
            forall|q: int| 0 <= q < i ==>
                r@.contains(#[trigger] cands@[q]) || (r@.len() == k && r@.len() > 0 && cands@[q].1 >= r@.last().1),
        decreases cands@.len() - i,
    {
        let c = cands[i];
        let len = r.len();
        if len < k || (len > 0 && c.1 < r[len - 1].1) {
            let mut p: usize = 0;
            while p < len && r[p].1 <= c.1
                invariant
                    p <= len == r@.len(),
                    forall|j: int| 0 <= j < p ==> (#[trigger] r@[j]).1 <= c.1,
                decreases len - p,
            {
                p = p + 1;
            }
            let ghost before = r@;
            assert(!before.contains(c)) by {
                if before.contains(c) {
                    let j = choose|j: int| 0 <= j < before.len() && before[j] == c;
                    let q = choose|q: int| 0 <= q < i && cands@[q] == before[j];
                    assert(cands@[q] == cands@[i as int]);
                }
            }
            r.insert(p, c);
            let ghost inserted = r@;
            assert(inserted == before.insert(p as int, c));
            proof {
                lemma_insert_keeps_order(before, p as int, c);
            }
            if r.len() > k {
                assert(p < len);
                r.pop();
            }
            proof {
                lemma_elite_step(cands@, i as int, k as int, before, p as int, r@);
            }
        } else {
            proof {
                assert forall|q: int| 0 <= q < i + 1 implies
                    r@.contains(#[trigger] cands@[q]) || (r@.len() == k && r@.len() > 0 && cands@[q].1 >= r@.last().1) by {
                }
            }
        }
        i = i + 1;
    }
    proof {
        assert forall|j: int| 0 <= j < r@.len() implies cands@.contains(#[trigger] r@[j]) by {
            let q = choose|q: int| 0 <= q < i && cands@[q] == r@[j];
        }
        assert forall|c: Candidate| #[trigger] cands@.contains(c) implies
            r@.contains(c) || (r@.len() == k && r@.len() > 0 && c.1 >= r@.last().1) by {
            let q = choose|q: int| 0 <= q < cands@.len() && cands@[q] == c;
            assert(r@.contains(cands@[q]) || (r@.len() == k && r@.len() > 0 && cands@[q].1 >= r@.last().1));
        }
    }
    r
}

} // verus!
