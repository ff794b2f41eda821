//! A heap of ranked items whose lowest is at hand.

use vstd::prelude::*;

verus! {

/// An item: three numbers by which items are ranked, and a fourth that tells what the
/// item stands for.
pub type RankItem = (u64, u64, usize, usize);

/// Whether `a` ranks no higher than `b`.
pub open spec fn rank_le(a: RankItem, b: RankItem) -> bool {
    a.0 < b.0 || (a.0 == b.0 && (a.1 < b.1 || (a.1 == b.1 && a.2 <= b.2)))
}

/// Whether `a` ranks no higher than `b`.
pub fn ranks_le(a: RankItem, b: RankItem) -> (r: bool)
    ensures
        r == rank_le(a, b),
{
    a.0 < b.0 || (a.0 == b.0 && (a.1 < b.1 || (a.1 == b.1 && a.2 <= b.2)))
}

/// A heap of distinct items.
pub struct RankHeap {
    items: Vec<RankItem>,
}

spec fn parent(i: int) -> int {
    (i - 1) / 2
}

/// Whether the item at `i` ranks no lower than its parent.
spec fn ordered_at(s: Seq<RankItem>, i: int) -> bool {
    rank_le(s[parent(i)], s[i])
}

spec fn is_heap(s: Seq<RankItem>) -> bool {
    forall|i: int| 0 < i < s.len() ==> #[trigger] ordered_at(s, i)
}

/// A heap but for the item at `k`, which may rank too low for its place.
spec fn heap_but_up(s: Seq<RankItem>, k: int) -> bool {
    &&& forall|i: int| 0 < i < s.len() && i != k ==> #[trigger] ordered_at(s, i)
    &&& forall|c: int|
        0 < c < s.len() && parent(c) == k && k > 0 ==> rank_le(s[parent(k)], #[trigger] s[c])
}

/// A heap but for the item at `k`, which may rank too high for its place.
spec fn heap_but_down(s: Seq<RankItem>, k: int) -> bool {
    &&& forall|i: int| 0 < i < s.len() && parent(i) != k ==> #[trigger] ordered_at(s, i)
    &&& forall|c: int|
        0 < c < s.len() && parent(c) == k && k > 0 ==> rank_le(s[parent(k)], #[trigger] s[c])
}

proof fn lemma_root_is_lowest(s: Seq<RankItem>, i: int)
    requires
        is_heap(s),
        0 <= i < s.len(),
    ensures
        rank_le(s[0], s[i]),
    decreases i,
{
    if i > 0 {
        assert(ordered_at(s, i));
        lemma_root_is_lowest(s, parent(i));
    }
}

spec fn swapped(s: Seq<RankItem>, i: int, j: int) -> Seq<RankItem> {
    s.update(i, s[j]).update(j, s[i])
}

proof fn lemma_swapped(s: Seq<RankItem>, i: int, j: int)
    requires
        0 <= i < s.len(),
        0 <= j < s.len(),
        s.no_duplicates(),
    ensures
        swapped(s, i, j).no_duplicates(),
        swapped(s, i, j).to_set() == s.to_set(),
{
    let t = swapped(s, i, j);
    assert forall|x: RankItem| t.to_set().contains(x) == s.to_set().contains(x) by {
        if s.contains(x) {
            let k = choose|k: int| 0 <= k < s.len() && s[k] == x;
            if k == i {
                assert(t[j] == x);
            } else if k == j {
                assert(t[i] == x);
            } else {
                assert(t[k] == x);
            }
        }
        if t.contains(x) {
            let k = choose|k: int| 0 <= k < t.len() && t[k] == x;
            if k == j {
                assert(s[i] == x);
            } else if k == i {
                assert(s[j] == x);
            } else {
                assert(s[k] == x);
            }
        }
    }
    assert(t.to_set() =~= s.to_set());
}

impl RankHeap {
    /// The items.
    pub closed spec fn view(&self) -> Set<RankItem> {
        self.items@.to_set()
    }

    pub closed spec fn wf(&self) -> bool {
        is_heap(self.items@) && self.items@.no_duplicates()
    }

    /// A heap without items.
    pub fn new() -> (r: RankHeap)
        ensures
            r.wf(),
            r@ == Set::<RankItem>::empty(),
    {
        let r = RankHeap { items: Vec::new() };
        assert(r@ =~= Set::<RankItem>::empty());
        r
    }

    /// The number of items.
    pub fn len(&self) -> (r: usize)
        requires
            self.wf(),
        ensures
            r == self@.len(),
            self@.finite(),
    {
        proof {
            self.items@.unique_seq_to_set();
        }
        self.items.len()
    }

    pub proof fn lemma_finite(&self)
        requires
            self.wf(),
        ensures
            self@.finite(),
    {
        self.items@.unique_seq_to_set();
    }

    /// The item that ranks lowest.
    pub fn min(&self) -> (r: Option<RankItem>)
        requires
            self.wf(),
        ensures
            match r {
                Some(m) => self@.contains(m) && forall|x: RankItem| #[trigger]
                    self@.contains(x) ==> rank_le(m, x),
                None => self@ == Set::<RankItem>::empty(),
            },
    {
        if self.items.len() == 0 {
            assert(self@ =~= Set::<RankItem>::empty());
            return None;
        }
        let m = self.items[0];
        proof {
            assert(self.items@.contains(self.items@[0]));
            assert forall|x: RankItem| #[trigger] self@.contains(x) implies rank_le(m, x) by {
                let i = choose|i: int| 0 <= i < self.items@.len() && self.items@[i] == x;
                lemma_root_is_lowest(self.items@, i);
            }
        }
        Some(m)
    }

    /// Adds an item.
    pub fn push(&mut self, x: RankItem)
        requires
            old(self).wf(),
            !old(self)@.contains(x),
        ensures
            final(self).wf(),
            final(self)@ == old(self)@.insert(x),
    {
        let ghost before = self.items@;
        self.items.push(x);
        proof {
            let s = self.items@;
            assert(s.no_duplicates()) by {
                assert forall|i: int, j: int| 0 <= i < s.len() && 0 <= j < s.len() && i != j implies s[i]
                    != s[j] by {
                    if i == before.len() {
                        assert(before.contains(s[j]));
                    } else if j == before.len() {
                        assert(before.contains(s[i]));
                    }
                }
            }
            assert(s.to_set() =~= before.to_set().insert(x)) by {
                assert forall|y: RankItem| s.to_set().contains(y) == before.to_set().insert(
                    x,
                ).contains(y) by {
                    if before.contains(y) {
                        let i = choose|i: int| 0 <= i < before.len() && before[i] == y;
                        assert(s[i] == y);
                    }
                    if y == x {
                        assert(s[before.len() as int] == x);
                    }
                    if s.contains(y) && y != x {
                        let i = choose|i: int| 0 <= i < s.len() && s[i] == y;
                        assert(before[i] == y);
                    }
                }
            }
            assert forall|i: int| 0 < i < s.len() && i != before.len() implies #[trigger] ordered_at(
                s,
                i,
            ) by {
                assert(ordered_at(before, i));
            }
        }
        let mut k: usize = self.items.len() - 1;
        let mut more = true;
        while more
            invariant
                k < self.items@.len(),
                self.items@.no_duplicates(),
                self.items@.to_set() == old(self)@.insert(x),
                heap_but_up(self.items@, k as int),
                !more ==> is_heap(self.items@),
            decreases k + (if more {
                    1int
                } else {
                    0
                }),
        {
            let ghost s = self.items@;
            if k == 0 {
                more = false;
            } else {
                let p: usize = (k - 1) / 2;
                let a = self.items[p];
                let b = self.items[k];
                if ranks_le(a, b) {
                    more = false;
                    assert(is_heap(s)) by {
                        assert forall|i: int| 0 < i < s.len() implies #[trigger] ordered_at(s, i) by {
                            if i == k {
                                assert(parent(i) == p);
                            }
                        }
                    }
                } else {
                    self.items.set(p, b);
                    self.items.set(k, a);
                    proof {
                        assert(self.items@ =~= swapped(s, p as int, k as int));
                        lemma_swapped(s, p as int, k as int);
                        lemma_sift_up(s, k as int);
                    }
                    k = p;
                }
            }
        }
    }

    /// Takes the item that ranks lowest out and adds another. Returns the former.
    pub fn replace_min(&mut self, x: RankItem) -> (r: RankItem)
        requires
            old(self).wf(),
            old(self)@.len() > 0,
            !old(self)@.contains(x),
        ensures
            final(self).wf(),
            old(self)@.contains(r),
            forall|y: RankItem| #[trigger] old(self)@.contains(y) ==> rank_le(r, y),
            final(self)@ == old(self)@.remove(r).insert(x),
    {
        let ghost before = self.items@;
        proof {
            before.unique_seq_to_set();
        }
        let r = self.items[0];
        self.items.set(0, x);
        proof {
            let s = self.items@;
            assert(before.contains(before[0]));
            assert forall|y: RankItem| #[trigger] old(self)@.contains(y) implies rank_le(r, y) by {
                let i = choose|i: int| 0 <= i < before.len() && before[i] == y;
                lemma_root_is_lowest(before, i);
            }
            assert(s.no_duplicates()) by {
                assert forall|i: int, j: int| 0 <= i < s.len() && 0 <= j < s.len() && i != j implies s[i]
                    != s[j] by {
                    if i == 0 {
                        assert(before.contains(s[j]));
                    } else if j == 0 {
                        assert(before.contains(s[i]));
                    }
                }
            }
            assert(s.to_set() =~= before.to_set().remove(r).insert(x)) by {
                assert forall|y: RankItem| s.to_set().contains(y) == before.to_set().remove(r).insert(
                    x,
                ).contains(y) by {
                    if before.contains(y) && y != r {
                        let i = choose|i: int| 0 <= i < before.len() && before[i] == y;
                        assert(s[i] == y);
                    }
                    if y == x {
                        assert(s[0] == x);
                    }
                    if s.contains(y) && y != x {
                        let i = choose|i: int| 0 <= i < s.len() && s[i] == y;
                        assert(before[i] == y);
                    }
                }
            }
            assert forall|i: int| 0 < i < s.len() && parent(i) != 0 implies #[trigger] ordered_at(
                s,
                i,
            ) by {
                assert(ordered_at(before, i));
            }
        }
        let n: usize = self.items.len();
        let mut k: usize = 0;
        let mut more = true;
        while more
            invariant
                k < n == self.items@.len(),
                self.items@.no_duplicates(),
                self.items@.to_set() == old(self)@.remove(r).insert(x),
                heap_but_down(self.items@, k as int),
                !more ==> is_heap(self.items@),
            decreases n - k + (if more {
                    1int
                } else {
                    0
                }),
        {
            let ghost s = self.items@;
            if k >= n / 2 {
                more = false;
                assert(is_heap(s)) by {
                    assert forall|i: int| 0 < i < s.len() implies #[trigger] ordered_at(s, i) by {
                        assert(parent(i) != k);
                    }
                }
            } else {
                let left: usize = 2 * k + 1;
                let right: usize = left + 1;
                let c: usize = if right < n && !ranks_le(self.items[left], self.items[right]) {
                    right
                } else {
                    left
                };
                let a = self.items[k];
                let b = self.items[c];
                assert(parent(left as int) == k && parent(right as int) == k);
                assert forall|i: int| 0 < i < n && parent(i) == k implies rank_le(
                    b,
                    #[trigger] s[i],
                ) by {
                    assert(i == left || i == right);
                }
                if ranks_le(a, b) {
                    more = false;
                    assert(is_heap(s)) by {
                        assert forall|i: int| 0 < i < s.len() implies #[trigger] ordered_at(s, i) by {
                            if parent(i) == k {
                                assert(rank_le(b, s[i]));
                            }
                        }
                    }
                } else {
                    self.items.set(k, b);
                    self.items.set(c, a);
                    proof {
                        assert(self.items@ =~= swapped(s, k as int, c as int));
                        lemma_swapped(s, k as int, c as int);
                        lemma_sift_down(s, k as int, c as int);
                    }
                    k = c;
                }
            }
        }
        r
    }

}

proof fn lemma_sift_up(s: Seq<RankItem>, k: int)
    requires
        0 < k < s.len(),
        heap_but_up(s, k),
        !rank_le(s[parent(k)], s[k]),
    ensures
        heap_but_up(swapped(s, parent(k), k), parent(k)),
{
    let p = parent(k);
    let t = swapped(s, p, k);
    assert forall|i: int| 0 < i < t.len() && i != p implies #[trigger] ordered_at(t, i) by {
        if i == k {
            assert(t[parent(i)] == s[k] && t[i] == s[p]);
        } else {
            assert(ordered_at(s, i));
            if parent(i) == p {
                assert(t[parent(i)] == s[k]);
                assert(t[i] == s[i]);
            } else if parent(i) == k {
                assert(rank_le(s[p], s[i]));
            }
        }
    }
    assert forall|c: int| 0 < c < t.len() && parent(c) == p && p > 0 implies rank_le(
        t[parent(p)],
        #[trigger] t[c],
    ) by {
        assert(ordered_at(s, p));
        if c == k {
        } else {
            assert(ordered_at(s, c));
        }
    }
}

proof fn lemma_sift_down(s: Seq<RankItem>, k: int, c: int)
    requires
        0 <= k < s.len(),
        0 < c < s.len(),
        parent(c) == k,
        heap_but_down(s, k),
        forall|i: int| 0 < i < s.len() && parent(i) == k ==> rank_le(s[c], #[trigger] s[i]),
        !rank_le(s[k], s[c]),
    ensures
        heap_but_down(swapped(s, k, c), c),
{
    let t = swapped(s, k, c);
    assert forall|i: int| 0 < i < t.len() && parent(i) != c implies #[trigger] ordered_at(t, i) by {
        if i == k {
            assert(rank_le(s[parent(k)], s[c]));
        } else if parent(i) == k {
            if i != c {
                assert(rank_le(s[c], s[i]));
            }
        } else {
            assert(ordered_at(s, i));
        }
    }
    assert forall|d: int| 0 < d < t.len() && parent(d) == c && c > 0 implies rank_le(
        t[parent(c)],
        #[trigger] t[d],
    ) by {
        assert(ordered_at(s, d));
        assert(t[d] == s[d]);
    }
}

} // verus!
