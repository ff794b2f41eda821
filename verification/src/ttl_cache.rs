//! A keyed store whose entries expire.
//!
//! The store knows nothing of what it holds. Every write gives the entry a new
//! generation number, so that a caller that has seen an entry can later act on
//! exactly that generation. Entries are spread over buckets by a hash of the
//! key.

use vstd::prelude::*;

verus! {

/// A key that the store can compare, hash and copy.
pub trait TtlKey: View + Sized {
    /// The hash of a key with the given view.
    spec fn hash_of(v: <Self as View>::V) -> u64;

    fn hash_key(&self) -> (r: u64)
        ensures
            r == Self::hash_of(self@),
    ;

    fn same_key(&self, other: &Self) -> (r: bool)
        ensures
            r == (self@ == other@),
    ;

    fn copy_key(&self) -> (r: Self)
        ensures
            r@ == self@,
    ;
}

/// An entry of the store.
pub struct TtlEntry<K, V> {
    pub key: K,
    pub value: V,
    pub cache_time_ms: u64,
    pub expire_at_ms: u64,
    pub last_access_ms: u64,
    pub generation: u64,
}

/// What the store holds under a key.
pub struct Slot<V> {
    pub value: V,
    pub cache_time_ms: u64,
    pub expire_at_ms: u64,
    pub last_access_ms: u64,
    pub generation: u64,
}

/// The store.
pub struct TtlCache<K: TtlKey, V> {
    buckets: Vec<Vec<TtlEntry<K, V>>>,
    count: usize,
    next_generation: u64,
}

/// What a read found.
pub enum TtlLookup {
    /// A retained entry of this generation.
    Hit(u64),
    /// An entry that had expired and was removed.
    Expired,
    /// Nothing.
    Missing,
}

/// How to prune the store.
#[derive(Debug, Clone, Copy, PartialEq, Eq, Structural)]
pub enum TtlCachePruneMode {
    /// Remove every expired entry, then the least recently used ones down to
    /// `max_size`.
    Exact { max_size: usize },
    /// Look at a bounded sample only. Once more than the high watermark remain,
    /// remove the least recently used ones of the sample down to the low
    /// watermark.
    Periodic { max_size: usize, high_watermark_pct: usize, low_watermark_pct: usize },
}

/// The largest sample of a periodic prune.
pub const PRUNE_SAMPLE: usize = 4096;

/// The most buckets of a store.
pub const MAX_BUCKETS: usize = 16384;

pub open spec fn slot_of<K, V>(e: TtlEntry<K, V>) -> Slot<V> {
    Slot {
        value: e.value,
        cache_time_ms: e.cache_time_ms,
        expire_at_ms: e.expire_at_ms,
        last_access_ms: e.last_access_ms,
        generation: e.generation,
    }
}

/// Whether the entry at `i` has the key `k`.
spec fn at<K: TtlKey, V>(s: Seq<TtlEntry<K, V>>, i: int, k: K::V) -> bool {
    0 <= i < s.len() && s[i].key@ == k
}

/// Whether no key occurs twice.
spec fn distinct<K: TtlKey, V>(s: Seq<TtlEntry<K, V>>) -> bool {
    forall|i: int, j: int|
        0 <= i < j < s.len() ==> (#[trigger] s[i]).key@ != (#[trigger] s[j]).key@
}

/// What a list of entries holds under `k`.
spec fn find<K: TtlKey, V>(s: Seq<TtlEntry<K, V>>, k: K::V) -> Option<Slot<V>> {
    if exists|i: int| at(s, i, k) {
        Some(slot_of(s[choose|i: int| at(s, i, k)]))
    } else {
        None
    }
}

proof fn lemma_find_at<K: TtlKey, V>(s: Seq<TtlEntry<K, V>>, i: int)
    requires
        distinct(s),
        0 <= i < s.len(),
    ensures
        find(s, s[i].key@) == Some(slot_of(s[i])),
{
    let k = s[i].key@;
    assert(at(s, i, k));
    let j = choose|j: int| at(s, j, k);
    assert(at(s, j, k));
    if j < i {
        assert(s[j].key@ != s[i].key@);
    } else if i < j {
        assert(s[i].key@ != s[j].key@);
    }
}

proof fn lemma_find_none<K: TtlKey, V>(s: Seq<TtlEntry<K, V>>, k: K::V)
    requires
        forall|i: int| 0 <= i < s.len() ==> (#[trigger] s[i]).key@ != k,
    ensures
        find(s, k) is None,
{
    if exists|i: int| at(s, i, k) {
        let i = choose|i: int| at(s, i, k);
        assert(s[i].key@ != k);
    }
}

proof fn lemma_find_push<K: TtlKey, V>(s: Seq<TtlEntry<K, V>>, e: TtlEntry<K, V>)
    requires
        distinct(s),
        find(s, e.key@) is None,
    ensures
        distinct(s.push(e)),
        forall|k: K::V| #[trigger]
            find(s.push(e), k) == (if k == e.key@ {
                Some(slot_of(e))
            } else {
                find(s, k)
            }),
{
    let t = s.push(e);
    assert forall|i: int, j: int| 0 <= i < j < t.len() implies (#[trigger] t[i]).key@ != (
    #[trigger] t[j]).key@ by {
        if j == s.len() {
            if s[i].key@ == e.key@ {
                assert(at(s, i, e.key@));
            }
        }
    }
    assert forall|k: K::V| #[trigger]
        find(t, k) == (if k == e.key@ {
            Some(slot_of(e))
        } else {
            find(s, k)
        }) by {
        if k == e.key@ {
            lemma_find_at(t, s.len() as int);
        } else if exists|i: int| at(s, i, k) {
            let i = choose|i: int| at(s, i, k);
            lemma_find_at(s, i);
            lemma_find_at(t, i);
            assert(t[i] == s[i]);
        } else {
            assert forall|i: int| 0 <= i < t.len() implies (#[trigger] t[i]).key@ != k by {
                if i < s.len() {
                    assert(!at(s, i, k));
                }
            }
            lemma_find_none(t, k);
        }
    }
}

proof fn lemma_find_update<K: TtlKey, V>(s: Seq<TtlEntry<K, V>>, p: int, e: TtlEntry<K, V>)
    requires
        distinct(s),
        0 <= p < s.len(),
        s[p].key@ == e.key@,
    ensures
        distinct(s.update(p, e)),
        forall|k: K::V| #[trigger]
            find(s.update(p, e), k) == (if k == e.key@ {
                Some(slot_of(e))
            } else {
                find(s, k)
            }),
{
    let t = s.update(p, e);
    assert forall|i: int, j: int| 0 <= i < j < t.len() implies (#[trigger] t[i]).key@ != (
    #[trigger] t[j]).key@ by {
        assert(s[i].key@ != s[j].key@);
    }
    assert forall|k: K::V| #[trigger]
        find(t, k) == (if k == e.key@ {
            Some(slot_of(e))
        } else {
            find(s, k)
        }) by {
        if k == e.key@ {
            lemma_find_at(t, p);
        } else if exists|i: int| at(s, i, k) {
            let i = choose|i: int| at(s, i, k);
            lemma_find_at(s, i);
            lemma_find_at(t, i);
            assert(t[i] == s[i]);
        } else {
            assert forall|i: int| 0 <= i < t.len() implies (#[trigger] t[i]).key@ != k by {
                assert(!at(s, i, k));
            }
            lemma_find_none(t, k);
        }
    }
}

proof fn lemma_find_remove<K: TtlKey, V>(s: Seq<TtlEntry<K, V>>, p: int)
    requires
        distinct(s),
        0 <= p < s.len(),
    ensures
        distinct(s.remove(p)),
        forall|k: K::V| #[trigger]
            find(s.remove(p), k) == (if k == s[p].key@ {
                None::<Slot<V>>
            } else {
                find(s, k)
            }),
{
    let t = s.remove(p);
    let back = |i: int|
        if i < p {
            i
        } else {
            i + 1
        };
    assert forall|i: int| 0 <= i < t.len() implies #[trigger] t[i] == s[back(i)] by {}
    assert forall|i: int, j: int| 0 <= i < j < t.len() implies (#[trigger] t[i]).key@ != (
    #[trigger] t[j]).key@ by {
        assert(t[i] == s[back(i)] && t[j] == s[back(j)]);
        assert(s[back(i)].key@ != s[back(j)].key@);
    }
    assert forall|k: K::V| #[trigger]
        find(t, k) == (if k == s[p].key@ {
            None::<Slot<V>>
        } else {
            find(s, k)
        }) by {
        if k == s[p].key@ {
            assert forall|i: int| 0 <= i < t.len() implies (#[trigger] t[i]).key@ != k by {
                assert(t[i] == s[back(i)]);
                if back(i) < p {
                    assert(s[back(i)].key@ != s[p].key@);
                } else {
                    assert(s[p].key@ != s[back(i)].key@);
                }
            }
            lemma_find_none(t, k);
        } else if exists|i: int| at(s, i, k) {
            let i = choose|i: int| at(s, i, k);
            lemma_find_at(s, i);
            let j = if i < p {
                i
            } else {
                i - 1
            };
            assert(t[j] == s[back(j)]);
            lemma_find_at(t, j);
        } else {
            assert forall|i: int| 0 <= i < t.len() implies (#[trigger] t[i]).key@ != k by {
                assert(t[i] == s[back(i)]);
                assert(!at(s, back(i), k));
            }
            lemma_find_none(t, k);
        }
    }
}

/// What a list of entries holds, as a map.
spec fn map_of<K: TtlKey, V>(s: Seq<TtlEntry<K, V>>) -> Map<K::V, Slot<V>> {
    Map::new(|k: K::V| find(s, k) is Some, |k: K::V| find(s, k)->0)
}

impl<K: TtlKey, V> TtlCache<K, V> {
    /// The bucket of a key.
    spec fn home(&self, k: K::V) -> int {
        K::hash_of(k) as int % self.buckets@.len() as int
    }

    spec fn lookup_in(buckets: Seq<Vec<TtlEntry<K, V>>>, k: K::V) -> Option<Slot<V>> {
        find(buckets[K::hash_of(k) as int % buckets.len() as int]@, k)
    }

    /// What the store holds.
    pub closed spec fn view(&self) -> Map<K::V, Slot<V>> {
        Map::new(
            |k: K::V| Self::lookup_in(self.buckets@, k) is Some,
            |k: K::V| Self::lookup_in(self.buckets@, k)->0,
        )
    }

    /// The generation that the next write gets.
    pub closed spec fn next_gen(&self) -> u64 {
        self.next_generation
    }

    pub closed spec fn wf(&self) -> bool {
        &&& 1 <= self.buckets@.len() <= MAX_BUCKETS
        &&& forall|b: int| 0 <= b < self.buckets@.len() ==> distinct((#[trigger] self.buckets@[b])@)
        &&& forall|b: int, i: int|
            0 <= b < self.buckets@.len() && 0 <= i < self.buckets@[b]@.len() ==> self.home(
                (#[trigger] self.buckets@[b]@[i]).key@,
            ) == b
        &&& self@.dom().finite()
        &&& self@.dom().len() == self.count
    }

    /// A well-formed store holds finitely many entries, as many as it counts.
    pub proof fn lemma_finite(&self)
        requires
            self.wf(),
        ensures
            self@.dom().finite(),
            self@.dom().len() <= usize::MAX,
    {
    }

    /// An empty store.
    pub fn with_capacity(capacity: usize) -> (r: TtlCache<K, V>)
        ensures
            r.wf(),
            r@ == Map::<K::V, Slot<V>>::empty(),
            r.next_gen() == 1,
    {
        let wanted: usize = if capacity < 1 {
            1
        } else if capacity > MAX_BUCKETS {
            MAX_BUCKETS
        } else {
            capacity
        };
        let mut buckets: Vec<Vec<TtlEntry<K, V>>> = Vec::new();
        while buckets.len() < wanted
            invariant
                buckets@.len() <= wanted <= MAX_BUCKETS,
                forall|b: int| 0 <= b < buckets@.len() ==> (#[trigger] buckets@[b])@.len() == 0,
            decreases wanted - buckets@.len(),
        {
            buckets.push(Vec::new());
        }
        let r = TtlCache { buckets, count: 0, next_generation: 1 };
        proof {
            assert forall|k: K::V| !r@.dom().contains(k) by {
                let b = r.home(k);
                assert(r.buckets@[b]@.len() == 0);
                lemma_find_none(r.buckets@[b]@, k);
            }
            assert(r@ =~= Map::<K::V, Slot<V>>::empty());
        }
        r
    }

    /// The number of entries.
    pub fn len(&self) -> (r: usize)
        requires
            self.wf(),
        ensures
            r == self@.dom().len(),
    {
        self.count
    }

    /// Whether there are no entries.
    pub fn is_empty(&self) -> (r: bool)
        requires
            self.wf(),
        ensures
            r == (self@.dom().len() == 0),
    {
        self.count == 0
    }

    /// Where the entry of a key stands.
    fn position(&self, key: &K) -> (r: (usize, Option<usize>))
        requires
            self.wf(),
        ensures
            r.0 < self.buckets@.len(),
            r.0 == self.home(key@),
            match r.1 {
                Some(i) => i < self.buckets@[r.0 as int]@.len() && self.buckets@[r.0 as int]@[i as int].key@
                    == key@ && self@.dom().contains(key@) && self@[key@] == slot_of(
                    self.buckets@[r.0 as int]@[i as int],
                ),
                None => !self@.dom().contains(key@) && find(self.buckets@[r.0 as int]@, key@) is None,
            },
    {
        let h: u64 = key.hash_key();
        let n: u64 = self.buckets.len() as u64;
        let b: usize = (h % n) as usize;
        let bucket = &self.buckets[b];
        let mut i: usize = 0;
        while i < bucket.len()
            invariant
                i <= bucket@.len(),
                bucket == &self.buckets@[b as int],
                b < self.buckets@.len(),
                b == self.home(key@),
                self.wf(),
                forall|j: int| 0 <= j < i ==> (#[trigger] bucket@[j]).key@ != key@,
            decreases bucket@.len() - i,
        {
            if bucket[i].key.same_key(key) {
                proof {
                    lemma_find_at(bucket@, i as int);
                }
                return (b, Some(i));
            }
            i = i + 1;
        }
        proof {
            lemma_find_none(bucket@, key@);
        }
        (b, None)
    }

    /// The entry of a key.
    pub fn get(&self, key: &K) -> (r: Option<&TtlEntry<K, V>>)
        requires
            self.wf(),
        ensures
            match r {
                Some(e) => self@.dom().contains(key@) && e.key@ == key@ && slot_of(*e) == self@[key@],
                None => !self@.dom().contains(key@),
            },
    {
        let (b, at) = self.position(key);
        match at {
            Some(i) => Some(&self.buckets[b][i]),
            None => None,
        }
    }

    proof fn lemma_bucket_changed(before: Seq<Vec<TtlEntry<K, V>>>, after: Seq<Vec<TtlEntry<K, V>>>, b: int)
        requires
            0 <= b < before.len(),
            after.len() == before.len(),
            forall|c: int| 0 <= c < before.len() && c != b ==> after[c] == before[c],
        ensures
            forall|k: K::V|
                K::hash_of(k) as int % before.len() as int != b ==> #[trigger] Self::lookup_in(after, k)
                    == Self::lookup_in(before, k),
    {
    }

    /// Puts an entry in place of the one at a known position.
    fn put_at(&mut self, b: usize, i: usize, e: TtlEntry<K, V>)
        requires
            old(self).wf(),
            b < old(self).buckets@.len(),
            i < old(self).buckets@[b as int]@.len(),
            old(self).buckets@[b as int]@[i as int].key@ == e.key@,
        ensures
            final(self).wf(),
            final(self)@ == old(self)@.insert(e.key@, slot_of(e)),
            final(self).next_generation == old(self).next_generation,
    {
        let ghost before = self.buckets@;
        let ghost old_view = self@;
        let ghost bucket0 = self.buckets@[b as int]@;
        let ghost k0 = e.key@;
        proof {
            lemma_find_at(bucket0, i as int);
            lemma_find_update(bucket0, i as int, e);
            assert(self.home(k0) == b);
        }
        self.buckets[b][i] = e;
        proof {
            let after = self.buckets@;
            assert(after[b as int]@ =~= bucket0.update(i as int, e));
            Self::lemma_bucket_changed(before, after, b as int);
            assert forall|k: K::V| Self::lookup_in(after, k) == (if k == k0 {
                Some(slot_of(e))
            } else {
                Self::lookup_in(before, k)
            }) by {
                if K::hash_of(k) as int % before.len() as int != b {
                } else {
                    assert(find(bucket0.update(i as int, e), k) == find(after[b as int]@, k));
                }
            }
            assert(self@ =~= old_view.insert(k0, slot_of(e)));
            assert(old_view.dom().contains(k0));
            assert(self@.dom() =~= old_view.dom());
            assert forall|c: int, j: int|
                0 <= c < self.buckets@.len() && 0 <= j < self.buckets@[c]@.len() implies self.home(
                (#[trigger] self.buckets@[c]@[j]).key@,
            ) == c by {
                assert(before[c]@[j].key@ == self.buckets@[c]@[j].key@);
            }
        }
    }

    /// Adds an entry under a key that the store does not hold.
    fn push_new(&mut self, b: usize, e: TtlEntry<K, V>)
        requires
            old(self).wf(),
            b == old(self).home(e.key@),
            !old(self)@.dom().contains(e.key@),
            old(self)@.dom().len() < usize::MAX,
        ensures
            final(self).wf(),
            final(self)@ == old(self)@.insert(e.key@, slot_of(e)),
            final(self).next_generation == old(self).next_generation,
            final(self).buckets@.len() == old(self).buckets@.len(),
    {
        let ghost before = self.buckets@;
        let ghost old_view = self@;
        let ghost bucket0 = self.buckets@[b as int]@;
        let ghost k0 = e.key@;
        proof {
            lemma_find_push(bucket0, e);
        }
        self.buckets[b].push(e);
        self.count = self.count + 1;
        proof {
            let after = self.buckets@;
            assert(after[b as int]@ =~= bucket0.push(e));
            Self::lemma_bucket_changed(before, after, b as int);
            assert forall|k: K::V| Self::lookup_in(after, k) == (if k == k0 {
                Some(slot_of(e))
            } else {
                Self::lookup_in(before, k)
            }) by {
                if K::hash_of(k) as int % before.len() as int != b {
                } else {
                    assert(find(bucket0.push(e), k) == find(after[b as int]@, k));
                }
            }
            assert(self@ =~= old_view.insert(k0, slot_of(e)));
            assert(self@.dom() =~= old_view.dom().insert(k0));
            assert forall|c: int, j: int|
                0 <= c < self.buckets@.len() && 0 <= j < self.buckets@[c]@.len() implies self.home(
                (#[trigger] self.buckets@[c]@[j]).key@,
            ) == c by {
                if c != b || j < bucket0.len() {
                    assert(before[c]@[j] == self.buckets@[c]@[j]);
                }
            }
        }
    }

    /// Removes the entry at a known position.
    fn remove_at(&mut self, b: usize, i: usize) -> (r: TtlEntry<K, V>)
        requires
            old(self).wf(),
            b < old(self).buckets@.len(),
            i < old(self).buckets@[b as int]@.len(),
        ensures
            final(self).wf(),
            r == old(self).buckets@[b as int]@[i as int],
            final(self)@ == old(self)@.remove(r.key@),
            final(self).next_generation == old(self).next_generation,
    {
        let ghost before = self.buckets@;
        let ghost old_view = self@;
        let ghost bucket0 = self.buckets@[b as int]@;
        let ghost k0 = bucket0[i as int].key@;
        proof {
            lemma_find_at(bucket0, i as int);
            lemma_find_remove(bucket0, i as int);
            assert(self.home(k0) == b);
            assert(old_view.dom().contains(k0));
            vstd::set::axiom_set_remove_len(old_view.dom(), k0);
        }
        let taken = self.buckets[b].remove(i);
        proof {
            let after = self.buckets@;
            assert(after[b as int]@ =~= bucket0.remove(i as int));
            Self::lemma_bucket_changed(before, after, b as int);
            assert forall|k: K::V| Self::lookup_in(after, k) == (if k == k0 {
                None::<Slot<V>>
            } else {
                Self::lookup_in(before, k)
            }) by {
                if K::hash_of(k) as int % before.len() as int != b {
                } else {
                    assert(find(bucket0.remove(i as int), k) == find(after[b as int]@, k));
                }
            }
            assert(old_view.dom().len() > 0) by {
                if old_view.dom().len() == 0 {
                    assert(old_view.dom() =~= Set::empty());
                }
            }
        }
        self.count = self.count - 1;
        proof {
            assert(self@ =~= old_view.remove(k0));
            assert(self@.dom() =~= old_view.dom().remove(k0));
            assert forall|c: int, j: int|
                0 <= c < self.buckets@.len() && 0 <= j < self.buckets@[c]@.len() implies self.home(
                (#[trigger] self.buckets@[c]@[j]).key@,
            ) == c by {
                if c != b || j < i {
                    assert(before[c]@[j] == self.buckets@[c]@[j]);
                } else {
                    assert(before[c]@[j + 1] == self.buckets@[c]@[j]);
                }
            }
        }
        taken
    }

    /// Stores an entry under `key`, in place of any other.
    pub fn insert_or_update(
        &mut self,
        key: K,
        value: V,
        cache_time_ms: u64,
        expire_at_ms: u64,
        last_access_ms: u64,
    )
        requires
            old(self).wf(),
            old(self)@.dom().contains(key@) || old(self)@.dom().len() < usize::MAX,
        ensures
            final(self).wf(),
            final(self)@ == old(self)@.insert(
                key@,
                (Slot {
                    value,
                    cache_time_ms,
                    expire_at_ms,
                    last_access_ms,
                    generation: old(self).next_gen(),
                }),
            ),
            final(self).next_gen() == old(self).next_gen().wrapping_add(1),
    {
        let (b, at) = self.position(&key);
        let generation: u64 = self.next_generation;
        let e = TtlEntry { key, value, cache_time_ms, expire_at_ms, last_access_ms, generation };
        match at {
            Some(i) => {
                self.put_at(b, i, e);
            },
            None => {
                self.push_new(b, e);
            },
        }
        self.next_generation = generation.wrapping_add(1);
    }

    /// Stores an entry unless that would add a key to a store that already holds
    /// `limit` entries.
    pub fn try_insert_with_limit(
        &mut self,
        key: K,
        value: V,
        cache_time_ms: u64,
        expire_at_ms: u64,
        last_access_ms: u64,
        limit: usize,
    ) -> (r: bool)
        requires
            old(self).wf(),
        ensures
            final(self).wf(),
            r == (old(self)@.dom().contains(key@) || old(self)@.dom().len() < limit),
            r ==> final(self)@ == old(self)@.insert(
                key@,
                (Slot {
                    value,
                    cache_time_ms,
                    expire_at_ms,
                    last_access_ms,
                    generation: old(self).next_gen(),
                }),
            ),
            !r ==> final(self)@ == old(self)@,
            final(self).next_gen() == (if r {
                old(self).next_gen().wrapping_add(1)
            } else {
                old(self).next_gen()
            }),
    {
        let known = self.get(&key).is_some();
        if !known && self.count >= limit {
            return false;
        }
        self.insert_or_update(key, value, cache_time_ms, expire_at_ms, last_access_ms);
        true
    }

    /// Stores an entry unless the store holds a newer one under the same key, or
    /// cannot hold another entry.
    pub fn insert_if_not_newer(
        &mut self,
        key: K,
        value: V,
        cache_time_ms: u64,
        expire_at_ms: u64,
        last_access_ms: u64,
    ) -> (r: bool)
        requires
            old(self).wf(),
        ensures
            final(self).wf(),
            r == (if old(self)@.dom().contains(key@) {
                old(self)@[key@].cache_time_ms <= cache_time_ms
            } else {
                old(self)@.dom().len() < usize::MAX
            }),
            r ==> final(self)@ == old(self)@.insert(
                key@,
                (Slot {
                    value,
                    cache_time_ms,
                    expire_at_ms,
                    last_access_ms,
                    generation: old(self).next_gen(),
                }),
            ),
            !r ==> final(self)@ == old(self)@,
            final(self).next_gen() == (if r {
                old(self).next_gen().wrapping_add(1)
            } else {
                old(self).next_gen()
            }),
    {
        match self.get(&key) {
            Some(e) => {
                if e.cache_time_ms > cache_time_ms {
                    return false;
                }
            },
            None => {
                if self.count == usize::MAX {
                    return false;
                }
            },
        }
        self.insert_or_update(key, value, cache_time_ms, expire_at_ms, last_access_ms);
        true
    }

    /// Removes the entry of `key`.
    pub fn remove(&mut self, key: &K) -> (r: bool)
        requires
            old(self).wf(),
        ensures
            final(self).wf(),
            final(self).next_gen() == old(self).next_gen(),
            r == old(self)@.dom().contains(key@),
            final(self)@ == old(self)@.remove(key@),
    {
        let (b, at) = self.position(key);
        match at {
            Some(i) => {
                let _ = self.remove_at(b, i);
                true
            },
            None => {
                assert(self@ =~= self@.remove(key@));
                false
            },
        }
    }

    /// Removes the entry of `key` when it is of the given generation.
    pub fn remove_handle(&mut self, key: &K, generation: u64) -> (r: bool)
        requires
            old(self).wf(),
        ensures
            final(self).wf(),
            final(self).next_gen() == old(self).next_gen(),
            r == (old(self)@.dom().contains(key@) && old(self)@[key@].generation == generation),
            final(self)@ == (if r {
                old(self)@.remove(key@)
            } else {
                old(self)@
            }),
    {
        let (b, at) = self.position(key);
        match at {
            Some(i) => {
                if self.buckets[b][i].generation != generation {
                    return false;
                }
                let _ = self.remove_at(b, i);
                true
            },
            None => false,
        }
    }

    /// Removes the entry of `key` when it has expired.
    pub fn remove_if_expired(&mut self, key: &K, now_ms: u64) -> (r: bool)
        requires
            old(self).wf(),
        ensures
            final(self).wf(),
            final(self).next_gen() == old(self).next_gen(),
            r == (old(self)@.dom().contains(key@) && old(self)@[key@].expire_at_ms <= now_ms),
            final(self)@ == (if r {
                old(self)@.remove(key@)
            } else {
                old(self)@
            }),
    {
        let (b, at) = self.position(key);
        match at {
            Some(i) => {
                if self.buckets[b][i].expire_at_ms > now_ms {
                    return false;
                }
                let _ = self.remove_at(b, i);
                true
            },
            None => false,
        }
    }

    /// Replaces the entry of `key` when it is of the given generation.
    pub fn replace_handle(
        &mut self,
        key: K,
        expected: u64,
        value: V,
        cache_time_ms: u64,
        expire_at_ms: u64,
        last_access_ms: u64,
    ) -> (r: bool)
        requires
            old(self).wf(),
        ensures
            final(self).wf(),
            r == (old(self)@.dom().contains(key@) && old(self)@[key@].generation == expected),
            r ==> final(self)@ == old(self)@.insert(
                key@,
                (Slot {
                    value,
                    cache_time_ms,
                    expire_at_ms,
                    last_access_ms,
                    generation: old(self).next_gen(),
                }),
            ),
            !r ==> final(self)@ == old(self)@,
            final(self).next_gen() == (if r {
                old(self).next_gen().wrapping_add(1)
            } else {
                old(self).next_gen()
            }),
    {
        let live = match self.get(&key) {
            Some(e) => e.generation == expected,
            None => false,
        };
        if !live {
            return false;
        }
        self.insert_or_update(key, value, cache_time_ms, expire_at_ms, last_access_ms);
        true
    }

    /// Reads the entry of `key`. An expired entry is removed. A retained one is
    /// marked as used when its last use lies at least `touch_interval_ms` back;
    /// an interval of zero never marks.
    pub fn lookup(&mut self, key: &K, now_ms: u64, touch_interval_ms: u64) -> (r: TtlLookup)
        requires
            old(self).wf(),
        ensures
            final(self).wf(),
            final(self).next_gen() == old(self).next_gen(),
            match r {
                TtlLookup::Missing => !old(self)@.dom().contains(key@) && final(self)@ == old(self)@,
                TtlLookup::Expired => old(self)@.dom().contains(key@) && old(self)@[key@].expire_at_ms
                    <= now_ms && final(self)@ == old(self)@.remove(key@),
                TtlLookup::Hit(generation) => {
                    &&& old(self)@.dom().contains(key@)
                    &&& old(self)@[key@].expire_at_ms > now_ms
                    &&& old(self)@[key@].generation == generation
                    &&& final(self)@ == old(self)@.insert(
                        key@,
                        touched(old(self)@[key@], now_ms, touch_interval_ms),
                    )
                },
            },
    {
        let ghost before = self@;
        let (b, at) = self.position(key);
        match at {
            None => TtlLookup::Missing,
            Some(i) => {
                if self.buckets[b][i].expire_at_ms <= now_ms {
                    let _ = self.remove_at(b, i);
                    return TtlLookup::Expired;
                }
                let generation: u64 = self.buckets[b][i].generation;
                let last: u64 = self.buckets[b][i].last_access_ms;
                if touch_interval_ms > 0 && now_ms.saturating_sub(last) >= touch_interval_ms {
                    self.touch_at(b, i, now_ms);
                } else {
                    assert(before =~= before.insert(key@, before[key@]));
                }
                TtlLookup::Hit(generation)
            },
        }
    }

    /// Marks the entry at a known position as used.
    fn touch_at(&mut self, b: usize, i: usize, now_ms: u64)
        requires
            old(self).wf(),
            b < old(self).buckets@.len(),
            i < old(self).buckets@[b as int]@.len(),
        ensures
            final(self).wf(),
            final(self).next_gen() == old(self).next_gen(),
            final(self)@ == old(self)@.insert(
                old(self).buckets@[b as int]@[i as int].key@,
                (Slot {
                    last_access_ms: now_ms,
                    ..slot_of(old(self).buckets@[b as int]@[i as int])
                }),
            ),
    {
        let ghost before = self.buckets@;
        let ghost old_view = self@;
        let ghost bucket0 = self.buckets@[b as int]@;
        let ghost e0 = bucket0[i as int];
        let ghost e = TtlEntry { last_access_ms: now_ms, ..e0 };
        proof {
            lemma_find_at(bucket0, i as int);
            lemma_find_update(bucket0, i as int, e);
            assert(self.home(e0.key@) == b);
        }
        self.buckets[b][i].last_access_ms = now_ms;
        proof {
            let after = self.buckets@;
            assert(after[b as int]@ =~= bucket0.update(i as int, e));
            Self::lemma_bucket_changed(before, after, b as int);
            assert forall|k: K::V| Self::lookup_in(after, k) == (if k == e0.key@ {
                Some(slot_of(e))
            } else {
                Self::lookup_in(before, k)
            }) by {
                if K::hash_of(k) as int % before.len() as int != b {
                } else {
                    assert(find(bucket0.update(i as int, e), k) == find(after[b as int]@, k));
                }
            }
            assert(self@ =~= old_view.insert(e0.key@, slot_of(e)));
            assert(old_view.dom().contains(e0.key@));
            assert(self@.dom() =~= old_view.dom());
            assert forall|c: int, j: int|
                0 <= c < self.buckets@.len() && 0 <= j < self.buckets@[c]@.len() implies self.home(
                (#[trigger] self.buckets@[c]@[j]).key@,
            ) == c by {
                assert(before[c]@[j].key@ == self.buckets@[c]@[j].key@);
            }
        }
    }
}

/// Whether some entry has the key `k`.
spec fn has_key<K: TtlKey, V>(s: Seq<TtlEntry<K, V>>, k: K::V) -> bool {
    exists|i: int| at(s, i, k)
}

proof fn lemma_find_concat<K: TtlKey, V>(s: Seq<TtlEntry<K, V>>, t: Seq<TtlEntry<K, V>>)
    requires
        distinct(s),
        distinct(t),
        forall|i: int, j: int|
            0 <= i < s.len() && 0 <= j < t.len() ==> (#[trigger] s[i]).key@ != (
            #[trigger] t[j]).key@,
    ensures
        distinct(s + t),
        forall|k: K::V| #[trigger]
            find(s + t, k) == (if find(s, k) is Some {
                find(s, k)
            } else {
                find(t, k)
            }),
{
    let u = s + t;
    assert forall|i: int, j: int| 0 <= i < j < u.len() implies (#[trigger] u[i]).key@ != (
    #[trigger] u[j]).key@ by {
        if j < s.len() {
            assert(s[i].key@ != s[j].key@);
        } else if i >= s.len() {
            assert(t[i - s.len()].key@ != t[j - s.len()].key@);
        } else {
            assert(s[i].key@ != t[j - s.len()].key@);
        }
    }
    assert forall|k: K::V| #[trigger]
        find(u, k) == (if find(s, k) is Some {
            find(s, k)
        } else {
            find(t, k)
        }) by {
        if exists|i: int| at(s, i, k) {
            let i = choose|i: int| at(s, i, k);
            lemma_find_at(s, i);
            lemma_find_at(u, i);
            assert(u[i] == s[i]);
        } else if exists|i: int| at(t, i, k) {
            let i = choose|i: int| at(t, i, k);
            lemma_find_at(t, i);
            lemma_find_at(u, s.len() + i);
            assert(u[s.len() + i] == t[i]);
        } else {
            assert forall|i: int| 0 <= i < u.len() implies (#[trigger] u[i]).key@ != k by {
                if i < s.len() {
                    assert(!at(s, i, k));
                } else {
                    assert(!at(t, i - s.len(), k));
                }
            }
            lemma_find_none(u, k);
        }
    }
}

/// The entries of the first `n` buckets, one bucket after the other.
spec fn flatten<K: TtlKey, V>(buckets: Seq<Vec<TtlEntry<K, V>>>, n: int) -> Seq<TtlEntry<K, V>>
    decreases n,
{
    if n <= 0 {
        Seq::empty()
    } else {
        flatten(buckets, n - 1) + buckets[n - 1]@
    }
}

/// The bucket of a key among `n` buckets.
spec fn home_of<K: TtlKey>(k: K::V, n: nat) -> int {
    K::hash_of(k) as int % n as int
}

/// Whether every entry stands in its bucket and no key occurs twice.
spec fn placed<K: TtlKey, V>(buckets: Seq<Vec<TtlEntry<K, V>>>) -> bool {
    &&& buckets.len() >= 1
    &&& forall|b: int| 0 <= b < buckets.len() ==> distinct((#[trigger] buckets[b])@)
    &&& forall|b: int, i: int|
        0 <= b < buckets.len() && 0 <= i < buckets[b]@.len() ==> home_of::<K>((#[trigger] buckets[b]@[i]).key@, buckets.len()) == b
}

proof fn lemma_flatten<K: TtlKey, V>(buckets: Seq<Vec<TtlEntry<K, V>>>, n: int)
    requires
        placed(buckets),
        0 <= n <= buckets.len(),
    ensures
        distinct(flatten(buckets, n)),
        forall|k: K::V| #[trigger]
            find(flatten(buckets, n), k) == (if home_of::<K>(k, buckets.len()) < n {
                find(buckets[home_of::<K>(k, buckets.len())]@, k)
            } else {
                None
            }),
        forall|i: int|
            0 <= i < flatten(buckets, n).len() ==> home_of::<K>((#[trigger] flatten(buckets, n)[i]).key@, buckets.len()) < n,
    decreases n,
{
    if n > 0 {
        let head = flatten(buckets, n - 1);
        let tail = buckets[n - 1]@;
        lemma_flatten(buckets, n - 1);
        assert forall|i: int, j: int|
            0 <= i < head.len() && 0 <= j < tail.len() implies (#[trigger] head[i]).key@ != (
        #[trigger] tail[j]).key@ by {
            assert(home_of::<K>(head[i].key@, buckets.len()) != n - 1);
            assert(home_of::<K>(buckets[n - 1]@[j].key@, buckets.len()) == n - 1);
        }
        lemma_find_concat(head, tail);
        let all = flatten(buckets, n);
        assert forall|i: int| 0 <= i < all.len() implies home_of::<K>((#[trigger] all[i]).key@, buckets.len()) < n by {
            if i < head.len() {
                assert(all[i] == head[i]);
            } else {
                assert(all[i] == buckets[n - 1]@[i - head.len()]);
            }
        }
        assert forall|k: K::V| #[trigger]
            find(all, k) == (if home_of::<K>(k, buckets.len()) < n {
                find(buckets[home_of::<K>(k, buckets.len())]@, k)
            } else {
                None
            }) by {
            let h = home_of::<K>(k, buckets.len());
            assert(find(all, k) == find(head + tail, k));
            if h != n - 1 {
                assert forall|j: int| 0 <= j < tail.len() implies (#[trigger] tail[j]).key@ != k by {
                    assert(home_of::<K>(buckets[n - 1]@[j].key@, buckets.len()) == n
                        - 1);
                }
                lemma_find_none(tail, k);
            } else {
                assert(find(head, k) is None);
            }
        }
    } else {
        assert forall|k: K::V| #[trigger] find(flatten(buckets, n), k) is None by {
            lemma_find_none(flatten(buckets, n), k);
        }
    }
}

proof fn lemma_map_of_len<K: TtlKey, V>(s: Seq<TtlEntry<K, V>>)
    requires
        distinct(s),
    ensures
        map_of(s).dom().finite(),
        map_of(s).dom().len() == s.len(),
    decreases s.len(),
{
    if s.len() == 0 {
        assert forall|k: K::V| !map_of(s).dom().contains(k) by {
            lemma_find_none(s, k);
        }
        assert(map_of(s).dom() =~= Set::empty());
    } else {
        let init = s.drop_last();
        let e = s.last();
        assert(distinct(init)) by {
            assert forall|i: int, j: int| 0 <= i < j < init.len() implies (#[trigger] init[i]).key@
                != (#[trigger] init[j]).key@ by {
                assert(s[i].key@ != s[j].key@);
            }
        }
        lemma_map_of_len(init);
        assert forall|i: int| 0 <= i < init.len() implies (#[trigger] init[i]).key@ != e.key@ by {
            assert(s[i].key@ != s[s.len() - 1].key@);
        }
        lemma_find_none(init, e.key@);
        lemma_find_push(init, e);
        assert(init.push(e) =~= s);
        assert(map_of(s).dom() =~= map_of(init).dom().insert(e.key@));
    }
}

/// An entry after a read: its last use is `now_ms` when the previous one lies at
/// least the interval back.
pub open spec fn touched<V>(s: Slot<V>, now_ms: u64, touch_interval_ms: u64) -> Slot<V> {
    let idle = if now_ms >= s.last_access_ms {
        now_ms - s.last_access_ms
    } else {
        0
    };
    if touch_interval_ms > 0 && idle >= touch_interval_ms {
        Slot { last_access_ms: now_ms, ..s }
    } else {
        s
    }
}

/// The views of a list of keys.
pub open spec fn key_views<K: View>(v: Seq<K>) -> Seq<K::V> {
    Seq::new(v.len(), |i: int| v[i]@)
}

/// Whether a pair comes no later than another: by its first number, then by its
/// second.
pub open spec fn pair_le(a: (u64, usize), b: (u64, usize)) -> bool {
    a.0 < b.0 || (a.0 == b.0 && a.1 <= b.1)
}

/// `slice::sort_unstable` on pairs of integers: the same pairs, in ascending
/// order by first and then by second number.
#[verifier::external_body]
pub(crate) fn sort_pairs(v: &mut Vec<(u64, usize)>)
    ensures
        final(v)@.to_multiset() == old(v)@.to_multiset(),
        forall|i: int, j: int|
            0 <= i <= j < final(v)@.len() ==> pair_le(#[trigger] final(v)@[i], #[trigger] final(v)@[j]),
{
    v.sort_unstable();
}

/// The number of marks that are set.
spec fn marks(s: Seq<bool>) -> nat
    decreases s.len(),
{
    if s.len() == 0 {
        0
    } else {
        marks(s.drop_last()) + (if s.last() {
            1nat
        } else {
            0
        })
    }
}

proof fn lemma_marks_set(s: Seq<bool>, i: int)
    requires
        0 <= i < s.len(),
        !s[i],
    ensures
        marks(s.update(i, true)) == marks(s) + 1,
    decreases s.len(),
{
    let t = s.update(i, true);
    if i == s.len() - 1 {
        assert(t.drop_last() =~= s.drop_last());
    } else {
        lemma_marks_set(s.drop_last(), i);
        assert(t.drop_last() =~= s.drop_last().update(i, true));
    }
}

proof fn lemma_marks_none(s: Seq<bool>)
    requires
        forall|i: int| 0 <= i < s.len() ==> !s[i],
    ensures
        marks(s) == 0,
    decreases s.len(),
{
    if s.len() > 0 {
        lemma_marks_none(s.drop_last());
    }
}

proof fn lemma_marks_first(s: Seq<bool>)
    requires
        s.len() > 0,
    ensures
        marks(s) == marks(s.skip(1)) + (if s[0] {
            1nat
        } else {
            0
        }),
    decreases s.len(),
{
    if s.len() == 1 {
        assert(marks(s.drop_last()) == 0 && marks(s.skip(1)) == 0);
    } else {
        lemma_marks_first(s.drop_last());
        assert(s.drop_last().skip(1) =~= s.skip(1).drop_last());
        assert(s.skip(1).last() == s.last() && s.drop_last()[0] == s[0]);
    }
}

/// Whether a list of pairs holds one with the position `id`.
spec fn listed(pairs: Seq<(u64, usize)>, id: int) -> bool {
    exists|k: int| 0 <= k < pairs.len() && (#[trigger] pairs[k]).1 == id
}

/// Marks the positions of the `excess` smallest values.
fn mark_smallest(values: &Vec<u64>, excess: usize) -> (r: Vec<bool>)
    requires
        excess <= values@.len(),
    ensures
        r@.len() == values@.len(),
        marks(r@) == excess,
        forall|i: int, j: int|
            0 <= i < r@.len() && 0 <= j < r@.len() && #[trigger] r@[i] && !#[trigger] r@[j]
                ==> values@[i] <= values@[j],
{
    let n: usize = values.len();
    let mut pairs: Vec<(u64, usize)> = Vec::new();
    let mut flags: Vec<bool> = Vec::new();
    let mut i: usize = 0;
    while i < n
        invariant
            i <= n == values@.len(),
            pairs@.len() == i,
            flags@.len() == i,
            forall|k: int| 0 <= k < i ==> #[trigger] pairs@[k] == (values@[k], k as usize),
            forall|k: int| 0 <= k < i ==> !#[trigger] flags@[k],
        decreases n - i,
    {
        pairs.push((values[i], i));
        flags.push(false);
        i = i + 1;
    }
    let ghost unsorted = pairs@;
    proof {
        assert(unsorted.no_duplicates()) by {
            assert forall|a: int, b: int|
                0 <= a < unsorted.len() && 0 <= b < unsorted.len() && a != b implies unsorted[a]
                != unsorted[b] by {
                assert(unsorted[a].1 == a && unsorted[b].1 == b);
            }
        }
        unsorted.lemma_multiset_has_no_duplicates();
    }
    sort_pairs(&mut pairs);
    let ghost sorted = pairs@;
    proof {
        sorted.lemma_multiset_has_no_duplicates_conv();
        sorted.to_multiset_ensures();
        unsorted.to_multiset_ensures();
        assert forall|k: int| 0 <= k < sorted.len() implies (#[trigger] sorted[k]).1 < n && sorted[k].0
            == values@[sorted[k].1 as int] by {
            assert(sorted.contains(sorted[k]));
            assert(unsorted.to_multiset().count(sorted[k]) > 0);
            assert(unsorted.contains(sorted[k]));
            let m = choose|m: int| 0 <= m < unsorted.len() && unsorted[m] == sorted[k];
            assert(unsorted[m] == (values@[m], m as usize));
        }
        assert forall|id: int| 0 <= id < n implies #[trigger] listed(sorted, id) by {
            assert(unsorted[id] == (values@[id], id as usize));
            assert(unsorted.contains(unsorted[id]));
            assert(sorted.to_multiset().count(unsorted[id]) > 0);
            assert(sorted.contains(unsorted[id]));
            let k = choose|k: int| 0 <= k < sorted.len() && sorted[k] == unsorted[id];
            assert(sorted[k].1 == id);
        }
        assert(sorted.len() == n);
        lemma_marks_none(flags@);
    }
    let mut j: usize = 0;
    while j < excess
        invariant
            j <= excess <= n,
            n == values@.len(),
            pairs@ == sorted,
            sorted.len() == n,
            flags@.len() == n,
            sorted.no_duplicates(),
            marks(flags@) == j,
            forall|id: int| 0 <= id < n ==> #[trigger] listed(sorted, id),
            forall|k: int|
                0 <= k < sorted.len() ==> (#[trigger] sorted[k]).1 < n && sorted[k].0
                    == values@[sorted[k].1 as int],
            forall|id: int|
                0 <= id < n ==> (#[trigger] flags@[id] <==> exists|k: int|
                    0 <= k < j && (#[trigger] sorted[k]).1 == id),
        decreases excess - j,
    {
        let id: usize = pairs[j].1;
        let ghost before = flags@;
        proof {
            if before[id as int] {
                let k = choose|k: int| 0 <= k < j && (#[trigger] sorted[k]).1 == id;
                assert(sorted[k] == sorted[j as int]);
                assert(false);
            }
            lemma_marks_set(before, id as int);
        }
        flags.set(id, true);
        proof {
            assert(sorted[j as int].1 == id);
            assert forall|d: int| 0 <= d < n implies (#[trigger] flags@[d] <==> exists|k: int|
                0 <= k < j + 1 && (#[trigger] sorted[k]).1 == d) by {
                if d == id {
                    assert(sorted[j as int].1 == d);
                } else {
                    if before[d] {
                        let k = choose|k: int| 0 <= k < j && (#[trigger] sorted[k]).1 == d;
                        assert(sorted[k].1 == d);
                    }
                    assert(flags@[d] == before[d]);
                }
            }
        }
        j = j + 1;
    }
    proof {
        assert forall|a: int, b: int|
            0 <= a < flags@.len() && 0 <= b < flags@.len() && #[trigger] flags@[a]
                && !#[trigger] flags@[b] implies values@[a] <= values@[b] by {
            let ka = choose|k: int| 0 <= k < excess && (#[trigger] sorted[k]).1 == a;
            assert(listed(sorted, b));
            let kb = choose|k: int| 0 <= k < sorted.len() && (#[trigger] sorted[k]).1 == b;
            if kb < excess {
                assert(sorted[kb].1 == b);
                assert(flags@[b]);
            }
            assert(pair_le(sorted[ka], sorted[kb]));
        }
    }
    flags
}

/// What pruning did: `sample` is the set of entries looked at, and `r` counts the
/// expired entries removed, the others removed and those left.
pub open spec fn pruned<KV, V>(
    before: Map<KV, Slot<V>>,
    after: Map<KV, Slot<V>>,
    now_ms: u64,
    sample_limit: usize,
    trigger: int,
    target: int,
    sample: Set<KV>,
    r: (usize, usize, usize),
) -> bool {
    let total = before.dom().len() as int;
    let remaining = total - r.0;
    let live = sample.len() - r.0;
    &&& sample.subset_of(before.dom())
    &&& sample.finite()
    &&& sample.len() == (if total <= sample_limit {
        total
    } else {
        sample_limit as int
    })
    &&& r.0 == sample.filter(|k: KV| before[k].expire_at_ms <= now_ms).len()
    &&& r.1 == excess_of(remaining, trigger, target, live)
    &&& r.2 == remaining - r.1
    &&& after.dom().len() == r.2
    &&& forall|k: KV| #[trigger]
        after.dom().contains(k) ==> before.dom().contains(k) && after[k] == before[k]
    &&& forall|k: KV|
        before.dom().contains(k) && !sample.contains(k) ==> #[trigger] after.dom().contains(k)
    &&& forall|k: KV|
        sample.contains(k) && before[k].expire_at_ms <= now_ms ==> !#[trigger] after.dom().contains(
            k,
        )
    &&& forall|k: KV, m: KV|
        sample.contains(k) && sample.contains(m) && before[k].expire_at_ms > now_ms
            && !#[trigger] after.dom().contains(k) && #[trigger] after.dom().contains(m)
            ==> before[k].last_access_ms <= before[m].last_access_ms
}

/// The sample size and the two watermarks of a prune.
pub open spec fn prune_bounds(mode: TtlCachePruneMode) -> (usize, int, int) {
    match mode {
        TtlCachePruneMode::Exact { max_size } => (usize::MAX, max_size as int, max_size as int),
        TtlCachePruneMode::Periodic { max_size, high_watermark_pct, low_watermark_pct } => (
            PRUNE_SAMPLE,
            max_size * high_watermark_pct / 100,
            max_size * low_watermark_pct / 100,
        ),
    }
}

proof fn lemma_distinct_take<K: TtlKey, V>(s: Seq<TtlEntry<K, V>>, n: int)
    requires
        distinct(s),
        0 <= n <= s.len(),
    ensures
        distinct(s.take(n)),
        distinct(s.skip(n)),
{
    let t = s.take(n);
    let u = s.skip(n);
    assert forall|i: int, j: int| 0 <= i < j < t.len() implies (#[trigger] t[i]).key@ != (
    #[trigger] t[j]).key@ by {
        assert(s[i].key@ != s[j].key@);
    }
    assert forall|i: int, j: int| 0 <= i < j < u.len() implies (#[trigger] u[i]).key@ != (
    #[trigger] u[j]).key@ by {
        assert(s[n + i].key@ != s[n + j].key@);
    }
}

/// The entries of `s` that are retained at `now_ms`, last first.
spec fn retained<K, V>(s: Seq<TtlEntry<K, V>>, now_ms: u64) -> Seq<TtlEntry<K, V>>
    decreases s.len(),
{
    if s.len() == 0 {
        Seq::empty()
    } else if s[0].expire_at_ms > now_ms {
        retained(s.skip(1), now_ms).push(s[0])
    } else {
        retained(s.skip(1), now_ms)
    }
}

proof fn lemma_retained<K: TtlKey, V>(s: Seq<TtlEntry<K, V>>, now_ms: u64)
    requires
        distinct(s),
    ensures
        distinct(retained(s, now_ms)),
        retained(s, now_ms).len() <= s.len(),
        forall|i: int|
            0 <= i < s.len() && (#[trigger] s[i]).expire_at_ms > now_ms ==> has_key(
                retained(s, now_ms),
                s[i].key@,
            ),
        forall|j: int|
            0 <= j < retained(s, now_ms).len() ==> s.contains(#[trigger] retained(s, now_ms)[j])
                && retained(s, now_ms)[j].expire_at_ms > now_ms,
    decreases s.len(),
{
    if s.len() > 0 {
        let rest = s.skip(1);
        let r = retained(rest, now_ms);
        lemma_distinct_take(s, 1);
        lemma_retained(rest, now_ms);
        let all = retained(s, now_ms);
        assert forall|j: int| 0 <= j < r.len() implies s.contains(#[trigger] r[j]) by {
            assert(rest.contains(r[j]));
            let m = choose|m: int| 0 <= m < rest.len() && rest[m] == r[j];
            assert(s[m + 1] == r[j]);
        }
        if s[0].expire_at_ms > now_ms {
            assert forall|j: int| 0 <= j < r.len() implies (#[trigger] r[j]).key@ != s[0].key@ by {
                assert(rest.contains(r[j]));
                let m = choose|m: int| 0 <= m < rest.len() && rest[m] == r[j];
                assert(s[0].key@ != s[m + 1].key@);
            }
            lemma_find_none(r, s[0].key@);
            lemma_find_push(r, s[0]);
            assert(s.contains(s[0]));
        }
        assert forall|i: int| 0 <= i < s.len() && (#[trigger] s[i]).expire_at_ms > now_ms implies has_key(
            all,
            s[i].key@,
        ) by {
            if i == 0 {
                assert(at(all, all.len() - 1, s[0].key@));
            } else {
                assert(rest[i - 1] == s[i]);
                assert(has_key(r, s[i].key@));
                let m = choose|m: int| at(r, m, s[i].key@);
                assert(at(all, m, s[i].key@));
            }
        }
        assert forall|j: int| 0 <= j < all.len() implies s.contains(#[trigger] all[j])
            && all[j].expire_at_ms > now_ms by {
            if j < r.len() {
                assert(all[j] == r[j]);
            }
        }
    }
}

/// The keys of expired entries, and how many there are.
proof fn lemma_expired_count<K: TtlKey, V>(s: Seq<TtlEntry<K, V>>, m: Map<K::V, Slot<V>>, now_ms: u64)
    requires
        distinct(s),
        m == map_of(s),
    ensures
        m.dom().filter(|k: K::V| m[k].expire_at_ms <= now_ms).finite(),
        m.dom().filter(|k: K::V| m[k].expire_at_ms <= now_ms).len() + retained(s, now_ms).len()
            == s.len(),
    decreases s.len(),
{
    lemma_map_of_len(s);
    let p = |k: K::V| m[k].expire_at_ms <= now_ms;
    let f = m.dom().filter(p);
    if s.len() == 0 {
        assert(f =~= Set::empty()) by {
            assert(m.dom() =~= Set::empty());
        }
    } else {
        let rest = s.skip(1);
        let e = s[0];
        lemma_distinct_take(s, 1);
        let n = map_of(rest);
        lemma_expired_count(rest, n, now_ms);
        let q = |k: K::V| n[k].expire_at_ms <= now_ms;
        let g = n.dom().filter(q);
        assert forall|i: int| 0 <= i < rest.len() implies (#[trigger] rest[i]).key@ != e.key@ by {
            assert(s[0].key@ != s[i + 1].key@);
        }
        lemma_find_none(rest, e.key@);
        assert(seq![e] + rest =~= s);
        assert(distinct(seq![e]));
        lemma_find_concat(seq![e], rest);
        lemma_find_at(seq![e], 0);
        assert forall|k: K::V| k != e.key@ implies find(s, k) == find(rest, k) by {
            lemma_find_none(seq![e], k);
            assert(find(seq![e] + rest, k) == find(s, k));
        }
        assert(find(s, e.key@) == Some(slot_of(e))) by {
            assert(find(seq![e] + rest, e.key@) == find(s, e.key@));
        }
        if e.expire_at_ms <= now_ms {
            assert(f =~= g.insert(e.key@));
        } else {
            assert(f =~= g);
        }
    }
}

impl<K: TtlKey, V> TtlCache<K, V> {
    proof fn lemma_view_flatten(&self)
        requires
            self.wf(),
        ensures
            placed(self.buckets@),
            distinct(flatten(self.buckets@, self.buckets@.len() as int)),
            map_of(flatten(self.buckets@, self.buckets@.len() as int)) == self@,
    {
        assert forall|b: int, i: int|
            0 <= b < self.buckets@.len() && 0 <= i < self.buckets@[b]@.len() implies home_of::<K>(
            (#[trigger] self.buckets@[b]@[i]).key@,
            self.buckets@.len(),
        ) == b by {
            assert(self.home(self.buckets@[b]@[i].key@) == b);
        }
        let n = self.buckets@.len() as int;
        lemma_flatten(self.buckets@, n);
        assert forall|k: K::V| find(flatten(self.buckets@, n), k) == Self::lookup_in(
            self.buckets@,
            k,
        ) by {}
        assert(map_of(flatten(self.buckets@, n)) =~= self@);
    }

    /// The keys of the store, each once, in no particular order.
    pub fn keys(&self) -> (r: Vec<K>)
        requires
            self.wf(),
        ensures
            key_views(r@).no_duplicates(),
            forall|k: K::V| key_views(r@).contains(k) <==> self@.dom().contains(k),
            r@.len() == self@.dom().len(),
    {
        let mut out: Vec<K> = Vec::new();
        let mut b: usize = 0;
        while b < self.buckets.len()
            invariant
                b <= self.buckets@.len(),
                self.wf(),
                out@.len() == flatten(self.buckets@, b as int).len(),
                forall|i: int|
                    0 <= i < out@.len() ==> (#[trigger] out@[i])@ == flatten(
                        self.buckets@,
                        b as int,
                    )[i].key@,
            decreases self.buckets@.len() - b,
        {
            let bucket = &self.buckets[b];
            let ghost head = flatten(self.buckets@, b as int);
            let mut i: usize = 0;
            while i < bucket.len()
                invariant
                    i <= bucket@.len(),
                    out@.len() == head.len() + i,
                    forall|j: int| 0 <= j < head.len() ==> (#[trigger] out@[j])@ == head[j].key@,
                    forall|j: int|
                        head.len() <= j < out@.len() ==> (#[trigger] out@[j])@ == bucket@[j
                            - head.len()].key@,
                decreases bucket@.len() - i,
            {
                out.push(bucket[i].key.copy_key());
                i = i + 1;
            }
            b = b + 1;
            assert forall|j: int| 0 <= j < out@.len() implies (#[trigger] out@[j])@ == flatten(
                self.buckets@,
                b as int,
            )[j].key@ by {
                if j < head.len() {
                } else {
                }
            }
        }
        proof {
            self.lemma_view_flatten();
            let all = flatten(self.buckets@, b as int);
            lemma_map_of_len(all);
            assert forall|k: K::V| key_views(out@).contains(k) <==> self@.dom().contains(k) by {
                if key_views(out@).contains(k) {
                    let i = choose|i: int| 0 <= i < out@.len() && key_views(out@)[i] == k;
                    assert(out@[i]@ == all[i].key@);
                    lemma_find_at(all, i);
                }
                if self@.dom().contains(k) {
                    assert(map_of(all).dom().contains(k));
                    let i = choose|i: int| at(all, i, k);
                    assert(out@[i]@ == all[i].key@);
                    assert(key_views(out@)[i] == k);
                }
            }
            assert forall|i: int, j: int|
                0 <= i < out@.len() && 0 <= j < out@.len() && i != j implies key_views(out@)[i]
                != key_views(out@)[j] by {
                assert(out@[i]@ == all[i].key@ && out@[j]@ == all[j].key@);
                if i < j {
                    assert(all[i].key@ != all[j].key@);
                } else {
                    assert(all[j].key@ != all[i].key@);
                }
            }
        }
        out
    }

    /// Takes every entry out of the store.
    fn drain(&mut self) -> (r: Vec<TtlEntry<K, V>>)
        requires
            old(self).wf(),
        ensures
            final(self).wf(),
            final(self)@ == Map::<K::V, Slot<V>>::empty(),
            final(self).next_generation == old(self).next_generation,
            distinct(r@),
            map_of(r@) == old(self)@,
            r@.len() == old(self)@.dom().len(),
    {
        let ghost before = self.buckets@;
        let ghost n = self.buckets@.len() as int;
        proof {
            self.lemma_view_flatten();
            lemma_map_of_len(flatten(before, n));
        }
        let mut out: Vec<TtlEntry<K, V>> = Vec::new();
        let mut b: usize = 0;
        while b < self.buckets.len()
            invariant
                b <= self.buckets@.len(),
                self.buckets@.len() == before.len() == n,
                self.next_generation == old(self).next_generation,
                1 <= n <= MAX_BUCKETS,
                out@ == flatten(before, b as int),
                forall|c: int| b <= c < n ==> self.buckets@[c] == before[c],
                forall|c: int| 0 <= c < b ==> (#[trigger] self.buckets@[c])@.len() == 0,
            decreases n - b,
        {
            let mut bucket: Vec<TtlEntry<K, V>> = Vec::new();
            let ghost now = self.buckets@;
            std::mem::swap(&mut bucket, &mut self.buckets[b]);
            assert(bucket@ == before[b as int]@);
            assert(self.buckets@ =~= now.update(b as int, self.buckets@[b as int]));
            out.append(&mut bucket);
            b = b + 1;
            assert(out@ =~= flatten(before, b as int));
        }
        self.count = 0;
        proof {
            assert forall|k: K::V| !self@.dom().contains(k) by {
                let h = self.home(k);
                assert(self.buckets@[h]@.len() == 0);
                lemma_find_none(self.buckets@[h]@, k);
            }
            assert(self@ =~= Map::<K::V, Slot<V>>::empty());
        }
        out
    }

    /// Removes every entry.
    pub fn clear(&mut self)
        requires
            old(self).wf(),
        ensures
            final(self).wf(),
            final(self).next_gen() == old(self).next_gen(),
            final(self)@ == Map::<K::V, Slot<V>>::empty(),
    {
        let _ = self.drain();
    }

    /// Takes the entry of `key` out of the store.
    pub fn take(&mut self, key: &K) -> (r: Option<TtlEntry<K, V>>)
        requires
            old(self).wf(),
        ensures
            final(self).wf(),
            final(self).next_gen() == old(self).next_gen(),
            final(self)@ == old(self)@.remove(key@),
            match r {
                Some(e) => old(self)@.dom().contains(key@) && e.key@ == key@ && slot_of(e) == old(
                    self,
                )@[key@],
                None => !old(self)@.dom().contains(key@),
            },
    {
        let (b, at) = self.position(key);
        match at {
            Some(i) => Some(self.remove_at(b, i)),
            None => {
                assert(self@ =~= self@.remove(key@));
                None
            },
        }
    }

    /// Puts an entry back under a key that the store does not hold.
    pub fn restore(&mut self, e: TtlEntry<K, V>)
        requires
            old(self).wf(),
            !old(self)@.dom().contains(e.key@),
            old(self)@.dom().len() < usize::MAX,
        ensures
            final(self).wf(),
            final(self).next_gen() == old(self).next_gen(),
            final(self)@ == old(self)@.insert(e.key@, slot_of(e)),
    {
        let (b, _) = self.position(&e.key);
        self.push_new(b, e);
    }
}

/// The unmarked entries of `s`, last first.
spec fn unmarked<K, V>(s: Seq<TtlEntry<K, V>>, flags: Seq<bool>) -> Seq<TtlEntry<K, V>>
    decreases s.len(),
{
    if s.len() == 0 {
        Seq::empty()
    } else if flags[0] {
        unmarked(s.skip(1), flags.skip(1))
    } else {
        unmarked(s.skip(1), flags.skip(1)).push(s[0])
    }
}

proof fn lemma_unmarked<K: TtlKey, V>(s: Seq<TtlEntry<K, V>>, flags: Seq<bool>)
    requires
        distinct(s),
        flags.len() == s.len(),
    ensures
        distinct(unmarked(s, flags)),
        unmarked(s, flags).len() + marks(flags) == s.len(),
        forall|i: int|
            0 <= i < s.len() && !#[trigger] flags[i] ==> has_key(unmarked(s, flags), s[i].key@),
        forall|j: int|
            0 <= j < unmarked(s, flags).len() ==> from_unmarked(
                s,
                flags,
                #[trigger] unmarked(s, flags)[j],
            ),
    decreases s.len(),
{
    if s.len() > 0 {
        let rest = s.skip(1);
        let f = flags.skip(1);
        let r = unmarked(rest, f);
        let all = unmarked(s, flags);
        lemma_distinct_take(s, 1);
        lemma_unmarked(rest, f);
        lemma_marks_first(flags);
        assert forall|j: int| 0 <= j < r.len() implies from_unmarked(s, flags, #[trigger] r[j])
            && r[j].key@ != s[0].key@ by {
            assert(from_unmarked(rest, f, r[j]));
            let m = choose|m: int| #![trigger rest[m]] 0 <= m < rest.len() && rest[m] == r[j] && !f[m];
            assert(s[m + 1] == r[j] && !flags[m + 1]);
            assert(s[0].key@ != s[m + 1].key@);
        }
        lemma_find_none(r, s[0].key@);
        if !flags[0] {
            lemma_find_push(r, s[0]);
            assert(from_unmarked(s, flags, s[0]));
        }
        assert forall|i: int| 0 <= i < s.len() && !#[trigger] flags[i] implies has_key(
            all,
            s[i].key@,
        ) by {
            if i == 0 {
                assert(at(all, all.len() - 1, s[0].key@));
            } else {
                assert(!f[i - 1]);
                assert(rest[i - 1] == s[i]);
                assert(has_key(r, s[i].key@));
                let m = choose|m: int| at(r, m, s[i].key@);
                assert(at(all, m, s[i].key@));
            }
        }
        assert forall|j: int| 0 <= j < all.len() implies from_unmarked(
            s,
            flags,
            #[trigger] all[j],
        ) by {
            if j < r.len() {
                assert(all[j] == r[j]);
            }
        }
    }
}

/// Whether `e` is an unmarked entry of `s`.
spec fn from_unmarked<K, V>(s: Seq<TtlEntry<K, V>>, flags: Seq<bool>, e: TtlEntry<K, V>) -> bool {
    exists|m: int| #![trigger s[m]] 0 <= m < s.len() && s[m] == e && !flags[m]
}

/// The number of entries to evict from a sample of `live` entries when
/// `remaining` are left of the whole.
pub open spec fn excess_of(remaining: int, trigger: int, target: int, live: int) -> int {
    if remaining <= trigger || remaining <= target {
        0
    } else if remaining - target <= live {
        remaining - target
    } else {
        live
    }
}

proof fn lemma_pruned<K: TtlKey, V>(
    flat: Seq<TtlEntry<K, V>>,
    take: int,
    now_ms: u64,
    flags: Seq<bool>,
    sample_limit: usize,
    trigger: int,
    target: int,
    r: (usize, usize, usize),
)
    requires
        distinct(flat),
        take == (if flat.len() <= sample_limit {
            flat.len() as int
        } else {
            sample_limit as int
        }),
        flags.len() == retained(flat.take(take), now_ms).len(),
        r.0 == take - flags.len(),
        r.1 == excess_of(flat.len() - r.0, trigger, target, flags.len() as int),
        r.2 == flat.len() - r.0 - r.1,
        marks(flags) == r.1,
        forall|i: int, j: int|
            0 <= i < flags.len() && 0 <= j < flags.len() && #[trigger] flags[i]
                && !#[trigger] flags[j] ==> retained(flat.take(take), now_ms)[i].last_access_ms
                <= retained(flat.take(take), now_ms)[j].last_access_ms,
    ensures
        distinct(unmarked(retained(flat.take(take), now_ms), flags) + flat.skip(take)),
        pruned(
            map_of(flat),
            map_of(unmarked(retained(flat.take(take), now_ms), flags) + flat.skip(take)),
            now_ms,
            sample_limit,
            trigger,
            target,
            map_of(flat.take(take)).dom(),
            r,
        ),
{
    let s = flat.take(take);
    let t = flat.skip(take);
    let live = retained(s, now_ms);
    let kept = unmarked(live, flags);
    let before = map_of(flat);
    let after = map_of(kept + t);
    let sample = map_of(s).dom();
    assert(flat =~= s + t);
    lemma_distinct_take(flat, take);
    lemma_retained(s, now_ms);
    lemma_unmarked(live, flags);
    lemma_map_of_len(s);
    lemma_map_of_len(flat);
    lemma_expired_count(s, map_of(s), now_ms);
    assert forall|i: int, j: int| 0 <= i < s.len() && 0 <= j < t.len() implies (
    #[trigger] s[i]).key@ != (#[trigger] t[j]).key@ by {
        assert(flat[i].key@ != flat[take + j].key@);
    }
    lemma_find_concat(s, t);
    assert forall|j: int| 0 <= j < kept.len() implies live.contains(#[trigger] kept[j])
        && s.contains(kept[j]) by {
        assert(from_unmarked(live, flags, kept[j]));
        let m = choose|m: int| #![trigger live[m]] 0 <= m < live.len() && live[m] == kept[j] && !flags[m];
        assert(live[m] == kept[j]);
        assert(s.contains(live[m]));
    }
    assert forall|i: int, j: int| 0 <= i < kept.len() && 0 <= j < t.len() implies (
    #[trigger] kept[i]).key@ != (#[trigger] t[j]).key@ by {
        assert(s.contains(kept[i]));
        let m = choose|m: int| 0 <= m < s.len() && s[m] == kept[i];
        assert(s[m].key@ != t[j].key@);
    }
    lemma_find_concat(kept, t);
    lemma_map_of_len(kept + t);
    // An entry kept from the sample is the one that was there.
    assert forall|k: K::V| find(kept, k) is Some implies find(s, k) == find(kept, k) && find(
        kept,
        k,
    )->0.expire_at_ms > now_ms by {
        let j = choose|j: int| at(kept, j, k);
        lemma_find_at(kept, j);
        assert(s.contains(kept[j]));
        let m = choose|m: int| 0 <= m < s.len() && s[m] == kept[j];
        lemma_find_at(s, m);
        assert(live.contains(kept[j]));
        let l = choose|l: int| 0 <= l < live.len() && live[l] == kept[j];
        assert(live[l].expire_at_ms > now_ms);
    }
    assert(sample.subset_of(before.dom())) by {
        assert forall|k: K::V| sample.contains(k) implies before.dom().contains(k) by {
            assert(find(s + t, k) is Some);
        }
    }
    assert forall|k: K::V| sample.contains(k) implies before[k] == map_of(s)[k] by {
        assert(find(s + t, k) == find(s, k));
    }
    assert(sample.filter(|k: K::V| before[k].expire_at_ms <= now_ms) =~= map_of(s).dom().filter(
        |k: K::V| map_of(s)[k].expire_at_ms <= now_ms,
    ));
    assert forall|k: K::V| #[trigger] after.dom().contains(k) implies before.dom().contains(k)
        && after[k] == before[k] by {
        assert(find(kept + t, k) is Some);
        if find(kept, k) is Some {
            assert(find(s, k) == find(kept, k));
        } else {
            assert(find(t, k) is Some);
            let j = choose|j: int| at(t, j, k);
            assert forall|i: int| 0 <= i < s.len() implies (#[trigger] s[i]).key@ != k by {
                assert(s[i].key@ != t[j].key@);
            }
            lemma_find_none(s, k);
        }
        assert(find(s + t, k) == find(kept + t, k));
    }
    assert forall|k: K::V| before.dom().contains(k) && !sample.contains(k) implies
        #[trigger] after.dom().contains(k) by {
        assert(find(s + t, k) is Some);
        assert(find(s, k) is None);
        assert(find(kept + t, k) is Some);
    }
    assert forall|k: K::V|
        sample.contains(k) && before[k].expire_at_ms <= now_ms implies !#[trigger] after.dom().contains(
        k,
    ) by {
        let i = choose|i: int| at(s, i, k);
        assert forall|j: int| 0 <= j < t.len() implies (#[trigger] t[j]).key@ != k by {
            assert(s[i].key@ != t[j].key@);
        }
        lemma_find_none(t, k);
        assert(find(kept + t, k) == find(kept, k));
    }
    assert forall|k: K::V, m: K::V|
        sample.contains(k) && sample.contains(m) && before[k].expire_at_ms > now_ms
            && !#[trigger] after.dom().contains(k) && #[trigger] after.dom().contains(m) implies before[k].last_access_ms
        <= before[m].last_access_ms by {
        let i = choose|i: int| at(s, i, k);
        lemma_find_at(s, i);
        assert(s[i].expire_at_ms > now_ms);
        assert(has_key(live, k));
        let a = choose|a: int| at(live, a, k);
        if !flags[a] {
            assert(has_key(kept, live[a].key@));
            assert(find(kept, k) is Some);
            assert(find(kept + t, k) is Some);
            assert(false);
        }
        let im = choose|i: int| at(s, i, m);
        assert forall|j: int| 0 <= j < t.len() implies (#[trigger] t[j]).key@ != m by {
            assert(s[im].key@ != t[j].key@);
        }
        lemma_find_none(t, m);
        assert(find(kept + t, m) is Some);
        let c = choose|c: int| at(kept, c, m);
        assert(from_unmarked(live, flags, kept[c]));
        let b = choose|b: int| #![trigger live[b]] 0 <= b < live.len() && live[b] == kept[c] && !flags[b];
        assert(live[b] == kept[c]);
        assert(flags[a] && !flags[b]);
        assert(live[a].last_access_ms <= live[b].last_access_ms);
        assert(s.contains(live[a]));
        let ia = choose|i: int| 0 <= i < s.len() && s[i] == live[a];
        lemma_find_at(s, ia);
        assert(s.contains(live[b]));
        let ib = choose|i: int| 0 <= i < s.len() && s[i] == live[b];
        lemma_find_at(s, ib);
        assert(before[k] == slot_of(live[a]));
        assert(before[m] == slot_of(live[b]));
    }
}

impl<K: TtlKey, V> TtlCache<K, V> {
    /// Puts entries with distinct keys into an empty store.
    fn fill(&mut self, entries: Vec<TtlEntry<K, V>>)
        requires
            old(self).wf(),
            old(self)@ == Map::<K::V, Slot<V>>::empty(),
            distinct(entries@),
        ensures
            final(self).wf(),
            final(self)@ == map_of(entries@),
            final(self).next_generation == old(self).next_generation,
    {
        let mut rest = entries;
        let ghost all = rest@;
        let n: usize = rest.len();
        proof {
            assert(all.skip(n as int) =~= Seq::empty());
            assert forall|k: K::V| find(all.skip(n as int), k) is None by {
                lemma_find_none(all.skip(n as int), k);
            }
            assert(self@ =~= map_of(all.skip(n as int)));
        }
        while rest.len() > 0
            invariant
                self.wf(),
                rest@.len() <= all.len() <= usize::MAX,
                distinct(all),
                rest@ == all.take(rest@.len() as int),
                self@ == map_of(all.skip(rest@.len() as int)),
                self.next_generation == old(self).next_generation,
            decreases rest@.len(),
        {
            let ghost j = rest@.len() - 1;
            let ghost later = all.skip(j + 1);
            match rest.pop() {
                Some(e) => {
                    proof {
                        assert(e == all[j]);
                        lemma_distinct_take(all, j + 1);
                        lemma_map_of_len(later);
                        assert forall|i: int| 0 <= i < later.len() implies (#[trigger] later[i]).key@
                            != e.key@ by {
                            assert(all[j].key@ != all[j + 1 + i].key@);
                        }
                        lemma_find_none(later, e.key@);
                        lemma_distinct_take(all, j);
                        let now = all.skip(j);
                        assert(seq![e] + later =~= now);
                        assert(distinct(seq![e]));
                        lemma_find_at(seq![e], 0);
                        lemma_find_concat(seq![e], later);
                        assert forall|k: K::V| k != e.key@ implies find(seq![e], k) is None by {
                            lemma_find_none(seq![e], k);
                        }
                        assert forall|k: K::V| #[trigger] find(now, k) == (if k == e.key@ {
                            Some(slot_of(e))
                        } else {
                            find(later, k)
                        }) by {
                            assert(find(seq![e] + later, k) == find(now, k));
                        }
                        assert(map_of(now) =~= map_of(later).insert(e.key@, slot_of(e)));
                        assert(rest@ =~= all.take(j));
                    }
                    let (b, _) = self.position(&e.key);
                    self.push_new(b, e);
                },
                None => {},
            }
        }
        assert(all.skip(0) =~= all);
    }

    /// Removes expired entries, and then, where more are left than the mode allows,
    /// those used longest ago. Only a sample of the entries is looked at in the
    /// periodic mode. The result counts the expired entries removed, the others
    /// removed, and the entries left.
    pub fn prune(&mut self, mode: TtlCachePruneMode, now_ms: u64) -> (r: (usize, usize, usize))
        requires
            old(self).wf(),
        ensures
            final(self).wf(),
            final(self).next_gen() == old(self).next_gen(),
            exists|sample: Set<K::V>| #[trigger]
                pruned(
                    old(self)@,
                    final(self)@,
                    now_ms,
                    prune_bounds(mode).0,
                    prune_bounds(mode).1,
                    prune_bounds(mode).2,
                    sample,
                    r,
                ),
    {
        let (limit, trigger, target): (usize, u128, u128) = match mode {
            TtlCachePruneMode::Exact { max_size } => (usize::MAX, max_size as u128, max_size as u128),
            TtlCachePruneMode::Periodic { max_size, high_watermark_pct, low_watermark_pct } => {
                assert(max_size * high_watermark_pct <= u128::MAX) by (nonlinear_arith)
                    requires
                        max_size <= 0xffff_ffff_ffff_ffff,
                        high_watermark_pct <= 0xffff_ffff_ffff_ffff,
                ;
                assert(max_size * low_watermark_pct <= u128::MAX) by (nonlinear_arith)
                    requires
                        max_size <= 0xffff_ffff_ffff_ffff,
                        low_watermark_pct <= 0xffff_ffff_ffff_ffff,
                ;
                (
                    PRUNE_SAMPLE,
                    (max_size as u128) * (high_watermark_pct as u128) / 100,
                    (max_size as u128) * (low_watermark_pct as u128) / 100,
                )
            },
        };
        let mut sample = self.drain();
        let ghost flat = sample@;
        let total: usize = sample.len();
        let take: usize = if total <= limit {
            total
        } else {
            limit
        };
        let mut rest = sample.split_off(take);
        let ghost first = sample@;
        let mut live: Vec<TtlEntry<K, V>> = Vec::new();
        let mut access: Vec<u64> = Vec::new();
        assert(first.skip(first.len() as int) =~= Seq::empty());
        while sample.len() > 0
            invariant
                sample@.len() <= first.len(),
                sample@ == first.take(sample@.len() as int),
                live@ == retained(first.skip(sample@.len() as int), now_ms),
                access@.len() == live@.len(),
                live@.len() + sample@.len() <= first.len(),
                forall|i: int|
                    0 <= i < access@.len() ==> #[trigger] access@[i] == live@[i].last_access_ms,
            decreases sample@.len(),
        {
            let ghost j = sample@.len() - 1;
            match sample.pop() {
                Some(e) => {
                    proof {
                        assert(first.skip(j)[0] == e);
                        assert(first.skip(j).skip(1) =~= first.skip(j + 1));
                        assert(sample@ =~= first.take(j));
                    }
                    if e.expire_at_ms > now_ms {
                        access.push(e.last_access_ms);
                        live.push(e);
                    }
                },
                None => {},
            }
        }
        assert(first.skip(0) =~= first);
        let ghost lived = live@;
        let expired: usize = take - live.len();
        let remaining: usize = total - expired;
        let excess: usize = if remaining as u128 <= trigger || remaining as u128 <= target {
            0
        } else {
            let over: u128 = remaining as u128 - target;
            if over <= live.len() as u128 {
                over as usize
            } else {
                live.len()
            }
        };
        let flags = mark_smallest(&access, excess);
        let mut kept: Vec<TtlEntry<K, V>> = Vec::new();
        assert(lived.skip(lived.len() as int) =~= Seq::empty());
        while live.len() > 0
            invariant
                live@.len() <= lived.len(),
                flags@.len() == lived.len(),
                live@ == lived.take(live@.len() as int),
                kept@ == unmarked(
                    lived.skip(live@.len() as int),
                    flags@.skip(live@.len() as int),
                ),
            decreases live@.len(),
        {
            let ghost j = live@.len() - 1;
            match live.pop() {
                Some(e) => {
                    proof {
                        assert(lived.skip(j)[0] == e);
                        assert(flags@.skip(j)[0] == flags@[j]);
                        assert(lived.skip(j).skip(1) =~= lived.skip(j + 1));
                        assert(flags@.skip(j).skip(1) =~= flags@.skip(j + 1));
                        assert(live@ =~= lived.take(j));
                    }
                    if !flags[live.len()] {
                        kept.push(e);
                    }
                },
                None => {},
            }
        }
        kept.append(&mut rest);
        let r: (usize, usize, usize) = (expired, excess, remaining - excess);
        proof {
            assert(lived.skip(0) =~= lived);
            assert(flags@.skip(0) =~= flags@);
            assert(first =~= flat.take(take as int));
            assert(kept@ =~= unmarked(lived, flags@) + flat.skip(take as int));
            lemma_pruned(
                flat,
                take as int,
                now_ms,
                flags@,
                limit,
                trigger as int,
                target as int,
                r,
            );
        }
        self.fill(kept);
        assert(trigger == prune_bounds(mode).1 && target == prune_bounds(mode).2);
        assert(pruned(
            old(self)@,
            self@,
            now_ms,
            limit,
            trigger as int,
            target as int,
            map_of(first).dom(),
            r,
        ));
        r
    }
}

} // verus!
