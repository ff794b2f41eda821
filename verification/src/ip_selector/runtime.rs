//! The probes under way and the results that are kept.

use std::collections::hash_map::RandomState;

use dashmap::DashMap;
use vstd::prelude::*;

use crate::cache::item::later;
use crate::ip_selector::probe::{ProbeKey, ProbeMethod, ProbeObservation};
use crate::ip_selector::score::{addr_id, addr_id_of};
use crate::ttl_cache::{key_views, pair_le, sort_pairs, touched, Slot, TtlCache, TtlKey, TtlLookup};

verus! {

/// How long a result must not have been used before a use is noted.
pub const LAST_ACCESS_TOUCH_INTERVAL_MS: u64 = 1000;

/// The largest number of results that are looked at to make room.
pub const EVICTION_SAMPLE_SIZE: usize = 1024;

/// A key as plain values: family, address, method and port.
pub type ProbeId = (u8, u128, u8, u16);

pub open spec fn probe_id(k: ProbeKey) -> ProbeId {
    let a = addr_id(k.ip);
    match k.method {
        ProbeMethod::Tcp(port) => (a.0, a.1, 0, port),
        ProbeMethod::Ping => (a.0, a.1, 1, 0),
        ProbeMethod::Off => (a.0, a.1, 2, 0),
    }
}

/// The plain values of a key.
pub fn probe_id_of(k: &ProbeKey) -> (r: ProbeId)
    ensures
        r == probe_id(*k),
{
    let a = addr_id_of(k.ip);
    match k.method {
        ProbeMethod::Tcp(port) => (a.0, a.1, 0, port),
        ProbeMethod::Ping => (a.0, a.1, 1, 0),
        ProbeMethod::Off => (a.0, a.1, 2, 0),
    }
}

impl View for ProbeKey {
    type V = ProbeKey;

    open spec fn view(&self) -> ProbeKey {
        *self
    }
}

impl TtlKey for ProbeKey {
    open spec fn hash_of(v: ProbeKey) -> u64 {
        (probe_id(v).1 % 0x1_0000_0000_0000_0000) as u64
    }

    fn hash_key(&self) -> (r: u64) {
        (probe_id_of(self).1 % 0x1_0000_0000_0000_0000) as u64
    }

    fn same_key(&self, other: &ProbeKey) -> (r: bool) {
        *self == *other
    }

    fn copy_key(&self) -> (r: ProbeKey) {
        *self
    }
}

/// Results by what was probed.
pub type ProbeCache = TtlCache<ProbeKey, ProbeObservation>;

/// What a table of probes under way holds.
pub uninterp spec fn probe_contents(table: DashMap<(u8, u128, u8, u16), bool, RandomState>) -> Set<
    (u8, u128, u8, u16),
>;

pub open spec fn no_probes() -> Set<ProbeId> {
    Set::empty()
}

/// `DashMap::new`: an empty table.
#[verifier::external_body]
fn probes_new() -> (r: DashMap<ProbeId, bool, RandomState>)
    ensures
        probe_contents(r) == no_probes(),
{
    DashMap::new()
}

/// `DashMap::contains_key`: whether there is an entry under a key.
#[verifier::external_body]
fn probes_contains(table: &DashMap<ProbeId, bool, RandomState>, id: ProbeId) -> (r: bool)
    ensures
        r == probe_contents(*table).contains(id),
{
    table.contains_key(&id)
}

/// `DashMap::insert`: an entry under a key.
#[verifier::external_body]
fn probes_insert(table: &mut DashMap<ProbeId, bool, RandomState>, id: ProbeId)
    ensures
        probe_contents(*final(table)) == probe_contents(*old(table)).insert(id),
{
    table.insert(id, true);
}

/// `DashMap::remove`: no entry under a key.
#[verifier::external_body]
fn probes_remove(table: &mut DashMap<ProbeId, bool, RandomState>, id: ProbeId)
    ensures
        probe_contents(*final(table)) == probe_contents(*old(table)).remove(id),
{
    table.remove(&id);
}

/// The settings of probing.
#[derive(Debug, Clone, Copy, PartialEq, Eq, Structural)]
pub struct ProbeSettings {
    pub cache_enabled: bool,
    pub cache_size: usize,
    pub cache_ttl_ms: u64,
    pub failure_ttl_ms: u64,
    pub max_parallel_probes: usize,
}

/// The mathematical content of a [`ProbeRuntime`].
pub struct RuntimeView {
    pub settings: ProbeSettings,
    pub cache: Map<ProbeKey, Slot<ProbeObservation>>,
    pub next_generation: u64,
    /// What is being probed.
    pub inflight: Set<ProbeId>,
    /// The number of probes under way.
    pub running: usize,
    /// How often a request joined a probe, or found no place for one.
    pub joined_total: u64,
    pub saturated_total: u64,
}

/// The probes under way and the results that are kept.
pub struct ProbeRuntime {
    settings: ProbeSettings,
    cache: ProbeCache,
    inflight: DashMap<ProbeId, bool, RandomState>,
    running: usize,
    joined_total: u64,
    saturated_total: u64,
}

/// How a probe begins.
#[derive(Debug, Clone, Copy, PartialEq, Eq, Structural)]
pub enum ProbeStart {
    /// There is a result.
    Cached(ProbeObservation),
    /// The same probe is under way: wait for it.
    Join,
    /// Probe.
    Run,
    /// There is no place for another probe. This counts as a failure.
    Saturated(ProbeObservation),
}

/// The state once a probe has taken a place.
pub open spec fn taken(s: RuntimeView, key: ProbeKey) -> RuntimeView {
    RuntimeView {
        inflight: s.inflight.insert(probe_id(key)),
        running: (s.running + 1) as usize,
        ..s
    }
}

/// The state once a probe has given its place back.
pub open spec fn freed(s: RuntimeView, key: ProbeKey) -> RuntimeView {
    RuntimeView {
        inflight: s.inflight.remove(probe_id(key)),
        running: if s.running > 0 {
            (s.running - 1) as usize
        } else {
            0
        },
        ..s
    }
}

/// The number of results that are looked at.
pub open spec fn sample_size(n: nat) -> nat {
    if n < EVICTION_SAMPLE_SIZE {
        n
    } else {
        EVICTION_SAMPLE_SIZE as nat
    }
}

/// Whether some keys are a sample of a cache, the least recently used first.
pub open spec fn is_sample(m: Map<ProbeKey, Slot<ProbeObservation>>, sample: Seq<ProbeKey>) -> bool {
    &&& sample.no_duplicates()
    &&& sample.len() == sample_size(m.dom().len())
    &&& forall|i: int| 0 <= i < sample.len() ==> m.dom().contains(#[trigger] sample[i])
    &&& forall|i: int, j: int|
        0 <= i <= j < sample.len() ==> m[#[trigger] sample[i]].last_access_ms
            <= m[#[trigger] sample[j]].last_access_ms
}

/// How many results of a sample are removed.
pub open spec fn surplus(m: Map<ProbeKey, Slot<ProbeObservation>>, size: usize) -> int {
    let over = m.dom().len() - size;
    let have = sample_size(m.dom().len()) as int;
    if over <= 0 {
        0
    } else if over < have {
        over
    } else {
        have
    }
}

/// Whether room has been made: where there are too many results, the least recently
/// used of a sample are gone.
pub open spec fn evicted(
    m: Map<ProbeKey, Slot<ProbeObservation>>,
    size: usize,
    after: Map<ProbeKey, Slot<ProbeObservation>>,
) -> bool {
    exists|sample: Seq<ProbeKey>| #[trigger]
        is_sample(m, sample) && after == m.remove_keys(sample.take(surplus(m, size)).to_set())
}

fn sample_pairs(cache: &ProbeCache, keys: &Vec<ProbeKey>, n: usize) -> (r: Vec<(u64, usize)>)
    requires
        cache.wf(),
        n <= keys@.len(),
        forall|i: int| 0 <= i < keys@.len() ==> cache@.dom().contains(#[trigger] keys@[i]),
    ensures
        r@.len() == n,
        forall|i: int|
            0 <= i < n ==> #[trigger] r@[i] == (cache@[keys@[i]].last_access_ms, i as usize),
{
    let mut out: Vec<(u64, usize)> = Vec::new();
    let mut i: usize = 0;
    while i < n
        invariant
            i <= n <= keys@.len(),
            cache.wf(),
            forall|i: int| 0 <= i < keys@.len() ==> cache@.dom().contains(#[trigger] keys@[i]),
            out@.len() == i,
            forall|j: int|
                0 <= j < i ==> #[trigger] out@[j] == (cache@[keys@[j]].last_access_ms, j as usize),
        decreases n - i,
    {
        assert(cache@.dom().contains(keys@[i as int]));
        let last: u64 = match cache.get(&keys[i]) {
            Some(e) => e.last_access_ms,
            None => 0,
        };
        out.push((last, i));
        i = i + 1;
    }
    out
}

/// Where a sorted list of pairs has its items from, a pair of each position.
proof fn lemma_sorted_positions(before: Seq<(u64, usize)>, after: Seq<(u64, usize)>)
    requires
        after.to_multiset() == before.to_multiset(),
        forall|i: int| 0 <= i < before.len() ==> (#[trigger] before[i]).1 == i,
        before.len() <= usize::MAX,
    ensures
        after.len() == before.len(),
        forall|i: int|
            0 <= i < after.len() ==> (#[trigger] after[i]).1 < before.len()
                && before[after[i].1 as int] == after[i],
        forall|i: int, j: int|
            0 <= i < j < after.len() ==> (#[trigger] after[i]).1 != (#[trigger] after[j]).1,
{
    broadcast use vstd::seq_lib::group_to_multiset_ensures;

    assert(after.len() == after.to_multiset().len());
    assert(before.len() == before.to_multiset().len());
    assert forall|i: int| 0 <= i < after.len() implies (#[trigger] after[i]).1 < before.len()
        && before[after[i].1 as int] == after[i] by {
        assert(after.contains(after[i]));
        assert(after.to_multiset().count(after[i]) > 0);
        assert(before.to_multiset().count(after[i]) > 0);
        assert(before.contains(after[i]));
        let p = choose|p: int| 0 <= p < before.len() && before[p] == after[i];
        assert(before[p].1 == p);
    }
    assert(before.no_duplicates()) by {
        assert forall|i: int, j: int| 0 <= i < j < before.len() implies before[i] != before[j] by {
            assert(before[i].1 == i && before[j].1 == j);
        }
    }
    before.lemma_multiset_has_no_duplicates();
    assert(after.no_duplicates()) by {
        assert(after.to_multiset() == before.to_multiset());
        after.lemma_multiset_has_no_duplicates_conv();
    }
    assert forall|i: int, j: int| 0 <= i < j < after.len() implies (#[trigger] after[i]).1
        != (#[trigger] after[j]).1 by {
        if after[i].1 == after[j].1 {
            assert(after[i] == before[after[i].1 as int]);
            assert(after[j] == before[after[j].1 as int]);
        }
    }
}

/// Makes room where there are too many results.
pub fn evict_probe_cache_if_needed(cache: &mut ProbeCache, cache_size: usize)
    requires
        old(cache).wf(),
    ensures
        final(cache).wf(),
        final(cache).next_gen() == old(cache).next_gen(),
        evicted(old(cache)@, cache_size, final(cache)@),
{
    let ghost m = cache@;
    let current: usize = cache.len();
    let keys = cache.keys();
    let ghost names = key_views(keys@);
    let count: usize = if current < EVICTION_SAMPLE_SIZE {
        current
    } else {
        EVICTION_SAMPLE_SIZE
    };
    assert forall|i: int| 0 <= i < keys@.len() implies m.dom().contains(#[trigger] keys@[i]) by {
        assert(names[i] == keys@[i]);
        assert(names.contains(names[i]));
    }
    let mut pairs = sample_pairs(cache, &keys, count);
    let ghost before = pairs@;
    sort_pairs(&mut pairs);
    proof {
        lemma_sorted_positions(before, pairs@);
    }
    let ghost sample = Seq::new(pairs@.len(), |i: int| keys@[pairs@[i].1 as int]);
    proof {
        assert forall|i: int, j: int| 0 <= i < j < sample.len() implies sample[i] != sample[j] by {
            assert(pairs@[i].1 != pairs@[j].1);
            assert(names[pairs@[i].1 as int] != names[pairs@[j].1 as int]);
        }
        assert forall|i: int, j: int| 0 <= i <= j < sample.len() implies m[
            #[trigger] sample[i]
        ].last_access_ms <= m[#[trigger] sample[j]].last_access_ms by {
            assert(pair_le(pairs@[i], pairs@[j]));
            assert(before[pairs@[i].1 as int] == pairs@[i]);
            assert(before[pairs@[j].1 as int] == pairs@[j]);
        }
        assert(is_sample(m, sample));
    }
    if current <= cache_size {
        assert(sample.take(0).to_set() =~= Set::empty());
        assert(m.remove_keys(Set::empty()) =~= m);
        return;
    }
    let over: usize = current - cache_size;
    let goal: usize = if over < count {
        over
    } else {
        count
    };
    let mut i: usize = 0;
    assert(sample.take(0).to_set() =~= Set::empty());
    assert(m.remove_keys(sample.take(0).to_set()) =~= m);
    while i < goal
        invariant
            i <= goal <= pairs@.len(),
            cache.wf(),
            cache.next_gen() == old(cache).next_gen(),
            pairs@.len() == sample.len(),
            forall|j: int| 0 <= j < pairs@.len() ==> (#[trigger] pairs@[j]).1 < keys@.len(),
            forall|j: int|
                0 <= j < sample.len() ==> #[trigger] sample[j] == keys@[pairs@[j].1 as int],
            cache@ == m.remove_keys(sample.take(i as int).to_set()),
        decreases goal - i,
    {
        let at: usize = pairs[i].1;
        assert(sample[i as int] == keys@[at as int]);
        let ghost held = cache@;
        let _ = cache.remove(&keys[at]);
        proof {
            let part = sample.take(i as int);
            let grown = sample.take(i + 1);
            assert(grown =~= part.push(sample[i as int]));
            assert forall|k: ProbeKey| grown.to_set().contains(k) <==> part.to_set().contains(k) || k
                == sample[i as int] by {
                assert(grown.contains(k) <==> part.contains(k) || k == sample[i as int]) by {
                    if part.contains(k) {
                        let j = choose|j: int| 0 <= j < part.len() && part[j] == k;
                        assert(grown[j] == k);
                    }
                    assert(grown[i as int] == sample[i as int]);
                    if grown.contains(k) && k != sample[i as int] {
                        let j = choose|j: int| 0 <= j < grown.len() && grown[j] == k;
                        assert(part[j] == k);
                    }
                }
            }
            assert(cache@ =~= m.remove_keys(grown.to_set()));
        }
        i = i + 1;
    }
    assert(goal == surplus(m, cache_size));
}

/// The result that is kept for a key, and the cache after it has been looked up.
pub open spec fn looked_up(r: RuntimeView, key: ProbeKey, now_ms: u64) -> (
    RuntimeView,
    Option<ProbeObservation>,
) {
    if !r.settings.cache_enabled || !r.cache.dom().contains(key) {
        (r, None)
    } else if r.cache[key].expire_at_ms <= now_ms {
        (RuntimeView { cache: r.cache.remove(key), ..r }, None)
    } else {
        (
            RuntimeView {
                cache: r.cache.insert(
                    key,
                    touched(r.cache[key], now_ms, LAST_ACCESS_TOUCH_INTERVAL_MS),
                ),
                ..r
            },
            Some(r.cache[key].value),
        )
    }
}

/// The entry of a result. A failure is kept for a shorter time.
pub open spec fn kept_slot(r: RuntimeView, o: ProbeObservation, now_ms: u64) -> Slot<
    ProbeObservation,
> {
    let ttl = if o.success {
        r.settings.cache_ttl_ms
    } else {
        r.settings.failure_ttl_ms
    };
    Slot {
        value: o,
        cache_time_ms: now_ms,
        expire_at_ms: later(now_ms, ttl as int),
        last_access_ms: now_ms,
        generation: r.next_generation,
    }
}

/// Whether a result has been kept.
pub open spec fn kept(
    r: RuntimeView,
    key: ProbeKey,
    o: ProbeObservation,
    now_ms: u64,
    after: RuntimeView,
) -> bool {
    if !r.settings.cache_enabled {
        after == r
    } else {
        &&& after == (RuntimeView {
            cache: after.cache,
            next_generation: r.next_generation.wrapping_add(1),
            ..r
        })
        &&& evicted(
            r.cache.insert(key, kept_slot(r, o, now_ms)),
            r.settings.cache_size,
            after.cache,
        )
    }
}

impl ProbeRuntime {
    pub closed spec fn view(&self) -> RuntimeView {
        RuntimeView {
            settings: self.settings,
            cache: self.cache@,
            next_generation: self.cache.next_gen(),
            inflight: probe_contents(self.inflight),
            running: self.running,
            joined_total: self.joined_total,
            saturated_total: self.saturated_total,
        }
    }

    pub closed spec fn wf(&self) -> bool {
        self.cache.wf() && self.running <= self.settings.max_parallel_probes
    }

    /// Nothing has been probed yet.
    pub fn new(settings: ProbeSettings) -> (r: ProbeRuntime)
        ensures
            r.wf(),
            r@ == (RuntimeView {
                settings,
                cache: Map::empty(),
                next_generation: 1,
                inflight: Set::empty(),
                running: 0,
                joined_total: 0,
                saturated_total: 0,
            }),
    {
        ProbeRuntime {
            settings,
            cache: TtlCache::with_capacity(settings.cache_size),
            inflight: probes_new(),
            running: 0,
            joined_total: 0,
            saturated_total: 0,
        }
    }

    /// The result that is kept for a key.
    pub fn cached_observation(&mut self, key: &ProbeKey, now_ms: u64) -> (r: Option<
        ProbeObservation,
    >)
        requires
            old(self).wf(),
        ensures
            final(self).wf(),
            (final(self)@, r) == looked_up(old(self)@, *key, now_ms),
    {
        if !self.settings.cache_enabled {
            return None;
        }
        match self.cache.lookup(key, now_ms, LAST_ACCESS_TOUCH_INTERVAL_MS) {
            TtlLookup::Hit(_) => match self.cache.get(key) {
                Some(e) => Some(e.value),
                None => None,
            },
            _ => None,
        }
    }

    /// Keeps a result.
    pub fn store_probe_observation(&mut self, key: &ProbeKey, observation: ProbeObservation, now_ms: u64)
        requires
            old(self).wf(),
            old(self)@.cache.dom().len() < usize::MAX,
        ensures
            final(self).wf(),
            kept(old(self)@, *key, observation, now_ms, final(self)@),
    {
        if !self.settings.cache_enabled {
            return;
        }
        let ttl_ms: u64 = if observation.success {
            self.settings.cache_ttl_ms
        } else {
            self.settings.failure_ttl_ms
        };
        let _ = self.cache.insert_or_update(
            *key,
            observation,
            now_ms,
            now_ms.saturating_add(ttl_ms),
            now_ms,
        );
        evict_probe_cache_if_needed(&mut self.cache, self.settings.cache_size);
    }

    /// Begins a probe, or finds what makes it needless or impossible.
    pub fn begin_probe(&mut self, key: &ProbeKey, now_ms: u64) -> (r: ProbeStart)
        requires
            old(self).wf(),
            old(self)@.cache.dom().len() < usize::MAX,
        ensures
            final(self).wf(),
            ({
                let (s, found) = looked_up(old(self)@, *key, now_ms);
                let failure = ProbeObservation {
                    success: false,
                    latency_ms: None,
                    sampled_at_ms: now_ms,
                };
                if found is Some {
                    r == ProbeStart::Cached(found->0) && final(self)@ == s
                } else if s.inflight.contains(probe_id(*key)) {
                    r == ProbeStart::Join && final(self)@ == (RuntimeView {
                        joined_total: s.joined_total.wrapping_add(1),
                        ..s
                    })
                } else if s.running >= s.settings.max_parallel_probes {
                    r == ProbeStart::Saturated(failure) && kept(
                        RuntimeView { saturated_total: s.saturated_total.wrapping_add(1), ..s },
                        *key,
                        failure,
                        now_ms,
                        final(self)@,
                    )
                } else {
                    r == ProbeStart::Run && final(self)@ == taken(s, *key)
                }
            }),
    {
        proof {
            self.cache.lemma_finite();
            vstd::set_lib::lemma_len_subset(self.cache@.dom().remove(*key), self.cache@.dom());
            assert(self.cache@.remove(*key).dom() =~= self.cache@.dom().remove(*key));
        }
        if let Some(cached) = self.cached_observation(key, now_ms) {
            return ProbeStart::Cached(cached);
        }
        let id = probe_id_of(key);
        if probes_contains(&self.inflight, id) {
            self.joined_total = self.joined_total.wrapping_add(1);
            return ProbeStart::Join;
        }
        if self.running >= self.settings.max_parallel_probes {
            self.saturated_total = self.saturated_total.wrapping_add(1);
            let failure = ProbeObservation::failure(now_ms);
            self.store_probe_observation(key, failure, now_ms);
            return ProbeStart::Saturated(failure);
        }
        probes_insert(&mut self.inflight, id);
        self.running = self.running + 1;
        ProbeStart::Run
    }

    /// Ends a probe, with its result where there is one. A probe that was given up
    /// leaves none.
    pub fn end_probe(&mut self, key: &ProbeKey, observation: Option<ProbeObservation>, now_ms: u64)
        requires
            old(self).wf(),
            old(self)@.cache.dom().len() < usize::MAX,
        ensures
            final(self).wf(),
            match observation {
                Some(o) => kept(freed(old(self)@, *key), *key, o, now_ms, final(self)@),
                None => final(self)@ == freed(old(self)@, *key),
            },
    {
        probes_remove(&mut self.inflight, probe_id_of(key));
        if self.running > 0 {
            self.running = self.running - 1;
        }
        if let Some(o) = observation {
            self.store_probe_observation(key, o, now_ms);
        }
    }
}

/// A probe that is given up leaves the state as it was before it began.
pub proof fn law_ended_probe_frees_its_place(s: RuntimeView, key: ProbeKey)
    requires
        !s.inflight.contains(probe_id(key)),
        s.running < s.settings.max_parallel_probes,
    ensures
        freed(taken(s, key), key) == s,
        taken(s, key).running <= s.settings.max_parallel_probes,
{
    assert(taken(s, key).inflight.remove(probe_id(key)) =~= s.inflight);
}

/// A result that was kept is found again until its time is over, unless it had to make
/// room.
pub proof fn law_kept_result_is_found(
    s: RuntimeView,
    key: ProbeKey,
    observation: ProbeObservation,
    now_ms: u64,
    after: RuntimeView,
    later_ms: u64,
)
    requires
        kept(s, key, observation, now_ms, after),
        s.settings.cache_enabled,
        after.cache.dom().contains(key),
        later_ms < kept_slot(s, observation, now_ms).expire_at_ms,
    ensures
        looked_up(after, key, later_ms).1 == Some(observation),
{
}

} // verus!
