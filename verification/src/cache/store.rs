//! The live cache.
//!
//! Every read and change of the cache goes through this layer, which keeps the
//! entries, the index of subnet prefixes, the bookkeeping for dumps and the
//! counters in step.

use vstd::prelude::*;

use crate::cache::ecs_index::{
    cache_key_views, cache_lookup_keys, candidates, gives_hint, hint_of, hints_with,
    law_candidates_complete, law_candidates_without_subnet, EcsIndexView, EcsLookupIndex, Hint,
};
use crate::cache::item::{later, CacheEntryValidation, CacheItem, CacheItemView};
use crate::cache::key::{CacheKey, CacheKeyView, EcsScopeView};
use crate::cache::metrics::{with_skip, CacheMetrics};
use crate::cache::mutation::{
    dump_begun, dump_due, handoff_of, with_changes, CacheDumpHandoff, CacheMutationState,
};
use crate::cache::persistence::collect::{selected, PreparedView, RankedView};
use crate::cache::persistence::error::{DumpError, DumpErrorView};
use crate::cache::persistence::laws::law_load_keeps_hints;
use crate::cache::persistence::load::{
    hints_with_all, load_all, load_cache_from_bytes_with_index_bounded, load_outcome, loadable,
    stage_cache_from_bytes, staged_from, LoadSetting, LoadedView,
};
use crate::cache::policy::{
    cache_disposition, cache_skip_reason_for_disposition, disposition_valid,
    is_cache_disposition_valid, response_disposition_for_cache, skip_reason, CacheLoadPolicy,
};
use crate::text::chars_of;
use crate::ttl_cache::{
    key_views, prune_bounds, pruned, slot_of, touched, Slot, TtlCache, TtlCachePruneMode, TtlEntry,
    TtlKey, TtlLookup,
};

verus! {

/// One step of the hash of a key.
pub open spec fn mixed(h: u64, x: u64) -> u64 {
    ((h * 31 + x) % 0x1_0000_0000_0000_0000) as u64
}

fn mix(h: u64, x: u64) -> (r: u64)
    ensures
        r == mixed(h, x),
{
    (((h as u128) * 31 + (x as u128)) % 0x1_0000_0000_0000_0000u128) as u64
}

/// The hash of a text, from `h` on.
pub open spec fn mixed_text(h: u64, s: Seq<char>) -> u64
    decreases s.len(),
{
    if s.len() == 0 {
        h
    } else {
        mixed(mixed_text(h, s.drop_last()), s.last() as u64)
    }
}

/// The hash of octets, from `h` on.
pub open spec fn mixed_octets(h: u64, s: Seq<u8>) -> u64
    decreases s.len(),
{
    if s.len() == 0 {
        h
    } else {
        mixed(mixed_octets(h, s.drop_last()), s.last() as u64)
    }
}

fn mix_text(h: u64, s: &str) -> (r: u64)
    ensures
        r == mixed_text(h, s@),
{
    let v = chars_of(s);
    let mut r: u64 = h;
    let mut i: usize = 0;
    while i < v.len()
        invariant
            i <= v@.len(),
            r == mixed_text(h, v@.take(i as int)),
        decreases v@.len() - i,
    {
        r = mix(r, v[i] as u64);
        i = i + 1;
        assert(v@.take(i as int).drop_last() =~= v@.take(i - 1));
    }
    assert(v@.take(i as int) =~= v@);
    r
}

fn mix_octets(h: u64, v: &[u8]) -> (r: u64)
    ensures
        r == mixed_octets(h, v@),
{
    let mut r: u64 = h;
    let mut i: usize = 0;
    while i < v.len()
        invariant
            i <= v@.len(),
            r == mixed_octets(h, v@.take(i as int)),
        decreases v@.len() - i,
    {
        r = mix(r, v[i] as u64);
        i = i + 1;
        assert(v@.take(i as int).drop_last() =~= v@.take(i - 1));
    }
    assert(v@.take(i as int) =~= v@);
    r
}

/// The hash of the subnet part of a key.
pub open spec fn mixed_scope(h: u64, e: Option<EcsScopeView>) -> u64 {
    match e {
        None => h,
        Some(e) => mixed_octets(
            mixed(mixed(mixed(h, e.family as u64), e.source_prefix as u64), e.scope_prefix as u64),
            e.network,
        ),
    }
}

impl TtlKey for CacheKey {
    open spec fn hash_of(v: CacheKeyView) -> u64 {
        mixed_scope(
            mixed(mixed_text(7, v.domain), v.record_type.number() as u64),
            v.ecs_scope,
        )
    }

    fn hash_key(&self) -> (r: u64) {
        let h: u64 = mix(
            mix_text(7, self.domain.as_str()),
            self.record_type.to_u16() as u64,
        );
        match &self.ecs_scope {
            None => h,
            Some(e) => mix_octets(
                mix(
                    mix(mix(h, e.family as u64), e.source_prefix as u64),
                    e.scope_prefix as u64,
                ),
                e.network.as_slice(),
            ),
        }
    }

    fn same_key(&self, other: &CacheKey) -> (r: bool) {
        self.same(other)
    }

    fn copy_key(&self) -> (r: CacheKey) {
        self.copy()
    }
}

/// The entries of a cache.
pub type CacheMap = TtlCache<CacheKey, CacheItem>;

/// A slot with the view of its item.
pub open spec fn slot_view(s: Slot<CacheItem>) -> Slot<CacheItemView> {
    Slot {
        value: s.value@,
        cache_time_ms: s.cache_time_ms,
        expire_at_ms: s.expire_at_ms,
        last_access_ms: s.last_access_ms,
        generation: s.generation,
    }
}

/// The entries of a map of exec items, with the views of the items.
pub open spec fn entries_of(m: Map<CacheKeyView, Slot<CacheItem>>) -> Map<
    CacheKeyView,
    Slot<CacheItemView>,
> {
    Map::new(|k: CacheKeyView| m.dom().contains(k), |k: CacheKeyView| slot_view(m[k]))
}

/// An entry as it was when it was read. The generation tells whether the cache
/// still holds that very entry.
#[derive(Debug, PartialEq, Eq)]
pub struct CacheEntryHandle {
    pub generation: u64,
    pub item: CacheItem,
    pub cache_time_ms: u64,
    pub expire_at_ms: u64,
}

/// The mathematical content of a [`CacheEntryHandle`].
pub struct CacheEntryView {
    pub generation: u64,
    pub item: CacheItemView,
    pub cache_time_ms: u64,
    pub expire_at_ms: u64,
}

impl View for CacheEntryHandle {
    type V = CacheEntryView;

    open spec fn view(&self) -> CacheEntryView {
        CacheEntryView {
            generation: self.generation,
            item: self.item@,
            cache_time_ms: self.cache_time_ms,
            expire_at_ms: self.expire_at_ms,
        }
    }
}

/// The handle of what a slot holds.
pub open spec fn handle_of(s: Slot<CacheItemView>) -> CacheEntryView {
    CacheEntryView {
        generation: s.generation,
        item: s.value,
        cache_time_ms: s.cache_time_ms,
        expire_at_ms: s.expire_at_ms,
    }
}

/// What a lookup found.
#[derive(Debug, PartialEq, Eq)]
pub enum DnsCacheLookup {
    /// A fresh response.
    Fresh { entry: CacheEntryHandle, remaining_ttl: u32 },
    /// A stale response, which can be served while it is refreshed.
    Stale { key: CacheKey, request_key: CacheKey, entry: CacheEntryHandle },
    /// Nothing that can be served.
    Miss { key: CacheKey },
}

/// The mathematical content of a [`DnsCacheLookup`].
pub enum LookupView {
    Fresh { entry: CacheEntryView, remaining_ttl: u32 },
    Stale { key: CacheKeyView, request_key: CacheKeyView, entry: CacheEntryView },
    Miss { key: CacheKeyView },
}

impl View for DnsCacheLookup {
    type V = LookupView;

    open spec fn view(&self) -> LookupView {
        match self {
            DnsCacheLookup::Fresh { entry, remaining_ttl } => LookupView::Fresh {
                entry: entry@,
                remaining_ttl: *remaining_ttl,
            },
            DnsCacheLookup::Stale { key, request_key, entry } => LookupView::Stale {
                key: key@,
                request_key: request_key@,
                entry: entry@,
            },
            DnsCacheLookup::Miss { key } => LookupView::Miss { key: key@ },
        }
    }
}

impl DnsCacheLookup {
    /// Whether a response can be served.
    pub fn is_hit(&self) -> (r: bool)
        ensures
            r == !(self@ is Miss),
    {
        match self {
            DnsCacheLookup::Miss { .. } => false,
            _ => true,
        }
    }
}

/// The times of a moved entry.
#[derive(Debug, Clone, Copy, PartialEq, Eq, Structural)]
pub struct TtlCacheMoveMetadata {
    pub cache_time_ms: u64,
    pub expire_at_ms: u64,
    pub last_access_ms: u64,
}

/// What became of a move.
#[derive(Debug, Clone, Copy, PartialEq, Eq, Structural)]
pub enum TtlCacheConditionalMoveResult {
    /// The entry is now under the target key.
    Moved,
    /// A fresh entry was under the target key and stays; the source is gone.
    Consolidated,
    /// A stale entry was under the target key and has been replaced.
    ReplacedTarget,
    /// The source is not the expected entry any more; nothing changed.
    SourceChanged,
}

/// The mathematical content of a [`DnsCacheStore`].
pub struct StoreView {
    pub entries: Map<CacheKeyView, Slot<CacheItemView>>,
    /// The generation of the next entry that is written.
    pub next_generation: u64,
    pub cache_size: usize,
    pub index: EcsIndexView,
    /// Whether an insert was refused for want of room.
    pub pressure: bool,
    pub mutations: CacheMutationState,
    pub metrics: CacheMetrics,
}

/// The live cache.
pub struct DnsCacheStore {
    cache_map: CacheMap,
    cache_size: usize,
    ecs_lookup_index: EcsLookupIndex,
    pressure_requested: bool,
    mutations: CacheMutationState,
    metrics: CacheMetrics,
}

/// Whether each entry that requests share has its hint.
pub open spec fn all_hinted(entries: Map<CacheKeyView, Slot<CacheItemView>>, hints: Set<Hint>) -> bool {
    forall|k: CacheKeyView| #[trigger]
        entries.dom().contains(k) && gives_hint(k) ==> hints.contains(hint_of(k))
}

/// The index with one more removal noted, where the key was recorded.
pub open spec fn index_stale(index: EcsIndexView, k: CacheKeyView) -> EcsIndexView {
    if k.reusable() {
        EcsIndexView { stale_revision: index.stale_revision.wrapping_add(1), ..index }
    } else {
        index
    }
}

/// The index with one more recorded key.
pub open spec fn index_with(index: EcsIndexView, k: CacheKeyView) -> EcsIndexView {
    EcsIndexView { hints: hints_with(index.hints, k), ..index }
}

/// The store without the entry of `k`, which is a change.
pub open spec fn without(s: StoreView, k: CacheKeyView, now_ms: u64) -> StoreView {
    StoreView {
        entries: s.entries.remove(k),
        index: index_stale(s.index, k),
        mutations: with_changes(s.mutations, 1, now_ms),
        ..s
    }
}

/// The store with `slot` under `k`, which is a change and an insert.
pub open spec fn with_entry(
    s: StoreView,
    k: CacheKeyView,
    item: CacheItemView,
    t: TtlCacheMoveMetadata,
    now_ms: u64,
) -> StoreView {
    StoreView {
        entries: s.entries.insert(
            k,
            (Slot {
                value: item,
                cache_time_ms: t.cache_time_ms,
                expire_at_ms: t.expire_at_ms,
                last_access_ms: t.last_access_ms,
                generation: s.next_generation,
            }),
        ),
        next_generation: s.next_generation.wrapping_add(1),
        index: index_with(s.index, k),
        mutations: with_changes(s.mutations, 1, now_ms),
        metrics: CacheMetrics { insert_total: s.metrics.insert_total.wrapping_add(1), ..s.metrics },
        ..s
    }
}

/// Whether the store holds the entry of this generation under `k`.
pub open spec fn holds(s: StoreView, k: CacheKeyView, generation: u64) -> bool {
    s.entries.dom().contains(k) && s.entries[k].generation == generation
}

/// Whether a stored response may be served for its key at all.
pub open spec fn servable(item: CacheItemView, k: CacheKeyView) -> bool {
    item.validation == CacheEntryValidation::Validated || disposition_valid(
        cache_disposition(item.resp, k),
    )
}

/// What probing one key found.
pub enum ProbeView {
    Nothing,
    Expired,
    Fresh,
    Stale,
}

/// Probing one key: an expired entry and a response that does not answer the key
/// are removed.
pub open spec fn probe(
    s: StoreView,
    k: CacheKeyView,
    now_ms: u64,
    touch_interval_ms: u64,
    allow_stale: bool,
) -> (StoreView, ProbeView) {
    if !s.entries.dom().contains(k) {
        (s, ProbeView::Nothing)
    } else if s.entries[k].expire_at_ms <= now_ms {
        let t = without(s, k, now_ms);
        (
            StoreView {
                metrics: CacheMetrics {
                    expired_total: t.metrics.expired_total.wrapping_add(1),
                    ..t.metrics
                },
                ..t
            },
            ProbeView::Expired,
        )
    } else {
        let slot = touched(s.entries[k], now_ms, touch_interval_ms);
        let t = StoreView { entries: s.entries.insert(k, slot), ..s };
        if !servable(slot.value, k) {
            let u = without(t, k, now_ms);
            (
                StoreView {
                    metrics: with_skip(
                        u.metrics,
                        skip_reason(cache_disposition(slot.value.resp, k)),
                    ),
                    ..u
                },
                ProbeView::Nothing,
            )
        } else if now_ms < slot.value.fresh_until_ms {
            (
                StoreView {
                    metrics: CacheMetrics {
                        fresh_hit_total: t.metrics.fresh_hit_total.wrapping_add(1),
                        ..t.metrics
                    },
                    ..t
                },
                ProbeView::Fresh,
            )
        } else if allow_stale {
            (
                StoreView {
                    metrics: CacheMetrics {
                        stale_hit_total: t.metrics.stale_hit_total.wrapping_add(1),
                        ..t.metrics
                    },
                    ..t
                },
                ProbeView::Stale,
            )
        } else {
            (t, ProbeView::Nothing)
        }
    }
}

/// The counters of one probed key of a request with a subnet.
pub open spec fn probe_counted(s: StoreView, request: CacheKeyView, k: CacheKeyView) -> StoreView {
    if request.ecs_scope is None {
        s
    } else {
        StoreView {
            metrics: CacheMetrics {
                ecs_lookup_candidates_total: s.metrics.ecs_lookup_candidates_total.wrapping_add(1),
                ecs_lookup_exact_fallback_total: if k == request {
                    s.metrics.ecs_lookup_exact_fallback_total.wrapping_add(1)
                } else {
                    s.metrics.ecs_lookup_exact_fallback_total
                },
                ..s.metrics
            },
            ..s
        }
    }
}

/// The whole seconds for which an entry stays fresh.
pub open spec fn remaining_secs(fresh_until_ms: u64, now_ms: u64) -> u32 {
    (((fresh_until_ms - now_ms) as u64) / 1000) as u32
}

/// Probing keys in order, up to the first that can be served. `expired` tells
/// whether an expired entry was met before.
pub open spec fn probe_all(
    s: StoreView,
    keys: Seq<CacheKeyView>,
    request: CacheKeyView,
    now_ms: u64,
    touch_interval_ms: u64,
    allow_stale: bool,
    expired: bool,
) -> (StoreView, LookupView)
    decreases keys.len(),
{
    if keys.len() == 0 {
        (
            if expired {
                s
            } else if s.entries.dom().contains(request) && s.entries[request].expire_at_ms <= now_ms {
                let t = without(s, request, now_ms);
                StoreView {
                    metrics: CacheMetrics {
                        expired_total: t.metrics.expired_total.wrapping_add(1),
                        ..t.metrics
                    },
                    ..t
                }
            } else {
                StoreView {
                    metrics: CacheMetrics {
                        miss_total: s.metrics.miss_total.wrapping_add(1),
                        ..s.metrics
                    },
                    ..s
                }
            },
            LookupView::Miss { key: request },
        )
    } else {
        let k = keys[0];
        let (t, found) = probe(
            probe_counted(s, request, k),
            k,
            now_ms,
            touch_interval_ms,
            allow_stale,
        );
        match found {
            ProbeView::Fresh => (
                t,
                LookupView::Fresh {
                    entry: handle_of(t.entries[k]),
                    remaining_ttl: remaining_secs(t.entries[k].value.fresh_until_ms, now_ms),
                },
            ),
            ProbeView::Stale => (
                t,
                LookupView::Stale {
                    key: k,
                    request_key: request,
                    entry: handle_of(t.entries[k]),
                },
            ),
            ProbeView::Expired => probe_all(
                t,
                keys.skip(1),
                request,
                now_ms,
                touch_interval_ms,
                allow_stale,
                true,
            ),
            ProbeView::Nothing => probe_all(
                t,
                keys.skip(1),
                request,
                now_ms,
                touch_interval_ms,
                allow_stale,
                expired,
            ),
        }
    }
}

/// A lookup.
pub open spec fn looked_up(
    s: StoreView,
    request: CacheKeyView,
    now_ms: u64,
    touch_interval_ms: u64,
    allow_stale: bool,
) -> (StoreView, LookupView) {
    let counted = StoreView {
        metrics: CacheMetrics {
            lookup_total: s.metrics.lookup_total.wrapping_add(1),
            ecs_lookup_requests_total: if request.ecs_scope is Some {
                s.metrics.ecs_lookup_requests_total.wrapping_add(1)
            } else {
                s.metrics.ecs_lookup_requests_total
            },
            ..s.metrics
        },
        ..s
    };
    probe_all(
        counted,
        candidates(s.index.hints, request),
        request,
        now_ms,
        touch_interval_ms,
        allow_stale,
        false,
    )
}

/// Moving an entry to another key.
pub open spec fn moved(
    s: StoreView,
    source: CacheKeyView,
    target: CacheKeyView,
    generation: u64,
    item: CacheItemView,
    t: TtlCacheMoveMetadata,
    now_ms: u64,
) -> (StoreView, TtlCacheConditionalMoveResult) {
    let observed = StoreView { index: index_with(s.index, target), ..s };
    if !holds(s, source, generation) {
        (
            StoreView {
                index: if target.reusable() {
                    EcsIndexView {
                        stale_revision: observed.index.stale_revision.wrapping_add(1),
                        ..observed.index
                    }
                } else {
                    observed.index
                },
                ..observed
            },
            TtlCacheConditionalMoveResult::SourceChanged,
        )
    } else {
        let gone = StoreView {
            entries: s.entries.remove(source),
            index: index_stale(s.index, source),
            ..s
        };
        if !gone.entries.dom().contains(target) {
            (with_entry(gone, target, item, t, now_ms), TtlCacheConditionalMoveResult::Moved)
        } else if gone.entries[target].value.fresh_until_ms <= t.cache_time_ms {
            (
                with_entry(gone, target, item, t, now_ms),
                TtlCacheConditionalMoveResult::ReplacedTarget,
            )
        } else {
            (
                StoreView {
                    index: index_with(gone.index, target),
                    mutations: with_changes(s.mutations, 1, now_ms),
                    ..gone
                },
                TtlCacheConditionalMoveResult::Consolidated,
            )
        }
    }
}

fn handle_from(e: &TtlEntry<CacheKey, CacheItem>) -> (r: CacheEntryHandle)
    ensures
        r@ == handle_of(slot_view(slot_of(*e))),
{
    CacheEntryHandle {
        generation: e.generation,
        item: e.value.copy(),
        cache_time_ms: e.cache_time_ms,
        expire_at_ms: e.expire_at_ms,
    }
}

proof fn lemma_entries_insert(
    m: Map<CacheKeyView, Slot<CacheItem>>,
    k: CacheKeyView,
    s: Slot<CacheItem>,
)
    ensures
        entries_of(m.insert(k, s)) == entries_of(m).insert(k, slot_view(s)),
        entries_of(m.remove(k)) == entries_of(m).remove(k),
{
    assert(entries_of(m.insert(k, s)) =~= entries_of(m).insert(k, slot_view(s)));
    assert(entries_of(m.remove(k)) =~= entries_of(m).remove(k));
}

impl DnsCacheStore {
    pub closed spec fn view(&self) -> StoreView {
        StoreView {
            entries: entries_of(self.cache_map@),
            next_generation: self.cache_map.next_gen(),
            cache_size: self.cache_size,
            index: self.ecs_lookup_index@,
            pressure: self.pressure_requested,
            mutations: self.mutations,
            metrics: self.metrics,
        }
    }

    /// The entries and the index are in order, each shared entry has its hint, and
    /// no rebuild is left unfinished.
    pub closed spec fn wf(&self) -> bool {
        &&& self.cache_map.wf()
        &&& self.ecs_lookup_index.wf()
        &&& self.ecs_lookup_index@.rebuild is None
        &&& all_hinted(self@.entries, self@.index.hints)
    }

    /// The index has a hint for every entry with a subnet, so that a lookup can find it.
    pub proof fn law_entries_are_hinted(&self)
        requires
            self.wf(),
        ensures
            all_hinted(self@.entries, self@.index.hints),
            self@.index.rebuild is None,
            self@.entries.dom().finite(),
    {
        self.cache_map.lemma_finite();
        assert(self@.entries.dom() =~= self.cache_map@.dom());
    }

    /// A store with the given entries.
    pub fn new(
        cache_map: CacheMap,
        cache_size: usize,
        ecs_lookup_index: EcsLookupIndex,
        metrics: CacheMetrics,
    ) -> (r: DnsCacheStore)
        requires
            cache_map.wf(),
            ecs_lookup_index.wf(),
            ecs_lookup_index@.rebuild is None,
            all_hinted(entries_of(cache_map@), ecs_lookup_index@.hints),
        ensures
            r.wf(),
            r@ == (StoreView {
                entries: entries_of(cache_map@),
                next_generation: cache_map.next_gen(),
                cache_size,
                index: ecs_lookup_index@,
                pressure: false,
                mutations: CacheMutationState {
                    updated_keys: 0,
                    dirty_since_ms: 0,
                    dirty_generation: 0,
                    persisted_generation: 0,
                },
                metrics,
            }),
    {
        DnsCacheStore {
            cache_map,
            cache_size,
            ecs_lookup_index,
            pressure_requested: false,
            mutations: CacheMutationState::new(),
            metrics,
        }
    }

    /// The entries.
    pub fn cache_map(&self) -> (r: &CacheMap)
        requires
            self.wf(),
        ensures
            r.wf(),
            entries_of(r@) == self@.entries,
            r@.dom() == self@.entries.dom(),
            r.next_gen() == self@.next_generation,
    {
        assert(self.cache_map@.dom() =~= self@.entries.dom());
        &self.cache_map
    }

    /// The number of entries that there may be.
    pub fn cache_size(&self) -> (r: usize)
        ensures
            r == self@.cache_size,
    {
        self.cache_size
    }

    /// The index of subnet prefixes.
    pub fn ecs_lookup_index(&self) -> (r: &EcsLookupIndex)
        requires
            self.wf(),
        ensures
            r.wf(),
            r@ == self@.index,
    {
        &self.ecs_lookup_index
    }

    /// The counters.
    pub fn metrics(&self) -> (r: &CacheMetrics)
        ensures
            *r == self@.metrics,
    {
        &self.metrics
    }

    /// Sets the counters.
    pub fn set_metrics(&mut self, metrics: CacheMetrics)
        requires
            old(self).wf(),
        ensures
            final(self).wf(),
            final(self)@ == (StoreView { metrics, ..old(self)@ }),
    {
        self.metrics = metrics;
    }

    /// The changes that have not been saved.
    pub fn mutations(&self) -> (r: &CacheMutationState)
        ensures
            *r == self@.mutations,
    {
        &self.mutations
    }

    /// Sets the bookkeeping of changes.
    pub fn set_mutations(&mut self, mutations: CacheMutationState)
        requires
            old(self).wf(),
        ensures
            final(self).wf(),
            final(self)@ == (StoreView { mutations, ..old(self)@ }),
    {
        self.mutations = mutations;
    }

    /// The number of entries.
    pub fn entry_count(&self) -> (r: usize)
        requires
            self.wf(),
        ensures
            r == self@.entries.dom().len(),
    {
        assert(self.cache_map@.dom() =~= self@.entries.dom());
        self.cache_map.len()
    }

    /// The entry of a key, whether or not it has expired.
    pub fn entry(&self, key: &CacheKey) -> (r: Option<CacheEntryHandle>)
        requires
            self.wf(),
        ensures
            match r {
                Some(h) => self@.entries.dom().contains(key@) && h@ == handle_of(
                    self@.entries[key@],
                ),
                None => !self@.entries.dom().contains(key@),
            },
    {
        match self.cache_map.get(key) {
            Some(e) => Some(handle_from(e)),
            None => None,
        }
    }

    /// Begins a dump where one is due.
    pub fn begin_dump_if_due(
        &mut self,
        now_ms: u64,
        minimum_changes: u64,
        max_dirty_age_ms: u64,
        check_interval_ms: u64,
    ) -> (r: Option<CacheDumpHandoff>)
        requires
            old(self).wf(),
        ensures
            final(self).wf(),
            ({
                let m = old(self)@.mutations;
                if dump_due(m, now_ms, minimum_changes, max_dirty_age_ms, check_interval_ms) {
                    &&& r == Some(handoff_of(m))
                    &&& final(self)@ == (StoreView { mutations: dump_begun(m), ..old(self)@ })
                } else {
                    r is None && final(self)@ == old(self)@
                }
            }),
    {
        self.mutations.begin_dump_if_due(
            now_ms,
            minimum_changes,
            max_dirty_age_ms,
            check_interval_ms,
        )
    }

    /// Whether an insert was refused since the last call.
    pub fn take_pressure_requested(&mut self) -> (r: bool)
        requires
            old(self).wf(),
        ensures
            final(self).wf(),
            r == old(self)@.pressure,
            final(self)@ == (StoreView { pressure: false, ..old(self)@ }),
    {
        let r = self.pressure_requested;
        self.pressure_requested = false;
        r
    }

    /// Probes one key.
    fn probe_key(&mut self, key: &CacheKey, now_ms: u64, touch_interval_ms: u64, allow_stale: bool) -> (r: (
        Option<CacheEntryHandle>,
        bool,
    ))
        requires
            old(self).wf(),
        ensures
            final(self).wf(),
            ({
                let p = probe(old(self)@, key@, now_ms, touch_interval_ms, allow_stale);
                &&& final(self)@ == p.0
                &&& r.1 == (p.1 is Expired)
                &&& r.0 is Some <==> p.1 is Fresh || p.1 is Stale
                &&& r.0 is Some ==> {
                    &&& p.0.entries.dom().contains(key@)
                    &&& (r.0->0)@ == handle_of(p.0.entries[key@])
                    &&& p.1 is Fresh <==> now_ms < (r.0->0)@.item.fresh_until_ms
                }
            }),
    {
        let ghost s = self@;
        let ghost before = self.cache_map@;
        match self.cache_map.lookup(key, now_ms, touch_interval_ms) {
            TtlLookup::Missing => (None, false),
            TtlLookup::Expired => {
                proof {
                    lemma_entries_insert(before, key@, before[key@]);
                }
                self.ecs_lookup_index.mark_cache_key_maybe_stale(key);
                self.mutations.mark_dirty(1, now_ms);
                self.metrics.expired_total = self.metrics.expired_total.wrapping_add(1);
                (None, true)
            },
            TtlLookup::Hit(generation) => {
                let ghost slot = touched(before[key@], now_ms, touch_interval_ms);
                proof {
                    lemma_entries_insert(before, key@, slot);
                    assert(slot_view(slot) == touched(
                        slot_view(before[key@]),
                        now_ms,
                        touch_interval_ms,
                    ));
                }
                let handle = match self.cache_map.get(key) {
                    Some(e) => handle_from(e),
                    None => return (None, false),
                };
                let ghost t = self@;
                if !handle.item.is_validated() {
                    let disposition = response_disposition_for_cache(&handle.item.resp, key);
                    if !is_cache_disposition_valid(disposition) {
                        if self.remove_handle(key, generation, now_ms) {
                            self.metrics.record_skip(
                                cache_skip_reason_for_disposition(disposition),
                            );
                        }
                        return (None, false);
                    }
                }
                if now_ms < handle.item.fresh_until_ms {
                    self.metrics.fresh_hit_total = self.metrics.fresh_hit_total.wrapping_add(1);
                    return (Some(handle), false);
                }
                if allow_stale {
                    self.metrics.stale_hit_total = self.metrics.stale_hit_total.wrapping_add(1);
                    return (Some(handle), false);
                }
                (None, false)
            },
        }
    }

    /// Looks a request up: the keys that can answer it are probed in order, and the
    /// first response that can be served is the result.
    pub fn lookup(
        &mut self,
        request_key: CacheKey,
        now_ms: u64,
        touch_interval_ms: u64,
        allow_stale: bool,
    ) -> (r: DnsCacheLookup)
        requires
            old(self).wf(),
            request_key@.wf(),
        ensures
            final(self).wf(),
            (final(self)@, r@) == looked_up(
                old(self)@,
                request_key@,
                now_ms,
                touch_interval_ms,
                allow_stale,
            ),
    {
        let ghost request = request_key@;
        let ghost goal = looked_up(
            self@,
            request_key@,
            now_ms,
            touch_interval_ms,
            allow_stale,
        );
        let ghost initial = self@;
        self.metrics.lookup_total = self.metrics.lookup_total.wrapping_add(1);
        let ecs_lookup = request_key.ecs_scope.is_some();
        if ecs_lookup {
            self.metrics.ecs_lookup_requests_total =
                self.metrics.ecs_lookup_requests_total.wrapping_add(1);
        }
        let keys = cache_lookup_keys(&request_key, &self.ecs_lookup_index);
        let ghost all = cache_key_views(keys@);
        let mut expired = false;
        let mut i: usize = 0;
        assert(all.skip(0) =~= all);
        while i < keys.len()
            invariant
                self.wf(),
                i <= keys@.len(),
                all == cache_key_views(keys@),
                request == request_key@,
                ecs_lookup == request.ecs_scope is Some,
                goal == probe_all(
                    self@,
                    all.skip(i as int),
                    request,
                    now_ms,
                    touch_interval_ms,
                    allow_stale,
                    expired,
                ),
                goal == looked_up(
                    old(self)@,
                    request,
                    now_ms,
                    touch_interval_ms,
                    allow_stale,
                ),
            decreases keys@.len() - i,
        {
            let key = &keys[i];
            proof {
                assert(all.skip(i as int)[0] == key@);
                assert(all.skip(i as int).skip(1) =~= all.skip(i + 1));
            }
            let ghost before = self@;
            if ecs_lookup {
                self.metrics.ecs_lookup_candidates_total =
                    self.metrics.ecs_lookup_candidates_total.wrapping_add(1);
                if key.same(&request_key) {
                    self.metrics.ecs_lookup_exact_fallback_total =
                        self.metrics.ecs_lookup_exact_fallback_total.wrapping_add(1);
                }
            }
            assert(self@ == probe_counted(before, request, key@));
            let (found, gone) = self.probe_key(key, now_ms, touch_interval_ms, allow_stale);
            if let Some(entry) = found {
                if now_ms < entry.item.fresh_until_ms {
                    let remaining_ttl: u32 = ((entry.item.fresh_until_ms - now_ms) / 1000) as u32;
                    return DnsCacheLookup::Fresh { entry, remaining_ttl };
                }
                return DnsCacheLookup::Stale { key: key.copy(), request_key, entry };
            }
            if gone {
                expired = true;
            }
            i = i + 1;
        }
        assert(all.skip(i as int).len() == 0);
        if !expired {
            if !self.remove_if_expired(&request_key, now_ms) {
                self.metrics.miss_total = self.metrics.miss_total.wrapping_add(1);
            }
        }
        DnsCacheLookup::Miss { key: request_key }
    }

    /// Removes the entry of `key` where it is still the one of this generation.
    pub fn remove_handle(&mut self, key: &CacheKey, generation: u64, now_ms: u64) -> (r: bool)
        requires
            old(self).wf(),
        ensures
            final(self).wf(),
            r == holds(old(self)@, key@, generation),
            final(self)@ == (if r {
                without(old(self)@, key@, now_ms)
            } else {
                old(self)@
            }),
    {
        let ghost before = self.cache_map@;
        let removed = self.cache_map.remove_handle(key, generation);
        if removed {
            proof {
                lemma_entries_insert(before, key@, before[key@]);
            }
            self.ecs_lookup_index.mark_cache_key_maybe_stale(key);
            self.mutations.mark_dirty(1, now_ms);
        }
        removed
    }

    /// Removes the entry of `key` where it has expired.
    pub fn remove_if_expired(&mut self, key: &CacheKey, now_ms: u64) -> (r: bool)
        requires
            old(self).wf(),
        ensures
            final(self).wf(),
            r == (old(self)@.entries.dom().contains(key@) && old(self)@.entries[key@].expire_at_ms
                <= now_ms),
            final(self)@ == (if r {
                let t = without(old(self)@, key@, now_ms);
                StoreView {
                    metrics: CacheMetrics {
                        expired_total: t.metrics.expired_total.wrapping_add(1),
                        ..t.metrics
                    },
                    ..t
                }
            } else {
                old(self)@
            }),
    {
        let ghost before = self.cache_map@;
        let removed = self.cache_map.remove_if_expired(key, now_ms);
        if removed {
            proof {
                lemma_entries_insert(before, key@, before[key@]);
            }
            self.ecs_lookup_index.mark_cache_key_maybe_stale(key);
            self.mutations.mark_dirty(1, now_ms);
            self.metrics.expired_total = self.metrics.expired_total.wrapping_add(1);
        }
        removed
    }

    /// Removes the entry of `key`.
    pub fn remove(&mut self, key: &CacheKey, now_ms: u64) -> (r: bool)
        requires
            old(self).wf(),
        ensures
            final(self).wf(),
            r == old(self)@.entries.dom().contains(key@),
            final(self)@ == (if r {
                without(old(self)@, key@, now_ms)
            } else {
                old(self)@
            }),
    {
        let ghost before = self.cache_map@;
        let removed = self.cache_map.remove(key);
        proof {
            lemma_entries_insert(before, key@, before[key@]);
        }
        if removed {
            self.ecs_lookup_index.mark_cache_key_maybe_stale(key);
            self.mutations.mark_dirty(1, now_ms);
        } else {
            assert(before.remove(key@) =~= before);
        }
        removed
    }

    /// Writes an entry, where its key has one already or where there is room. What is
    /// refused changes nothing but asks for room to be made.
    pub fn insert_or_update(
        &mut self,
        key: CacheKey,
        item: CacheItem,
        cache_time_ms: u64,
        expire_at_ms: u64,
        last_access_ms: u64,
        now_ms: u64,
    ) -> (r: bool)
        requires
            old(self).wf(),
        ensures
            final(self).wf(),
            r == (old(self)@.entries.dom().contains(key@) || old(self)@.entries.dom().len() < old(
                self,
            )@.cache_size),
            final(self)@ == (if r {
                with_entry(
                    old(self)@,
                    key@,
                    item@,
                    (TtlCacheMoveMetadata { cache_time_ms, expire_at_ms, last_access_ms }),
                    now_ms,
                )
            } else {
                StoreView { pressure: true, ..old(self)@ }
            }),
    {
        let ghost s = self@;
        let ghost before = self.cache_map@;
        let ghost generation = self.cache_map.next_gen();
        let stored_key = key.copy();
        assert(before.dom() =~= s.entries.dom());
        let inserted = self.cache_map.try_insert_with_limit(
            key,
            item,
            cache_time_ms,
            expire_at_ms,
            last_access_ms,
            self.cache_size,
        );
        if inserted {
            proof {
                lemma_entries_insert(
                    before,
                    key@,
                    (Slot { value: item, cache_time_ms, expire_at_ms, last_access_ms, generation }),
                );
            }
            self.ecs_lookup_index.observe_cache_key(&stored_key);
            self.mutations.mark_dirty(1, now_ms);
            self.metrics.insert_total = self.metrics.insert_total.wrapping_add(1);
        } else {
            self.pressure_requested = true;
        }
        inserted
    }

    /// Replaces the entry of `key` where it is still the one of this generation.
    pub fn replace_handle(
        &mut self,
        key: CacheKey,
        expected: u64,
        item: CacheItem,
        cache_time_ms: u64,
        expire_at_ms: u64,
        last_access_ms: u64,
        now_ms: u64,
    ) -> (r: bool)
        requires
            old(self).wf(),
        ensures
            final(self).wf(),
            r == holds(old(self)@, key@, expected),
            final(self)@ == (if r {
                with_entry(
                    old(self)@,
                    key@,
                    item@,
                    (TtlCacheMoveMetadata { cache_time_ms, expire_at_ms, last_access_ms }),
                    now_ms,
                )
            } else {
                StoreView {
                    index: index_stale(index_with(old(self)@.index, key@), key@),
                    ..old(self)@
                }
            }),
    {
        let ghost before = self.cache_map@;
        let ghost generation = self.cache_map.next_gen();
        let ghost k = key@;
        let tracked_prefix = EcsLookupIndex::tracks_cache_key(&key);
        self.ecs_lookup_index.observe_cache_key(&key);
        let replaced = self.cache_map.replace_handle(
            key,
            expected,
            item,
            cache_time_ms,
            expire_at_ms,
            last_access_ms,
        );
        if replaced {
            proof {
                lemma_entries_insert(
                    before,
                    k,
                    (Slot { value: item, cache_time_ms, expire_at_ms, last_access_ms, generation }),
                );
            }
            self.mutations.mark_dirty(1, now_ms);
            self.metrics.insert_total = self.metrics.insert_total.wrapping_add(1);
        } else if tracked_prefix {
            self.ecs_lookup_index.mark_rebuild_needed();
        }
        replaced
    }

    /// Moves the entry of `source_key`, where it is still the one of this generation,
    /// to `target_key` with a new response. A fresh entry that is there already is
    /// kept instead.
    pub fn conditional_move_handle(
        &mut self,
        source_key: &CacheKey,
        target_key: CacheKey,
        expected: u64,
        item: CacheItem,
        metadata: TtlCacheMoveMetadata,
        now_ms: u64,
    ) -> (r: TtlCacheConditionalMoveResult)
        requires
            old(self).wf(),
        ensures
            final(self).wf(),
            (final(self)@, r) == moved(
                old(self)@,
                source_key@,
                target_key@,
                expected,
                item@,
                metadata,
                now_ms,
            ),
    {
        let ghost s = self@;
        let ghost before = self.cache_map@;
        let ghost generation = self.cache_map.next_gen();
        let tracks_target_prefix = EcsLookupIndex::tracks_cache_key(&target_key);
        self.ecs_lookup_index.observe_cache_key(&target_key);
        proof {
            self.cache_map.lemma_finite();
            lemma_entries_insert(before, source_key@, before[source_key@]);
        }
        if !self.cache_map.remove_handle(source_key, expected) {
            if tracks_target_prefix {
                self.ecs_lookup_index.mark_rebuild_needed();
            }
            return TtlCacheConditionalMoveResult::SourceChanged;
        }
        self.ecs_lookup_index.mark_cache_key_maybe_stale(source_key);
        let ghost gone = self.cache_map@;
        let result = match self.cache_map.get(&target_key) {
            None => TtlCacheConditionalMoveResult::Moved,
            Some(target) => if target.value.fresh_until_ms <= metadata.cache_time_ms {
                TtlCacheConditionalMoveResult::ReplacedTarget
            } else {
                TtlCacheConditionalMoveResult::Consolidated
            },
        };
        self.mutations.mark_dirty(1, now_ms);
        match result {
            TtlCacheConditionalMoveResult::Consolidated => {},
            _ => {
                let _ = self.cache_map.len();
                proof {
                    lemma_entries_insert(
                        gone,
                        target_key@,
                        (Slot {
                            value: item,
                            cache_time_ms: metadata.cache_time_ms,
                            expire_at_ms: metadata.expire_at_ms,
                            last_access_ms: metadata.last_access_ms,
                            generation,
                        }),
                    );
                }
                self.cache_map.insert_or_update(
                    target_key,
                    item,
                    metadata.cache_time_ms,
                    metadata.expire_at_ms,
                    metadata.last_access_ms,
                );
                self.metrics.insert_total = self.metrics.insert_total.wrapping_add(1);
            },
        }
        result
    }
}

/// The hints that the entries give.
pub open spec fn hints_for(entries: Map<CacheKeyView, Slot<CacheItemView>>) -> Set<Hint> {
    Set::new(
        |h: Hint|
            exists|k: CacheKeyView| #[trigger]
                entries.dom().contains(k) && gives_hint(k) && hint_of(k) == h,
    )
}

/// The hints that a list of keys gives.
pub open spec fn hints_of_keys(keys: Seq<CacheKeyView>, n: int) -> Set<Hint> {
    Set::new(|h: Hint| exists|i: int| 0 <= i < n && gives_hint(#[trigger] keys[i]) && hint_of(keys[i]) == h)
}

/// What pruning did to the store.
pub open spec fn prune_outcome(
    s: StoreView,
    t: StoreView,
    mode: TtlCachePruneMode,
    now_ms: u64,
    r: (usize, usize, usize),
) -> bool {
    let removed = if r.0 + r.1 > usize::MAX {
        usize::MAX
    } else {
        (r.0 + r.1) as usize
    };
    &&& pruned_to(s.entries, t.entries, mode, now_ms, r)
    &&& t == (StoreView {
        entries: t.entries,
        mutations: with_changes(s.mutations, removed as u64, now_ms),
        index: if removed > 0 {
            EcsIndexView { stale_revision: s.index.stale_revision.wrapping_add(1), ..s.index }
        } else {
            s.index
        },
        ..s
    })
}

proof fn lemma_pruned_view(
    before: Map<CacheKeyView, Slot<CacheItem>>,
    after: Map<CacheKeyView, Slot<CacheItem>>,
    now_ms: u64,
    limit: usize,
    trigger: int,
    target: int,
    sample: Set<CacheKeyView>,
    r: (usize, usize, usize),
)
    requires
        pruned(before, after, now_ms, limit, trigger, target, sample, r),
    ensures
        pruned(
            entries_of(before),
            entries_of(after),
            now_ms,
            limit,
            trigger,
            target,
            sample,
            r,
        ),
{
    let b = entries_of(before);
    let a = entries_of(after);
    assert(b.dom() =~= before.dom());
    assert(a.dom() =~= after.dom());
    assert(sample.filter(|k: CacheKeyView| b[k].expire_at_ms <= now_ms) =~= sample.filter(
        |k: CacheKeyView| before[k].expire_at_ms <= now_ms,
    ));
}

impl DnsCacheStore {
    /// Whether hints may have lost their entries.
    pub fn ecs_lookup_index_needs_rebuild(&self) -> (r: bool)
        requires
            self.wf(),
        ensures
            r == (self@.index.stale_revision != self@.index.rebuilt_revision),
    {
        self.ecs_lookup_index.needs_rebuild()
    }

    /// Rebuilds the index from the entries, where hints may have lost theirs.
    pub fn rebuild_ecs_lookup_index_if_needed(&mut self)
        requires
            old(self).wf(),
        ensures
            final(self).wf(),
            final(self)@ == (if old(self)@.index.stale_revision == old(
                self,
            )@.index.rebuilt_revision {
                old(self)@
            } else {
                StoreView {
                    index: EcsIndexView {
                        hints: hints_for(old(self)@.entries),
                        rebuilt_revision: old(self)@.index.stale_revision,
                        ..old(self)@.index
                    },
                    ..old(self)@
                }
            }),
    {
        let ghost s = self@;
        if !self.ecs_lookup_index.needs_rebuild() {
            return;
        }
        let started = self.ecs_lookup_index.begin_rebuild();
        if let Some((rebuilt, stale_revision)) = started {
            let ghost id = rebuilt@;
            let keys = self.cache_map.keys();
            let ghost all = key_views(keys@);
            let mut i: usize = 0;
            assert(hints_of_keys(all, 0) =~= Set::<Hint>::empty());
            while i < keys.len()
                invariant
                    i <= keys@.len(),
                    all == key_views(keys@),
                    rebuilt@ == id,
                    self.cache_map == old(self).cache_map,
                    self.cache_size == old(self).cache_size,
                    self.pressure_requested == old(self).pressure_requested,
                    self.mutations == old(self).mutations,
                    self.metrics == old(self).metrics,
                    self.ecs_lookup_index.wf(),
                    self.ecs_lookup_index@ == (EcsIndexView {
                        rebuild: Some((id, hints_of_keys(all, i as int))),
                        ..s.index
                    }),
                decreases keys@.len() - i,
            {
                self.ecs_lookup_index.observe_rebuilt(&rebuilt, &keys[i]);
                proof {
                    assert(all[i as int] == keys@[i as int]@);
                    assert(hints_of_keys(all, i + 1) =~= hints_with(
                        hints_of_keys(all, i as int),
                        all[i as int],
                    )) by {
                        assert forall|h: Hint|
                            hints_of_keys(all, i + 1).contains(h) == hints_with(
                                hints_of_keys(all, i as int),
                                all[i as int],
                            ).contains(h) by {
                            if hints_of_keys(all, i as int).contains(h) {
                                let j = choose|j: int|
                                    0 <= j < i && gives_hint(#[trigger] all[j]) && hint_of(all[j]) == h;
                                assert(gives_hint(all[j]));
                            }
                        }
                    }
                }
                i = i + 1;
            }
            let _ = self.ecs_lookup_index.commit_rebuild(&rebuilt, stale_revision);
            proof {
                assert(s.entries.dom() =~= old(self).cache_map@.dom());
                assert(hints_of_keys(all, all.len() as int) =~= hints_for(s.entries)) by {
                    assert forall|h: Hint|
                        hints_of_keys(all, all.len() as int).contains(h) == hints_for(
                            s.entries,
                        ).contains(h) by {
                        if hints_of_keys(all, all.len() as int).contains(h) {
                            let j = choose|j: int|
                                0 <= j < all.len() && gives_hint(#[trigger] all[j]) && hint_of(all[j]) == h;
                            assert(all.contains(all[j]));
                            assert(s.entries.dom().contains(all[j]));
                        }
                        if hints_for(s.entries).contains(h) {
                            let k = choose|k: CacheKeyView| #[trigger]
                                s.entries.dom().contains(k) && gives_hint(k) && hint_of(k) == h;
                            assert(all.contains(k));
                            let j = choose|j: int| 0 <= j < all.len() && all[j] == k;
                            assert(gives_hint(all[j]));
                        }
                    }
                }
            }
        }
    }

    /// Removes expired entries and, where there are too many, those used longest ago.
    pub fn prune(&mut self, mode: TtlCachePruneMode, now_ms: u64) -> (r: (usize, usize, usize))
        requires
            old(self).wf(),
        ensures
            final(self).wf(),
            prune_outcome(old(self)@, final(self)@, mode, now_ms, r),
    {
        let ghost before = self.cache_map@;
        let r = self.cache_map.prune(mode, now_ms);
        let ghost after = self.cache_map@;
        let removed: usize = r.0.saturating_add(r.1);
        self.mutations.mark_dirty(removed as u64, now_ms);
        if removed > 0 {
            self.ecs_lookup_index.mark_rebuild_needed();
        }
        proof {
            lemma_prune_sample(before, after, mode, now_ms, r);
            assert(self@.entries.dom() =~= after.dom());
            assert(old(self)@.entries.dom() =~= before.dom());
        }
        r
    }

    /// Puts other entries in place of all that the cache holds, and returns those.
    /// `published_entries` counts the new ones.
    pub fn replace_generation(
        &mut self,
        replacement: CacheMap,
        published_entries: usize,
        now_ms: u64,
    ) -> (r: CacheMap)
        requires
            old(self).wf(),
            replacement.wf(),
            all_hinted(entries_of(replacement@), old(self)@.index.hints),
        ensures
            final(self).wf(),
            r.wf(),
            entries_of(r@) == old(self)@.entries,
            final(self)@ == (StoreView {
                entries: entries_of(replacement@),
                next_generation: replacement.next_gen(),
                index: EcsIndexView {
                    stale_revision: old(self)@.index.stale_revision.wrapping_add(1),
                    ..old(self)@.index
                },
                mutations: with_changes(
                    old(self)@.mutations,
                    replaced_count(old(self)@.entries.dom().len(), published_entries),
                    now_ms,
                ),
                ..old(self)@
            }),
    {
        let ghost before = self.cache_map@;
        let mut retired = replacement;
        std::mem::swap(&mut self.cache_map, &mut retired);
        self.ecs_lookup_index.mark_rebuild_needed();
        assert(before.dom() =~= old(self)@.entries.dom());
        let changed: u64 = (retired.len() as u64).saturating_add(published_entries as u64);
        self.mutations.mark_dirty(changed, now_ms);
        retired
    }

    /// Puts the refresh of the entry of `key` off, where it is still the one of this
    /// generation.
    pub fn defer_lazy_refresh(
        &mut self,
        key: &CacheKey,
        generation: u64,
        now_ms: u64,
        cooldown_ms: u64,
    )
        requires
            old(self).wf(),
        ensures
            final(self).wf(),
            final(self)@ == deferred(old(self)@, key@, generation, now_ms, cooldown_ms),
    {
        let ghost before = self.cache_map@;
        let live = match self.cache_map.get(key) {
            Some(e) => e.generation == generation,
            None => false,
        };
        if !live {
            return;
        }
        proof {
            self.cache_map.lemma_finite();
        }
        let _ = self.cache_map.len();
        match self.cache_map.take(key) {
            Some(mut e) => {
                e.value.defer_lazy_refresh(now_ms, cooldown_ms);
                proof {
                    lemma_entries_insert(before, key@, slot_of(e));
                    lemma_entries_insert(before.remove(key@), key@, slot_of(e));
                    assert(entries_of(before).remove(key@).insert(key@, slot_view(slot_of(e)))
                        =~= entries_of(before).insert(key@, slot_view(slot_of(e))));
                }
                self.cache_map.restore(e);
            },
            None => {},
        }
    }
}

/// The store with the refresh of an entry put off.
pub open spec fn deferred(
    s: StoreView,
    k: CacheKeyView,
    generation: u64,
    now_ms: u64,
    cooldown_ms: u64,
) -> StoreView {
    if holds(s, k, generation) {
        let slot = s.entries[k];
        StoreView {
            entries: s.entries.insert(
                k,
                (Slot {
                    value: CacheItemView {
                        lazy_refresh_retry_after_ms: later(now_ms, cooldown_ms as int),
                        ..slot.value
                    },
                    ..slot
                }),
            ),
            ..s
        }
    } else {
        s
    }
}

/// The number of changes of a replaced generation.
pub open spec fn replaced_count(retired: nat, published: usize) -> u64 {
    if retired + published > u64::MAX {
        u64::MAX
    } else {
        (retired + published) as u64
    }
}

/// Whether the entry of `k` can be served.
pub open spec fn usable(s: StoreView, k: CacheKeyView, now_ms: u64, allow_stale: bool) -> bool {
    &&& s.entries.dom().contains(k)
    &&& s.entries[k].expire_at_ms > now_ms
    &&& servable(s.entries[k].value, k)
    &&& now_ms < s.entries[k].value.fresh_until_ms || allow_stale
}

/// The result of a lookup that serves the entry of `k`.
pub open spec fn serves(
    s: StoreView,
    r: LookupView,
    k: CacheKeyView,
    request: CacheKeyView,
    now_ms: u64,
) -> bool {
    if now_ms < s.entries[k].value.fresh_until_ms {
        r == (LookupView::Fresh {
            entry: handle_of(s.entries[k]),
            remaining_ttl: remaining_secs(s.entries[k].value.fresh_until_ms, now_ms),
        })
    } else {
        r == (LookupView::Stale {
            key: k,
            request_key: request,
            entry: handle_of(s.entries[k]),
        })
    }
}

/// Whether the same entries can be served from two stores.
spec fn agree(s: StoreView, t: StoreView, now_ms: u64, allow_stale: bool) -> bool {
    forall|k: CacheKeyView| #[trigger]
        usable(s, k, now_ms, allow_stale) == usable(t, k, now_ms, allow_stale) && (usable(
            s,
            k,
            now_ms,
            allow_stale,
        ) ==> handle_of(s.entries[k]) == handle_of(t.entries[k]))
}

/// Whether `i` is the first of `keys` that can be served.
pub open spec fn first_usable(
    s: StoreView,
    keys: Seq<CacheKeyView>,
    i: int,
    now_ms: u64,
    allow_stale: bool,
) -> bool {
    &&& 0 <= i < keys.len()
    &&& usable(s, keys[i], now_ms, allow_stale)
    &&& forall|j: int| 0 <= j < i ==> !usable(s, #[trigger] keys[j], now_ms, allow_stale)
}

proof fn lemma_probe_all(
    s: StoreView,
    t: StoreView,
    keys: Seq<CacheKeyView>,
    request: CacheKeyView,
    now_ms: u64,
    touch_interval_ms: u64,
    allow_stale: bool,
    expired: bool,
)
    requires
        agree(t, s, now_ms, allow_stale),
    ensures
        ({
            let r = probe_all(
                t,
                keys,
                request,
                now_ms,
                touch_interval_ms,
                allow_stale,
                expired,
            ).1;
            &&& r is Miss ==> r->Miss_key == request && forall|j: int|
                0 <= j < keys.len() ==> !usable(s, #[trigger] keys[j], now_ms, allow_stale)
            &&& !(r is Miss) ==> exists|i: int| #[trigger]
                first_usable(s, keys, i, now_ms, allow_stale) && serves(
                    s,
                    r,
                    keys[i],
                    request,
                    now_ms,
                )
        }),
    decreases keys.len(),
{
    if keys.len() > 0 {
        let k = keys[0];
        let u = probe_counted(t, request, k);
        let (v, found) = probe(u, k, now_ms, touch_interval_ms, allow_stale);
        assert(usable(t, k, now_ms, allow_stale) == usable(s, k, now_ms, allow_stale));
        if found is Fresh || found is Stale {
            assert(usable(t, k, now_ms, allow_stale));
            assert(first_usable(s, keys, 0, now_ms, allow_stale));
            assert(handle_of(v.entries[k]) == handle_of(s.entries[k]));
        } else {
            assert(!usable(t, k, now_ms, allow_stale));
            assert(agree(v, s, now_ms, allow_stale)) by {
                assert forall|m: CacheKeyView| #[trigger]
                    usable(v, m, now_ms, allow_stale) == usable(s, m, now_ms, allow_stale) && (
                    usable(v, m, now_ms, allow_stale) ==> handle_of(v.entries[m]) == handle_of(
                        s.entries[m],
                    )) by {
                    assert(usable(t, m, now_ms, allow_stale) == usable(s, m, now_ms, allow_stale));
                }
            }
            let e = expired || found is Expired;
            let rest = keys.skip(1);
            lemma_probe_all(s, v, rest, request, now_ms, touch_interval_ms, allow_stale, e);
            let r = probe_all(
                v,
                rest,
                request,
                now_ms,
                touch_interval_ms,
                allow_stale,
                e,
            ).1;
            if r is Miss {
                assert forall|j: int| 0 <= j < keys.len() implies !usable(
                    s,
                    #[trigger] keys[j],
                    now_ms,
                    allow_stale,
                ) by {
                    if j > 0 {
                        assert(rest[j - 1] == keys[j]);
                    }
                }
            } else {
                let i = choose|i: int| #[trigger]
                    first_usable(s, rest, i, now_ms, allow_stale) && serves(
                        s,
                        r,
                        rest[i],
                        request,
                        now_ms,
                    );
                assert forall|j: int| 0 <= j < i + 1 implies !usable(
                    s,
                    #[trigger] keys[j],
                    now_ms,
                    allow_stale,
                ) by {
                    if j > 0 {
                        assert(rest[j - 1] == keys[j]);
                    }
                }
                assert(rest[i] == keys[i + 1]);
                assert(first_usable(s, keys, i + 1, now_ms, allow_stale));
            }
        }
    }
}

/// A lookup serves the first key, in the order of probing, whose entry can be served,
/// and is a miss exactly where there is none.
pub proof fn law_lookup_serves_first_usable(
    s: StoreView,
    request: CacheKeyView,
    now_ms: u64,
    touch_interval_ms: u64,
    allow_stale: bool,
)
    ensures
        ({
            let r = looked_up(s, request, now_ms, touch_interval_ms, allow_stale).1;
            let keys = candidates(s.index.hints, request);
            &&& r is Miss <==> forall|j: int|
                0 <= j < keys.len() ==> !usable(s, #[trigger] keys[j], now_ms, allow_stale)
            &&& r is Miss ==> r->Miss_key == request
            &&& !(r is Miss) ==> exists|i: int| #[trigger]
                first_usable(s, keys, i, now_ms, allow_stale) && serves(
                    s,
                    r,
                    keys[i],
                    request,
                    now_ms,
                )
        }),
{
    let counted = StoreView {
        metrics: CacheMetrics {
            lookup_total: s.metrics.lookup_total.wrapping_add(1),
            ecs_lookup_requests_total: if request.ecs_scope is Some {
                s.metrics.ecs_lookup_requests_total.wrapping_add(1)
            } else {
                s.metrics.ecs_lookup_requests_total
            },
            ..s.metrics
        },
        ..s
    };
    lemma_probe_all(
        s,
        counted,
        candidates(s.index.hints, request),
        request,
        now_ms,
        touch_interval_ms,
        allow_stale,
        false,
    );
}

/// A response that was written is found again: a later lookup of the same key
/// without a subnet serves it fresh until it turns stale.
pub proof fn law_written_entry_is_served(
    s: StoreView,
    k: CacheKeyView,
    item: CacheItemView,
    t: TtlCacheMoveMetadata,
    write_ms: u64,
    now_ms: u64,
    touch_interval_ms: u64,
    allow_stale: bool,
)
    requires
        k.ecs_scope is None,
        servable(item, k),
        now_ms < item.fresh_until_ms,
        now_ms < t.expire_at_ms,
    ensures
        looked_up(
            with_entry(s, k, item, t, write_ms),
            k,
            now_ms,
            touch_interval_ms,
            allow_stale,
        ).1 == (LookupView::Fresh {
            entry: CacheEntryView {
                generation: s.next_generation,
                item,
                cache_time_ms: t.cache_time_ms,
                expire_at_ms: t.expire_at_ms,
            },
            remaining_ttl: remaining_secs(item.fresh_until_ms, now_ms),
        }),
{
    let w = with_entry(s, k, item, t, write_ms);
    law_candidates_without_subnet(w.index.hints, k);
    law_lookup_serves_first_usable(w, k, now_ms, touch_interval_ms, allow_stale);
    let keys = candidates(w.index.hints, k);
    assert(keys[0] == k && keys.len() == 1);
    assert(usable(w, keys[0], now_ms, allow_stale));
    let r = looked_up(w, k, now_ms, touch_interval_ms, allow_stale).1;
    let i = choose|i: int| #[trigger]
        first_usable(w, keys, i, now_ms, allow_stale) && serves(w, r, keys[i], k, now_ms);
    assert(i == 0);
}

/// Whether a lookup has left the entries of a store alone: those that stay keep their
/// response and times, and those that go had run out or did not answer their key.
pub open spec fn kept_entries(s: StoreView, t: StoreView, now_ms: u64) -> bool {
    &&& forall|k: CacheKeyView| #[trigger]
        t.entries.dom().contains(k) ==> s.entries.dom().contains(k) && handle_of(t.entries[k])
            == handle_of(s.entries[k])
    &&& forall|k: CacheKeyView|
        s.entries.dom().contains(k) && !(#[trigger] t.entries.dom().contains(k))
            ==> s.entries[k].expire_at_ms <= now_ms || !servable(s.entries[k].value, k)
}

proof fn lemma_probing_keeps_entries(
    s: StoreView,
    t: StoreView,
    keys: Seq<CacheKeyView>,
    request: CacheKeyView,
    now_ms: u64,
    touch_interval_ms: u64,
    allow_stale: bool,
    expired: bool,
)
    requires
        kept_entries(s, t, now_ms),
    ensures
        kept_entries(
            s,
            probe_all(t, keys, request, now_ms, touch_interval_ms, allow_stale, expired).0,
            now_ms,
        ),
    decreases keys.len(),
{
    if keys.len() > 0 {
        let k = keys[0];
        let u = probe_counted(t, request, k);
        let (v, found) = probe(u, k, now_ms, touch_interval_ms, allow_stale);
        assert(kept_entries(s, v, now_ms));
        lemma_probing_keeps_entries(
            s,
            v,
            keys.skip(1),
            request,
            now_ms,
            touch_interval_ms,
            allow_stale,
            expired || found is Expired,
        );
    }
}

/// A lookup rewrites no response, and takes out only what has run out or does not answer
/// its key. So repeated hits do not change how long a response is served.
pub proof fn law_lookup_keeps_entries(
    s: StoreView,
    request: CacheKeyView,
    now_ms: u64,
    touch_interval_ms: u64,
    allow_stale: bool,
)
    ensures
        kept_entries(s, looked_up(s, request, now_ms, touch_interval_ms, allow_stale).0, now_ms),
{
    let counted = StoreView {
        metrics: CacheMetrics {
            lookup_total: s.metrics.lookup_total.wrapping_add(1),
            ecs_lookup_requests_total: if request.ecs_scope is Some {
                s.metrics.ecs_lookup_requests_total.wrapping_add(1)
            } else {
                s.metrics.ecs_lookup_requests_total
            },
            ..s.metrics
        },
        ..s
    };
    lemma_probing_keeps_entries(
        s,
        counted,
        candidates(s.index.hints, request),
        request,
        now_ms,
        touch_interval_ms,
        allow_stale,
        false,
    );
}

/// A response that was written under a key that a request probes answers that request,
/// unless a key that is probed earlier has a response that can be served.
pub proof fn law_written_entry_is_probed(
    s: StoreView,
    k: CacheKeyView,
    item: CacheItemView,
    t: TtlCacheMoveMetadata,
    write_ms: u64,
    request: CacheKeyView,
    now_ms: u64,
    touch_interval_ms: u64,
    allow_stale: bool,
)
    requires
        candidates(with_entry(s, k, item, t, write_ms).index.hints, request).contains(k),
        servable(item, k),
        now_ms < item.fresh_until_ms,
        now_ms < t.expire_at_ms,
    ensures
        ({
            let w = with_entry(s, k, item, t, write_ms);
            let keys = candidates(w.index.hints, request);
            let r = looked_up(w, request, now_ms, touch_interval_ms, allow_stale).1;
            &&& !(r is Miss)
            &&& forall|i: int|
                #![trigger keys[i]]
                first_usable(w, keys, i, now_ms, allow_stale) && keys[i] == k ==> r == (
                LookupView::Fresh {
                    entry: CacheEntryView {
                        generation: s.next_generation,
                        item,
                        cache_time_ms: t.cache_time_ms,
                        expire_at_ms: t.expire_at_ms,
                    },
                    remaining_ttl: remaining_secs(item.fresh_until_ms, now_ms),
                })
        }),
{
    let w = with_entry(s, k, item, t, write_ms);
    let keys = candidates(w.index.hints, request);
    law_lookup_serves_first_usable(w, request, now_ms, touch_interval_ms, allow_stale);
    let r = looked_up(w, request, now_ms, touch_interval_ms, allow_stale).1;
    let at = choose|i: int| 0 <= i < keys.len() && keys[i] == k;
    assert(usable(w, keys[at], now_ms, allow_stale));
    let f = choose|i: int| #[trigger]
        first_usable(w, keys, i, now_ms, allow_stale) && serves(w, r, keys[i], request, now_ms);
    assert forall|i: int|
        #![trigger keys[i]]
        first_usable(w, keys, i, now_ms, allow_stale) && keys[i] == k implies r == (
    LookupView::Fresh {
        entry: CacheEntryView {
            generation: s.next_generation,
            item,
            cache_time_ms: t.cache_time_ms,
            expire_at_ms: t.expire_at_ms,
        },
        remaining_ttl: remaining_secs(item.fresh_until_ms, now_ms),
    }) by {
        assert(usable(w, keys[i], now_ms, allow_stale));
        assert(usable(w, keys[f], now_ms, allow_stale));
        assert(i == f);
    }
}

/// A response shared by the clients of a subnet is found by each of them: where the
/// written key is the request's subnet cut to a prefix, the request is no miss.
pub proof fn law_shared_entry_is_found(
    s: StoreView,
    request: CacheKeyView,
    prefix: u8,
    item: CacheItemView,
    t: TtlCacheMoveMetadata,
    write_ms: u64,
    now_ms: u64,
    touch_interval_ms: u64,
    allow_stale: bool,
)
    requires
        request.ecs_scope is Some,
        prefix <= request.ecs_scope->0.source_prefix,
        gives_hint(request.scoped(prefix)),
        servable(item, request.scoped(prefix)),
        now_ms < item.fresh_until_ms,
        now_ms < t.expire_at_ms,
    ensures
        !(looked_up(
            with_entry(s, request.scoped(prefix), item, t, write_ms),
            request,
            now_ms,
            touch_interval_ms,
            allow_stale,
        ).1 is Miss),
{
    let k = request.scoped(prefix);
    let w = with_entry(s, k, item, t, write_ms);
    assert(w.index.hints.contains(hint_of(k)));
    law_candidates_complete(w.index.hints, request, prefix);
    law_lookup_serves_first_usable(w, request, now_ms, touch_interval_ms, allow_stale);
    let keys = candidates(w.index.hints, request);
    let i = choose|i: int| 0 <= i < keys.len() && keys[i] == k;
    assert(usable(w, keys[i], now_ms, allow_stale));
}

/// A removed entry is not served any more.
pub proof fn law_removed_entry_is_missed(
    s: StoreView,
    k: CacheKeyView,
    remove_ms: u64,
    now_ms: u64,
    touch_interval_ms: u64,
    allow_stale: bool,
)
    requires
        k.ecs_scope is None,
    ensures
        looked_up(without(s, k, remove_ms), k, now_ms, touch_interval_ms, allow_stale).1
            == (LookupView::Miss { key: k }),
{
    let w = without(s, k, remove_ms);
    law_candidates_without_subnet(w.index.hints, k);
    law_lookup_serves_first_usable(w, k, now_ms, touch_interval_ms, allow_stale);
    let keys = candidates(w.index.hints, k);
    assert(forall|j: int| 0 <= j < keys.len() ==> keys[j] == k);
}

/// A stale response is served only where that is allowed, and an expired one never is.
pub proof fn law_no_expired_or_unwanted_stale(
    s: StoreView,
    request: CacheKeyView,
    now_ms: u64,
    touch_interval_ms: u64,
    allow_stale: bool,
)
    ensures
        match looked_up(s, request, now_ms, touch_interval_ms, allow_stale).1 {
            LookupView::Fresh { entry, .. } => now_ms < entry.item.fresh_until_ms && now_ms
                < entry.expire_at_ms,
            LookupView::Stale { entry, .. } => allow_stale && now_ms < entry.expire_at_ms,
            LookupView::Miss { .. } => true,
        },
{
    law_lookup_serves_first_usable(s, request, now_ms, touch_interval_ms, allow_stale);
    let r = looked_up(s, request, now_ms, touch_interval_ms, allow_stale).1;
    let keys = candidates(s.index.hints, request);
    if !(r is Miss) {
        let i = choose|i: int| #[trigger]
            first_usable(s, keys, i, now_ms, allow_stale) && serves(s, r, keys[i], request, now_ms);
        assert(usable(s, keys[i], now_ms, allow_stale));
    }
}

/// A move never leaves both the source and a second copy: afterwards the source key
/// holds nothing (unless it is the target), and the target holds a response.
pub proof fn law_move_keeps_one_entry(
    s: StoreView,
    source: CacheKeyView,
    target: CacheKeyView,
    generation: u64,
    item: CacheItemView,
    t: TtlCacheMoveMetadata,
    now_ms: u64,
)
    requires
        holds(s, source, generation),
    ensures
        ({
            let r = moved(s, source, target, generation, item, t, now_ms);
            &&& source != target ==> !r.0.entries.dom().contains(source)
            &&& r.0.entries.dom().contains(target)
            &&& r.1 == TtlCacheConditionalMoveResult::Consolidated
                ==> r.0.entries[target] == s.entries[target]
            &&& r.1 != TtlCacheConditionalMoveResult::Consolidated ==> r.0.entries[target].value
                == item
        }),
{
}

/// The entries, next generation and index of a store, as a load sees them.
pub open spec fn load_state(s: StoreView) -> (
    Map<CacheKeyView, Slot<CacheItemView>>,
    u64,
    EcsIndexView,
) {
    (s.entries, s.next_generation, s.index)
}

proof fn lemma_hints_grow(hints: Set<Hint>, prepared: Seq<PreparedView>)
    ensures
        hints.subset_of(hints_with_all(hints, prepared)),
    decreases prepared.len(),
{
    if prepared.len() > 0 {
        lemma_hints_grow(hints, prepared.drop_last());
    }
}

impl DnsCacheStore {
    /// Loads a dump into the cache, all of it or nothing. Loading is no change that a
    /// dump has to save.
    pub fn load_dump<const LIMIT: usize>(
        &mut self,
        data: &[u8],
        ecs_in_key: bool,
        policy: CacheLoadPolicy,
        max_entries: usize,
        now_elapsed_ms: u64,
        now_unix_ms: u64,
    ) -> (r: Result<usize, DumpError>)
        requires
            old(self).wf(),
            LIMIT <= isize::MAX,
        ensures
            final(self).wf(),
            final(self)@ == (StoreView {
                entries: final(self)@.entries,
                next_generation: final(self)@.next_generation,
                index: final(self)@.index,
                ..old(self)@
            }),
            ({
                let all = loadable(
                    data@,
                    LIMIT,
                    (LoadSetting { ecs_in_key, policy, now_elapsed_ms, now_unix_ms }),
                );
                match r {
                    Ok(n) => {
                        &&& all is Ok
                        &&& exists|prepared: Seq<PreparedView>| #[trigger]
                            selected(all->Ok_0, max_entries, prepared) && load_outcome(
                                load_state(old(self)@),
                                load_state(final(self)@),
                                false,
                                prepared,
                                n,
                            )
                    },
                    Err(e) => {
                        &&& all == Err::<Seq<RankedView>, DumpErrorView>(e@)
                        &&& final(self)@ == old(self)@
                    },
                }
            }),
    {
        let ghost s = self@;
        let r = load_cache_from_bytes_with_index_bounded::<LIMIT>(
            &mut self.cache_map,
            data,
            ecs_in_key,
            policy,
            false,
            &mut self.ecs_lookup_index,
            max_entries,
            now_elapsed_ms,
            now_unix_ms,
        );
        proof {
            if let Ok(n) = r {
                let all = loadable(
                    data@,
                    LIMIT,
                    (LoadSetting { ecs_in_key, policy, now_elapsed_ms, now_unix_ms }),
                );
                let prepared = choose|prepared: Seq<PreparedView>| #[trigger]
                    selected(all->Ok_0, max_entries, prepared) && load_outcome(
                        load_state(s),
                        load_state(self@),
                        false,
                        prepared,
                        n,
                    );
                law_load_keeps_hints(
                    (LoadedView {
                        entries: s.entries,
                        next_generation: s.next_generation,
                        loaded: 0,
                    }),
                    s.index.hints,
                    prepared,
                );
            }
        }
        r
    }

    /// Loads a dump into a cache of its own, prunes that to the size of the cache, and
    /// puts it in place of all that the cache holds. Nothing changes where the dump
    /// cannot be loaded. Returns the retired entries and what the pruning counted.
    pub fn replace_from_dump<const LIMIT: usize>(
        &mut self,
        data: &[u8],
        ecs_in_key: bool,
        policy: CacheLoadPolicy,
        capacity: usize,
        now_elapsed_ms: u64,
        now_unix_ms: u64,
    ) -> (r: Result<(CacheMap, (usize, usize, usize)), DumpError>)
        requires
            old(self).wf(),
            LIMIT <= isize::MAX,
        ensures
            final(self).wf(),
            ({
                let all = loadable(
                    data@,
                    LIMIT,
                    (LoadSetting { ecs_in_key, policy, now_elapsed_ms, now_unix_ms }),
                );
                match r {
                    Ok((retired, counts)) => {
                        &&& all is Ok
                        &&& retired.wf()
                        &&& entries_of(retired@) == old(self)@.entries
                        &&& exists|prepared: Seq<PreparedView>| #[trigger]
                            selected(all->Ok_0, old(self)@.cache_size, prepared)
                                && replaced_by(
                                old(self)@,
                                final(self)@,
                                prepared,
                                counts,
                                now_elapsed_ms,
                            )
                    },
                    Err(e) => {
                        &&& all == Err::<Seq<RankedView>, DumpErrorView>(e@)
                        &&& final(self)@ == old(self)@
                    },
                }
            }),
    {
        let ghost s = self@;
        let ghost all = loadable(
            data@,
            LIMIT,
            (LoadSetting { ecs_in_key, policy, now_elapsed_ms, now_unix_ms }),
        );
        let mut staged = match stage_cache_from_bytes::<LIMIT>(
            data,
            ecs_in_key,
            policy,
            &mut self.ecs_lookup_index,
            capacity,
            self.cache_size,
            now_elapsed_ms,
            now_unix_ms,
        ) {
            Ok(m) => m,
            Err(e) => return Err(e),
        };
        let ghost t = self@;
        let ghost loaded = staged@;
        let ghost after = (entries_of(staged@), staged.next_gen(), t.index);
        let ghost prepared = choose|prepared: Seq<PreparedView>| #[trigger]
            selected(all->Ok_0, s.cache_size, prepared) && staged_from(s.index, after, prepared);
        let mode = TtlCachePruneMode::Exact { max_size: self.cache_size };
        let counts = staged.prune(mode, now_elapsed_ms);
        proof {
            let start = LoadedView { entries: Map::empty(), next_generation: 1, loaded: 0 };
            law_load_keeps_hints(start, s.index.hints, prepared);
            lemma_hints_grow(s.index.hints, prepared);
            lemma_prune_sample(loaded, staged@, mode, now_elapsed_ms, counts);
            assert forall|k: CacheKeyView| #[trigger]
                entries_of(staged@).dom().contains(k) && gives_hint(k) implies t.index.hints.contains(
                hint_of(k),
            ) by {
                assert(staged@.dom().contains(k));
                assert(entries_of(loaded).dom().contains(k));
            }
        }
        let retired = self.replace_generation(staged, counts.2, now_elapsed_ms);
        assert(replaced_by(s, self@, prepared, counts, now_elapsed_ms));
        Ok((retired, counts))
    }

    /// Puts an empty cache in place of all that the cache holds. Returns the retired
    /// entries.
    pub fn flush(&mut self, capacity: usize, now_ms: u64) -> (r: CacheMap)
        requires
            old(self).wf(),
        ensures
            final(self).wf(),
            r.wf(),
            entries_of(r@) == old(self)@.entries,
            final(self)@ == (StoreView {
                entries: Map::empty(),
                next_generation: 1,
                index: EcsIndexView {
                    stale_revision: old(self)@.index.stale_revision.wrapping_add(1),
                    ..old(self)@.index
                },
                mutations: with_changes(
                    old(self)@.mutations,
                    replaced_count(old(self)@.entries.dom().len(), 0),
                    now_ms,
                ),
                ..old(self)@
            }),
    {
        let replacement: CacheMap = TtlCache::with_capacity(capacity);
        assert(entries_of(replacement@) =~= Map::empty());
        self.replace_generation(replacement, 0, now_ms)
    }
}

proof fn lemma_prune_sample(
    before: Map<CacheKeyView, Slot<CacheItem>>,
    after: Map<CacheKeyView, Slot<CacheItem>>,
    mode: TtlCachePruneMode,
    now_ms: u64,
    r: (usize, usize, usize),
)
    requires
        exists|sample: Set<CacheKeyView>| #[trigger]
            pruned(
                before,
                after,
                now_ms,
                prune_bounds(mode).0,
                prune_bounds(mode).1,
                prune_bounds(mode).2,
                sample,
                r,
            ),
    ensures
        pruned_to(entries_of(before), entries_of(after), mode, now_ms, r),
        after.dom().subset_of(before.dom()),
{
    let sample = choose|sample: Set<CacheKeyView>| #[trigger]
        pruned(
            before,
            after,
            now_ms,
            prune_bounds(mode).0,
            prune_bounds(mode).1,
            prune_bounds(mode).2,
            sample,
            r,
        );
    lemma_pruned_view(
        before,
        after,
        now_ms,
        prune_bounds(mode).0,
        prune_bounds(mode).1,
        prune_bounds(mode).2,
        sample,
        r,
    );
}

/// Whether entries were pruned to others, with the given counts.
pub open spec fn pruned_to(
    before: Map<CacheKeyView, Slot<CacheItemView>>,
    after: Map<CacheKeyView, Slot<CacheItemView>>,
    mode: TtlCachePruneMode,
    now_ms: u64,
    r: (usize, usize, usize),
) -> bool {
    exists|sample: Set<CacheKeyView>| #[trigger]
        pruned(
            before,
            after,
            now_ms,
            prune_bounds(mode).0,
            prune_bounds(mode).1,
            prune_bounds(mode).2,
            sample,
            r,
        )
}

/// What replacing the cache by prepared entries does to the store.
pub open spec fn replaced_by(
    s: StoreView,
    t: StoreView,
    prepared: Seq<PreparedView>,
    counts: (usize, usize, usize),
    now_ms: u64,
) -> bool {
    let end = load_all(
        (LoadedView { entries: Map::empty(), next_generation: 1, loaded: 0 }),
        prepared,
    );
    &&& pruned_to(
        end.entries,
        t.entries,
        TtlCachePruneMode::Exact { max_size: s.cache_size },
        now_ms,
        counts,
    )
    &&& t.next_generation == end.next_generation
    &&& t.cache_size == s.cache_size
    &&& t.pressure == s.pressure
    &&& t.metrics == s.metrics
    &&& t.mutations == with_changes(
        s.mutations,
        replaced_count(s.entries.dom().len(), counts.2),
        now_ms,
    )
    &&& t.index.hints == hints_with_all(s.index.hints, prepared)
    &&& t.index.stale_revision == s.index.stale_revision.wrapping_add(1)
    &&& t.index.rebuilt_revision == s.index.rebuilt_revision
}

} // verus!
