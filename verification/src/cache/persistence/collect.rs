//! Turning stored entries into cache entries, and keeping the ones that rank highest.

use vstd::prelude::*;

use crate::cache::dump_wire::{PersistedCacheEntry, PersistedView};
use crate::cache::item::{later, since, CacheEntryValidation, CacheItem, CacheItemView};
use crate::cache::key::{
    canonical_domain, canonical_ecs, canonical_ecs_key_digest, normalize_cache_key_domain, padded16,
    persisted_ecs_key_matches_response, stored_key_matches, CacheKey, CacheKeyView, EcsScopeView,
};
use crate::cache::persistence::decode::{after, dump_version};
use crate::cache::persistence::error::{DumpError, DumpErrorView, LEGACY_CACHE_DUMP_VERSION};
use crate::cache::policy::{
    cache_disposition, clamp_persisted_cache_ttl, clamped_ttl, disposition_valid,
    is_cache_disposition_valid, min_u64, response_disposition_for_cache, CacheLoadPolicy,
};
use crate::proto::message::{DNSClass, Message, MessageView, RecordType};
use crate::proto::wire::{parse_message, wire_text, WireError};
use crate::rank_heap::{rank_le, ranks_le, RankHeap, RankItem};
use crate::ttl_cache::{sort_pairs, TtlCache};

verus! {

/// The key of a stored entry. An entry with a subnet has none where subnets are not
/// part of keys: its answer may depend on where the client is.
pub open spec fn stored_key(e: PersistedView, ecs_in_key: bool) -> Result<
    Option<CacheKeyView>,
    DumpErrorView,
> {
    match canonical_domain(e.domain) {
        None => Err(DumpErrorView::InvalidDomain),
        Some(domain) => {
            let key = CacheKeyView {
                domain,
                record_type: crate::proto::message::record_type_of(e.record_type),
                dns_class: crate::proto::message::dns_class_of(e.dns_class),
                do_bit: e.do_bit,
                cd_bit: e.cd_bit,
                ecs_scope: None,
            };
            match (e.ecs_family, e.ecs_source_prefix, e.ecs_scope_prefix, e.ecs_network) {
                (None, None, None, None) => Ok(Some(key)),
                (Some(family), Some(source_prefix), Some(scope_prefix), Some(network)) => {
                    if !canonical_ecs(family, source_prefix, scope_prefix, network) {
                        Err(DumpErrorView::NoncanonicalEcs(domain))
                    } else if !ecs_in_key {
                        Ok(None)
                    } else {
                        Ok(
                            Some(
                                CacheKeyView {
                                    ecs_scope: Some(
                                        EcsScopeView {
                                            family,
                                            source_prefix,
                                            scope_prefix,
                                            network_len: network.len() as u8,
                                            network: padded16(network),
                                        },
                                    ),
                                    ..key
                                },
                            ),
                        )
                    }
                },
                _ => Err(DumpErrorView::PartialEcs(domain)),
            }
        },
    }
}

/// The key of a stored entry.
pub fn to_cache_key(entry: &PersistedCacheEntry, ecs_in_key: bool) -> (r: Result<
    Option<CacheKey>,
    DumpError,
>)
    ensures
        match r {
            Ok(Some(k)) => stored_key(entry@, ecs_in_key) == Ok::<
                Option<CacheKeyView>,
                DumpErrorView,
            >(Some(k@)) && k@.wf(),
            Ok(None) => stored_key(entry@, ecs_in_key) == Ok::<
                Option<CacheKeyView>,
                DumpErrorView,
            >(None),
            Err(e) => stored_key(entry@, ecs_in_key) == Err::<Option<CacheKeyView>, DumpErrorView>(
                e@,
            ),
        },
{
    let domain = match normalize_cache_key_domain(entry.domain.as_str()) {
        Some(d) => d,
        None => return Err(DumpError::InvalidDomain),
    };
    let ecs_scope = match (
        entry.ecs_family,
        entry.ecs_source_prefix,
        entry.ecs_scope_prefix,
        &entry.ecs_network,
    ) {
        (None, None, None, None) => None,
        (Some(family), Some(source_prefix), Some(scope_prefix), Some(network)) => {
            match canonical_ecs_key_digest(family, source_prefix, scope_prefix, network.as_slice()) {
                None => return Err(DumpError::NoncanonicalEcs(domain)),
                Some(digest) => {
                    if !ecs_in_key {
                        return Ok(None);
                    }
                    Some(digest)
                },
            }
        },
        _ => return Err(DumpError::PartialEcs(domain)),
    };
    Ok(
        Some(
            CacheKey {
                domain,
                record_type: RecordType::from_u16(entry.record_type),
                dns_class: DNSClass::from_u16(entry.dns_class),
                do_bit: entry.do_bit,
                cd_bit: entry.cd_bit,
                ecs_scope,
            },
        ),
    )
}

/// An entry that is ready to be put into the cache.
#[derive(Debug, PartialEq, Eq)]
pub struct PreparedCacheEntry {
    pub key: CacheKey,
    pub value: CacheItem,
    pub cache_time_ms: u64,
    pub expire_at_ms: u64,
    pub last_access_ms: u64,
    pub restore_cache_age_ms: u64,
    pub restore_last_access_age_ms: u64,
}

/// The mathematical content of a [`PreparedCacheEntry`].
pub struct PreparedView {
    pub key: CacheKeyView,
    pub value: CacheItemView,
    pub cache_time_ms: u64,
    pub expire_at_ms: u64,
    pub last_access_ms: u64,
    pub restore_cache_age_ms: u64,
    pub restore_last_access_age_ms: u64,
}

impl View for PreparedCacheEntry {
    type V = PreparedView;

    open spec fn view(&self) -> PreparedView {
        PreparedView {
            key: self.key@,
            value: self.value@,
            cache_time_ms: self.cache_time_ms,
            expire_at_ms: self.expire_at_ms,
            last_access_ms: self.last_access_ms,
            restore_cache_age_ms: self.restore_cache_age_ms,
            restore_last_access_age_ms: self.restore_last_access_age_ms,
        }
    }
}

/// What loading depends on besides the dump.
pub struct LoadContext {
    pub ecs_in_key: bool,
    pub policy: CacheLoadPolicy,
    pub dump_version: u32,
    pub now_elapsed_ms: u64,
    pub downtime_ms: u64,
}

/// An entry under a key, with the times that it has left. The age that the clock
/// cannot express goes into the offset.
pub open spec fn prepared_entry(
    e: PersistedView,
    key: CacheKeyView,
    resp: MessageView,
    limits: (u32, u64, u64),
    c: LoadContext,
) -> PreparedView {
    let age = later(e.cache_age_ms, c.downtime_ms as int);
    let access_age = later(e.last_access_age_ms, c.downtime_ms as int);
    let represented = min_u64(age, c.now_elapsed_ms);
    PreparedView {
        key,
        value: CacheItemView::fresh(
            resp,
            limits.0,
            later(c.now_elapsed_ms, limits.1 as int),
            since(age, represented),
            CacheEntryValidation::Validated,
        ),
        cache_time_ms: since(c.now_elapsed_ms, represented),
        expire_at_ms: later(c.now_elapsed_ms, limits.2 as int),
        last_access_ms: since(c.now_elapsed_ms, access_age),
        restore_cache_age_ms: age,
        restore_last_access_age_ms: access_age,
    }
}

/// Loading one entry. An entry that is over, that the configuration does not want or
/// that is not a valid response any more is left out; what contradicts itself is an
/// error.
pub open spec fn loaded_entry(e: PersistedView, c: LoadContext) -> Result<
    Option<PreparedView>,
    DumpErrorView,
> {
    let remaining = since(e.remaining_ttl_ms, c.downtime_ms);
    if remaining == 0 {
        Ok(None)
    } else {
        match stored_key(e, c.ecs_in_key) {
            Err(problem) => Err(problem),
            Ok(None) => Ok(None),
            Ok(Some(key)) => match parse_message(e.resp_bytes) {
                None => Err(
                    DumpErrorView::InvalidMessage(e.domain, wire_text(WireError::Malformed)),
                ),
                Some(resp) => {
                    let d = cache_disposition(resp, key);
                    let limits = clamped_ttl(
                        resp,
                        key.dns_class,
                        d,
                        e.ttl,
                        remaining,
                        later(e.cache_age_ms, c.downtime_ms as int),
                        c.policy,
                    );
                    if !disposition_valid(d) {
                        Ok(None)
                    } else if !stored_key_matches(key, resp) {
                        Err(DumpErrorView::InconsistentEcs(e.domain))
                    } else if c.dump_version == LEGACY_CACHE_DUMP_VERSION && e.cache_age_ms >= e.ttl
                        * 1000 {
                        Ok(None)
                    } else if limits.0 == 0 || limits.2 == 0 {
                        Ok(None)
                    } else {
                        Ok(Some(prepared_entry(e, key, resp, limits, c)))
                    }
                },
            },
        }
    }
}

/// Loads one entry.
pub fn prepare_loaded_entry(
    entry: PersistedCacheEntry,
    ecs_in_key: bool,
    policy: CacheLoadPolicy,
    dump_version: u32,
    now_elapsed_ms: u64,
    downtime_ms: u64,
) -> (r: Result<Option<PreparedCacheEntry>, DumpError>)
    ensures
        ({
            let spec_result = loaded_entry(
                entry@,
                (LoadContext { ecs_in_key, policy, dump_version, now_elapsed_ms, downtime_ms }),
            );
            match r {
                Ok(Some(p)) => spec_result == Ok::<Option<PreparedView>, DumpErrorView>(Some(p@))
                    && p.key@.wf(),
                Ok(None) => spec_result == Ok::<Option<PreparedView>, DumpErrorView>(None),
                Err(e) => spec_result == Err::<Option<PreparedView>, DumpErrorView>(e@),
            }
        }),
{
    let remaining_before_clamp: u64 = entry.remaining_ttl_ms.saturating_sub(downtime_ms);
    if remaining_before_clamp == 0 {
        return Ok(None);
    }
    let effective_cache_age_ms: u64 = entry.cache_age_ms.saturating_add(downtime_ms);
    let effective_last_access_age_ms: u64 = entry.last_access_age_ms.saturating_add(downtime_ms);
    let key = match to_cache_key(&entry, ecs_in_key) {
        Ok(Some(k)) => k,
        Ok(None) => return Ok(None),
        Err(e) => return Err(e),
    };
    let resp = match Message::from_bytes(entry.resp_bytes.as_slice()) {
        Ok(m) => m,
        Err(e) => return Err(DumpError::InvalidMessage(entry.domain, e.message())),
    };
    let disposition = response_disposition_for_cache(&resp, &key);
    if !is_cache_disposition_valid(disposition) {
        return Ok(None);
    }
    if !persisted_ecs_key_matches_response(&key, &resp) {
        return Err(DumpError::InconsistentEcs(entry.domain));
    }
    if dump_version == LEGACY_CACHE_DUMP_VERSION && entry.cache_age_ms >= (entry.ttl as u64) * 1000 {
        return Ok(None);
    }
    let (ttl, fresh_remaining_ms, retention_remaining_ms) = clamp_persisted_cache_ttl(
        &resp,
        &key,
        disposition,
        entry.ttl,
        remaining_before_clamp,
        effective_cache_age_ms,
        policy,
    );
    if ttl == 0 || retention_remaining_ms == 0 {
        return Ok(None);
    }
    let represented_cache_age_ms: u64 = if effective_cache_age_ms <= now_elapsed_ms {
        effective_cache_age_ms
    } else {
        now_elapsed_ms
    };
    Ok(
        Some(
            PreparedCacheEntry {
                key,
                value: CacheItem::new_validated_with_age_offset(
                    resp,
                    ttl,
                    now_elapsed_ms.saturating_add(fresh_remaining_ms),
                    effective_cache_age_ms.saturating_sub(represented_cache_age_ms),
                ),
                cache_time_ms: now_elapsed_ms.saturating_sub(represented_cache_age_ms),
                expire_at_ms: now_elapsed_ms.saturating_add(retention_remaining_ms),
                last_access_ms: now_elapsed_ms.saturating_sub(effective_last_access_age_ms),
                restore_cache_age_ms: effective_cache_age_ms,
                restore_last_access_age_ms: effective_last_access_age_ms,
            },
        ),
    )
}

/// A prepared entry with its place in the dump.
#[derive(Debug, PartialEq, Eq)]
pub struct RankedPreparedEntry {
    pub entry: PreparedCacheEntry,
    pub sequence: usize,
}

/// The mathematical content of a [`RankedPreparedEntry`].
pub struct RankedView {
    pub entry: PreparedView,
    pub sequence: usize,
}

impl View for RankedPreparedEntry {
    type V = RankedView;

    open spec fn view(&self) -> RankedView {
        RankedView { entry: self.entry@, sequence: self.sequence }
    }
}

/// By what entries are kept: those used most recently first, then those cached most
/// recently, then those that come last in the dump. `slot` does not matter.
pub open spec fn ranked(r: RankedView, slot: usize) -> RankItem {
    (
        (u64::MAX - r.entry.restore_last_access_age_ms) as u64,
        (u64::MAX - r.entry.restore_cache_age_ms) as u64,
        r.sequence,
        slot,
    )
}

/// Whether an entry ranks no higher than another.
pub open spec fn ranks_below(a: RankedView, b: RankedView) -> bool {
    rank_le(ranked(a, 0), ranked(b, 0))
}

impl RankedPreparedEntry {
    /// By what the entry is kept.
    pub fn rank(&self) -> (r: (u64, u64, usize))
        ensures
            (r.0, r.1, r.2, 0usize) == ranked(self@, 0),
    {
        (
            u64::MAX - self.entry.restore_last_access_age_ms,
            u64::MAX - self.entry.restore_cache_age_ms,
            self.sequence,
        )
    }
}

/// What a collector has seen: the keys, and the entries that it could keep, in the
/// order of the dump.
pub struct CollectorView {
    pub context: LoadContext,
    pub seen: Set<CacheKeyView>,
    pub accepted: Seq<RankedView>,
    pub pushed: nat,
}

/// One more stored entry.
pub open spec fn collected(c: CollectorView, e: PersistedView) -> Result<CollectorView, DumpErrorView> {
    match stored_key(e, c.context.ecs_in_key) {
        Err(problem) => Err(problem),
        Ok(key) => if key is Some && c.seen.contains(key->0) {
            Err(DumpErrorView::DuplicateKey)
        } else {
            let seen = match key {
                Some(k) => c.seen.insert(k),
                None => c.seen,
            };
            match loaded_entry(e, c.context) {
                Err(problem) => Err(problem),
                Ok(None) => Ok(CollectorView { seen, pushed: c.pushed + 1, ..c }),
                Ok(Some(p)) => Ok(
                    CollectorView {
                        seen,
                        accepted: c.accepted.push(
                            RankedView { entry: p, sequence: c.pushed as usize },
                        ),
                        pushed: c.pushed + 1,
                        ..c
                    },
                ),
            }
        },
    }
}

/// Keeps, of the entries of a dump, those that rank highest.
pub struct PreparedEntryCollector {
    ecs_in_key: bool,
    policy: CacheLoadPolicy,
    dump_version: u32,
    now_elapsed_ms: u64,
    downtime_ms: u64,
    max_entries: usize,
    next_sequence: usize,
    retained: Vec<Option<RankedPreparedEntry>>,
    ranks: RankHeap,
    seen_keys: TtlCache<CacheKey, ()>,
    accepted: Ghost<Seq<RankedView>>,
}

/// Whether slot `j` holds an entry.
spec fn slot_full(slots: Seq<Option<RankedPreparedEntry>>, j: int) -> bool {
    0 <= j < slots.len() && slots[j] is Some
}

/// The item that stands for slot `j`.
spec fn slot_item(slots: Seq<Option<RankedPreparedEntry>>, j: int) -> RankItem {
    ranked(slot_entry(slots, j), j as usize)
}

impl PreparedEntryCollector {
    pub closed spec fn view(&self) -> CollectorView {
        CollectorView {
            context: LoadContext {
                ecs_in_key: self.ecs_in_key,
                policy: self.policy,
                dump_version: self.dump_version,
                now_elapsed_ms: self.now_elapsed_ms,
                downtime_ms: self.downtime_ms,
            },
            seen: self.seen_keys@.dom(),
            accepted: self.accepted@,
            pushed: self.next_sequence as nat,
        }
    }

    /// The most entries that are kept.
    pub closed spec fn limit(&self) -> usize {
        self.max_entries
    }

    pub closed spec fn wf(&self) -> bool {
        &&& self.seen_keys.wf()
        &&& self.seen_keys@.dom().len() <= self.next_sequence
        &&& self.wf_but_seen()
    }
}

/// Whether every slot holds an accepted entry of its own, the heap holds an item for
/// each, and what was dropped ranks no higher than what is kept.
spec fn slots_ok(
    slots: Seq<Option<RankedPreparedEntry>>,
    all: Seq<RankedView>,
    heap: Set<RankItem>,
) -> bool {
    &&& forall|j: int| 0 <= j < slots.len() ==> #[trigger] slot_full(slots, j)
    &&& forall|j: int| 0 <= j < slots.len() ==> all.contains(#[trigger] slot_entry(slots, j))
    &&& forall|i: int, j: int|
        0 <= i < j < slots.len() ==> (#[trigger] slot_entry(slots, i)).sequence != (
        #[trigger] slot_entry(slots, j)).sequence
    &&& forall|j: int| 0 <= j < slots.len() ==> heap.contains(#[trigger] slot_item(slots, j))
    &&& forall|x: RankItem| #[trigger]
        heap.contains(x) ==> x.3 < slots.len() && x == slot_item(slots, x.3 as int)
    &&& forall|i: int, j: int|
        0 <= i < all.len() && 0 <= j < slots.len() && !kept_in(slots, #[trigger] all[i])
            ==> ranks_below(all[i], #[trigger] slot_entry(slots, j))
}

/// The entry in slot `j`.
spec fn slot_entry(slots: Seq<Option<RankedPreparedEntry>>, j: int) -> RankedView {
    (slots[j]->0)@
}

/// Whether an entry is in one of the slots.
spec fn kept_in(slots: Seq<Option<RankedPreparedEntry>>, r: RankedView) -> bool {
    exists|j: int| 0 <= j < slots.len() && #[trigger] slot_entry(slots, j) == r
}

impl PreparedEntryCollector {
    /// A collector that keeps `max_entries` entries.
    pub fn new(
        ecs_in_key: bool,
        policy: CacheLoadPolicy,
        dump_version: u32,
        dumped_at_unix_ms: u64,
        max_entries: usize,
        entry_count_hint: usize,
        now_elapsed_ms: u64,
        now_unix_ms: u64,
    ) -> (r: PreparedEntryCollector)
        ensures
            r.wf(),
            r.limit() == max_entries,
            r@ == (CollectorView {
                context: LoadContext {
                    ecs_in_key,
                    policy,
                    dump_version,
                    now_elapsed_ms,
                    downtime_ms: since(now_unix_ms, dumped_at_unix_ms),
                },
                seen: Set::empty(),
                accepted: Seq::empty(),
                pushed: 0,
            }),
    {
        let capacity: usize = if max_entries <= entry_count_hint {
            max_entries
        } else {
            entry_count_hint
        };
        let r = PreparedEntryCollector {
            ecs_in_key,
            policy,
            dump_version,
            now_elapsed_ms,
            downtime_ms: now_unix_ms.saturating_sub(dumped_at_unix_ms),
            max_entries,
            next_sequence: 0,
            retained: Vec::new(),
            ranks: RankHeap::new(),
            seen_keys: TtlCache::with_capacity(capacity),
            accepted: Ghost(Seq::empty()),
        };
        assert(r.seen_keys@.dom() =~= Set::empty());
        r
    }

    /// Adds a stored entry.
    pub fn push(&mut self, persisted: PersistedCacheEntry) -> (r: Result<(), DumpError>)
        requires
            old(self).wf(),
            old(self)@.pushed < usize::MAX,
        ensures
            final(self).limit() == old(self).limit(),
            match r {
                Ok(_) => final(self).wf() && collected(old(self)@, persisted@) == Ok::<
                    CollectorView,
                    DumpErrorView,
                >(final(self)@),
                Err(e) => collected(old(self)@, persisted@) == Err::<CollectorView, DumpErrorView>(
                    e@,
                ),
            },
    {
        let ghost before = self@;
        match to_cache_key(&persisted, self.ecs_in_key) {
            Err(e) => {
                return Err(e);
            },
            Ok(None) => {},
            Ok(Some(key)) => {
                if self.seen_keys.get(&key).is_some() {
                    return Err(DumpError::DuplicateKey);
                }
                let ghost seen = self.seen_keys@;
                proof {
                    self.seen_keys.lemma_finite();
                }
                self.seen_keys.insert_or_update(key, (), 0, 0, 0);
                assert(self.seen_keys@.dom() =~= seen.dom().insert(key@));
            },
        }
        let sequence: usize = self.next_sequence;
        let prepared = prepare_loaded_entry(
            persisted,
            self.ecs_in_key,
            self.policy,
            self.dump_version,
            self.now_elapsed_ms,
            self.downtime_ms,
        );
        match prepared {
            Err(e) => Err(e),
            Ok(None) => {
                self.next_sequence = self.next_sequence + 1;
                Ok(())
            },
            Ok(Some(entry)) => {
                self.keep(RankedPreparedEntry { entry, sequence });
                Ok(())
            },
        }
    }

    /// Keeps an accepted entry, if need be in place of the one that ranks lowest.
    fn keep(&mut self, candidate: RankedPreparedEntry)
        requires
            old(self).next_sequence < usize::MAX,
            candidate.sequence == old(self).next_sequence,
            candidate@.entry.key.wf(),
            old(self).wf_but_seen(),
            old(self).seen_keys.wf(),
            old(self).seen_keys@.dom().len() <= old(self).next_sequence + 1,
        ensures
            final(self).wf(),
            final(self).limit() == old(self).limit(),
            final(self)@ == (CollectorView {
                accepted: old(self)@.accepted.push(candidate@),
                pushed: old(self)@.pushed + 1,
                ..old(self)@
            }),
    {
        let ghost slots = self.retained@;
        let ghost all = self.accepted@;
        let ghost heap = self.ranks@;
        let ghost new = candidate@;
        self.next_sequence = self.next_sequence + 1;
        proof {
            self.accepted@ = all.push(new);
        }
        let ghost grown = all.push(new);
        assert forall|i: int, j: int| 0 <= i < j < grown.len() implies (
        #[trigger] grown[i]).sequence < (#[trigger] grown[j]).sequence by {}
        if self.max_entries == 0 {
            return;
        }
        let rank = candidate.rank();
        if self.retained.len() < self.max_entries {
            let slot: usize = self.retained.len();
            let item: RankItem = (rank.0, rank.1, rank.2, slot);
            proof {
                if heap.contains(item) {
                    assert(false);
                }
            }
            self.ranks.push(item);
            self.retained.push(Some(candidate));
            proof {
                lemma_slot_added(slots, all, heap, self.retained@, grown, self.ranks@, new);
            }
            return;
        }
        match self.ranks.min() {
            None => {
                proof {
                    assert(slot_full(slots, 0));
                    assert(heap.contains(slot_item(slots, 0)));
                }
            },
            Some(lowest) => {
                let item: RankItem = (rank.0, rank.1, rank.2, lowest.3);
                if !ranks_le(item, lowest) {
                    proof {
                        if heap.contains(item) {
                            assert(item == slot_item(slots, item.3 as int));
                            assert(all.contains(slot_entry(slots, item.3 as int)));
                        }
                        self.ranks.lemma_finite();
                        lemma_nonempty(heap, lowest);
                    }
                    let removed = self.ranks.replace_min(item);
                    assert(rank_le(removed, lowest) && rank_le(lowest, removed));
                    proof {
                        lemma_same_rank(slots, all, heap, removed, lowest, self.next_sequence);
                    }
                    self.retained.set(lowest.3, Some(candidate));
                    proof {
                        lemma_slot_replaced(
                            slots,
                            all,
                            heap,
                            self.retained@,
                            grown,
                            self.ranks@,
                            new,
                            lowest,
                        );
                    }
                } else {
                    proof {
                        assert forall|i: int, j: int|
                            0 <= i < grown.len() && 0 <= j < slots.len() && !kept_in(
                                slots,
                                #[trigger] grown[i],
                            ) implies ranks_below(grown[i], #[trigger] slot_entry(slots, j)) by {
                            if i == all.len() {
                                assert(heap.contains(slot_item(slots, j)));
                                assert(rank_le(lowest, slot_item(slots, j)));
                            } else {
                                assert(grown[i] == all[i]);
                            }
                        }
                        assert forall|j: int| 0 <= j < slots.len() implies grown.contains(
                            #[trigger] slot_entry(slots, j),
                        ) by {
                            assert(all.contains(slot_entry(slots, j)));
                            let i = choose|i: int| 0 <= i < all.len() && all[i] == slot_entry(slots, j);
                            assert(grown[i] == all[i]);
                        }
                    }
                }
            },
        }
    }

    /// The invariant but for the keys.
    spec fn wf_but_seen(&self) -> bool {
        let slots = self.retained@;
        let all = self.accepted@;
        &&& self.ranks.wf()
        &&& all.len() <= self.next_sequence
        &&& forall|i: int, j: int|
            0 <= i < j < all.len() ==> (#[trigger] all[i]).sequence < (#[trigger] all[j]).sequence
        &&& forall|i: int| 0 <= i < all.len() ==> (#[trigger] all[i]).sequence < self.next_sequence
        &&& forall|i: int| 0 <= i < all.len() ==> (#[trigger] all[i]).entry.key.wf()
        &&& slots.len() == (if all.len() <= self.max_entries {
            all.len() as int
        } else {
            self.max_entries as int
        })
        &&& slots_ok(slots, all, self.ranks@)
    }
}

proof fn lemma_nonempty(s: Set<RankItem>, x: RankItem)
    requires
        s.contains(x),
        s.finite(),
    ensures
        s.len() > 0,
{
    if s.len() == 0 {
        assert(s =~= Set::empty());
    }
}

/// Two items of the heap that rank the same are the same.
proof fn lemma_same_rank(
    slots: Seq<Option<RankedPreparedEntry>>,
    all: Seq<RankedView>,
    heap: Set<RankItem>,
    a: RankItem,
    b: RankItem,
    bound: usize,
)
    requires
        slots_ok(slots, all, heap),
        heap.contains(a),
        heap.contains(b),
        rank_le(a, b),
        rank_le(b, a),
    ensures
        a == b,
{
    assert(a == slot_item(slots, a.3 as int));
    assert(b == slot_item(slots, b.3 as int));
    if a.3 < b.3 {
        assert(slot_entry(slots, a.3 as int).sequence != slot_entry(slots, b.3 as int).sequence);
    } else if b.3 < a.3 {
        assert(slot_entry(slots, b.3 as int).sequence != slot_entry(slots, a.3 as int).sequence);
    }
}

proof fn lemma_slot_added(
    slots: Seq<Option<RankedPreparedEntry>>,
    all: Seq<RankedView>,
    heap: Set<RankItem>,
    after: Seq<Option<RankedPreparedEntry>>,
    grown: Seq<RankedView>,
    items: Set<RankItem>,
    new: RankedView,
)
    requires
        slots_ok(slots, all, heap),
        slots.len() == all.len(),
        slots.len() < usize::MAX,
        grown == all.push(new),
        after.len() == slots.len() + 1,
        after.last() is Some,
        (after.last()->0)@ == new,
        forall|j: int| 0 <= j < slots.len() ==> #[trigger] after[j] == slots[j],
        items == heap.insert(ranked(new, slots.len() as usize)),
        forall|i: int| 0 <= i < all.len() ==> (#[trigger] all[i]).sequence < new.sequence,
    ensures
        slots_ok(after, grown, items),
{
    assert forall|j: int| 0 <= j < after.len() implies #[trigger] slot_full(after, j) by {
        if j < slots.len() {
            assert(slot_full(slots, j));
        }
    }
    assert forall|j: int| 0 <= j < slots.len() implies #[trigger] slot_entry(after, j) == slot_entry(
        slots,
        j,
    ) by {
        assert(after[j] == slots[j]);
    }
    assert(slot_entry(after, slots.len() as int) == new);
    assert forall|j: int| 0 <= j < after.len() implies grown.contains(
        #[trigger] slot_entry(after, j),
    ) by {
        if j < slots.len() {
            assert(all.contains(slot_entry(slots, j)));
            let i = choose|i: int| 0 <= i < all.len() && all[i] == slot_entry(slots, j);
            assert(grown[i] == all[i]);
        } else {
            assert(grown[all.len() as int] == new);
        }
    }
    assert forall|i: int, j: int| 0 <= i < j < after.len() implies (
    #[trigger] slot_entry(after, i)).sequence != (#[trigger] slot_entry(after, j)).sequence by {
        assert(all.contains(slot_entry(slots, i)));
        let k = choose|k: int| 0 <= k < all.len() && all[k] == slot_entry(slots, i);
        assert(all[k].sequence < new.sequence);
        if j < slots.len() {
            assert(slot_entry(slots, i).sequence != slot_entry(slots, j).sequence);
        }
    }
    assert forall|j: int| 0 <= j < after.len() implies items.contains(
        #[trigger] slot_item(after, j),
    ) by {
        if j < slots.len() {
            assert(heap.contains(slot_item(slots, j)));
            assert(slot_entry(after, j) == slot_entry(slots, j));
        } else {
            assert(slot_entry(after, j) == new);
        }
    }
    assert forall|x: RankItem| #[trigger] items.contains(x) implies x.3 < after.len() && x
        == slot_item(after, x.3 as int) by {
        if heap.contains(x) {
            assert(x == slot_item(slots, x.3 as int));
            assert(slot_entry(after, x.3 as int) == slot_entry(slots, x.3 as int));
        } else {
            assert(slot_entry(after, x.3 as int) == new);
        }
    }
    // Nothing has been dropped: every slot is full and there are as many as entries.
    assert forall|i: int, j: int|
        0 <= i < grown.len() && 0 <= j < after.len() && !kept_in(
            after,
            #[trigger] grown[i],
        ) implies ranks_below(grown[i], #[trigger] slot_entry(after, j)) by {
        if i < all.len() {
            lemma_all_kept(slots, all, heap, i);
            let k = choose|k: int| 0 <= k < slots.len() && #[trigger] slot_entry(slots, k) == all[i];
            assert(slot_entry(after, k) == all[i]);
            assert(kept_in(after, grown[i]));
        } else {
            assert(slot_entry(after, slots.len() as int) == new);
            assert(kept_in(after, grown[i]));
        }
    }
}

/// The place of the entry of slot `j` among the accepted ones.
spec fn place_of(slots: Seq<Option<RankedPreparedEntry>>, all: Seq<RankedView>, j: int) -> int {
    choose|i: int| 0 <= i < all.len() && all[i] == slot_entry(slots, j)
}

/// Where there are as many slots as accepted entries, every one is kept.
proof fn lemma_all_kept(
    slots: Seq<Option<RankedPreparedEntry>>,
    all: Seq<RankedView>,
    heap: Set<RankItem>,
    i: int,
)
    requires
        slots_ok(slots, all, heap),
        slots.len() == all.len(),
        0 <= i < all.len(),
    ensures
        kept_in(slots, all[i]),
{
    // The places of the slots are distinct numbers below the length, so each occurs.
    let places = Seq::new(slots.len(), |j: int| place_of(slots, all, j));
    assert forall|j: int| 0 <= j < slots.len() implies 0 <= #[trigger] places[j] < all.len()
        && all[places[j]] == slot_entry(slots, j) by {
        assert(all.contains(slot_entry(slots, j)));
    }
    assert(places.no_duplicates()) by {
        assert forall|x: int, y: int|
            0 <= x < places.len() && 0 <= y < places.len() && x != y implies places[x]
            != places[y] by {
            assert(all[places[x]] == slot_entry(slots, x));
            assert(all[places[y]] == slot_entry(slots, y));
            if x < y {
                assert(slot_entry(slots, x).sequence != slot_entry(slots, y).sequence);
            } else {
                assert(slot_entry(slots, y).sequence != slot_entry(slots, x).sequence);
            }
        }
    }
    places.unique_seq_to_set();
    let range = vstd::set_lib::set_int_range(0, all.len() as int);
    vstd::set_lib::lemma_int_range(0, all.len() as int);
    assert(places.to_set().subset_of(range)) by {
        assert forall|p: int| places.to_set().contains(p) implies range.contains(p) by {
            let j = choose|j: int| 0 <= j < places.len() && places[j] == p;
            assert(0 <= places[j] < all.len());
        }
    }
    vstd::set_lib::lemma_subset_equality(places.to_set(), range);
    assert(range.contains(i));
    let j = choose|j: int| 0 <= j < places.len() && places[j] == i;
    assert(all[places[j]] == slot_entry(slots, j));
}

proof fn lemma_slot_replaced(
    slots: Seq<Option<RankedPreparedEntry>>,
    all: Seq<RankedView>,
    heap: Set<RankItem>,
    after: Seq<Option<RankedPreparedEntry>>,
    grown: Seq<RankedView>,
    items: Set<RankItem>,
    new: RankedView,
    lowest: RankItem,
)
    requires
        slots_ok(slots, all, heap),
        slots.len() <= usize::MAX,
        heap.contains(lowest),
        forall|x: RankItem| #[trigger] heap.contains(x) ==> rank_le(lowest, x),
        !rank_le(ranked(new, lowest.3), lowest),
        grown == all.push(new),
        after.len() == slots.len(),
        after[lowest.3 as int] is Some,
        (after[lowest.3 as int]->0)@ == new,
        forall|j: int| 0 <= j < slots.len() && j != lowest.3 ==> #[trigger] after[j] == slots[j],
        items == heap.remove(lowest).insert(ranked(new, lowest.3)),
        forall|i: int| 0 <= i < all.len() ==> (#[trigger] all[i]).sequence < new.sequence,
    ensures
        slots_ok(after, grown, items),
{
    let m = lowest.3 as int;
    assert(lowest == slot_item(slots, m));
    assert forall|j: int| 0 <= j < slots.len() && j != m implies #[trigger] slot_entry(after, j)
        == slot_entry(slots, j) by {
        assert(after[j] == slots[j]);
    }
    assert(slot_entry(after, m) == new);
    assert forall|j: int| 0 <= j < after.len() implies #[trigger] slot_full(after, j) by {
        if j != m {
            assert(slot_full(slots, j));
            assert(after[j] == slots[j]);
        }
    }
    assert forall|j: int| 0 <= j < after.len() implies grown.contains(
        #[trigger] slot_entry(after, j),
    ) by {
        if j != m {
            assert(all.contains(slot_entry(slots, j)));
            let i = choose|i: int| 0 <= i < all.len() && all[i] == slot_entry(slots, j);
            assert(grown[i] == all[i]);
        } else {
            assert(grown[all.len() as int] == new);
        }
    }
    assert forall|j: int| 0 <= j < slots.len() && j != m implies (
    #[trigger] slot_entry(after, j)).sequence < new.sequence by {
        assert(all.contains(slot_entry(slots, j)));
        let k = choose|k: int| 0 <= k < all.len() && all[k] == slot_entry(slots, j);
        assert(all[k].sequence < new.sequence);
    }
    assert forall|i: int, j: int| 0 <= i < j < after.len() implies (
    #[trigger] slot_entry(after, i)).sequence != (#[trigger] slot_entry(after, j)).sequence by {
        if i != m && j != m {
            assert(slot_entry(slots, i).sequence != slot_entry(slots, j).sequence);
        }
    }
    assert forall|j: int| 0 <= j < after.len() implies items.contains(
        #[trigger] slot_item(after, j),
    ) by {
        if j != m {
            assert(heap.contains(slot_item(slots, j)));
            assert(slot_entry(after, j) == slot_entry(slots, j));
            assert(slot_item(slots, j) != lowest);
        }
    }
    assert forall|x: RankItem| #[trigger] items.contains(x) implies x.3 < after.len() && x
        == slot_item(after, x.3 as int) by {
        if x != ranked(new, lowest.3) {
            assert(heap.contains(x));
            assert(x == slot_item(slots, x.3 as int));
            assert(slot_entry(after, x.3 as int) == slot_entry(slots, x.3 as int));
        }
    }
    assert forall|i: int, j: int|
        0 <= i < grown.len() && 0 <= j < after.len() && !kept_in(
            after,
            #[trigger] grown[i],
        ) implies ranks_below(grown[i], #[trigger] slot_entry(after, j)) by {
        assert(kept_in(after, new));
        assert(i < all.len());
        assert(grown[i] == all[i]);
        let dropped = slot_entry(slots, m);
        // The dropped entry ranks no higher than any that is kept, nor does what had
        // been dropped before it.
        assert(ranks_below(dropped, slot_entry(after, j))) by {
            if j != m {
                assert(heap.contains(slot_item(slots, j)));
            }
        }
        if kept_in(slots, all[i]) {
            let k = choose|k: int| 0 <= k < slots.len() && #[trigger] slot_entry(slots, k) == all[i];
            if k != m {
                assert(slot_entry(after, k) == all[i]);
                assert(kept_in(after, grown[i]));
            }
        } else {
            assert(ranks_below(all[i], slot_entry(slots, m)));
        }
    }
}

/// The views of a list of prepared entries.
pub open spec fn prepared_views(v: Seq<PreparedCacheEntry>) -> Seq<PreparedView> {
    Seq::new(v.len(), |i: int| v[i]@)
}

/// Whether `kept` are the entries at the places `at`, in the order of the dump, and
/// are the `limit` that rank highest.
pub open spec fn selects(
    all: Seq<RankedView>,
    limit: usize,
    at: Seq<int>,
    kept: Seq<PreparedView>,
) -> bool {
    &&& at.len() == kept.len()
    &&& kept.len() == (if all.len() <= limit {
        all.len() as int
    } else {
        limit as int
    })
    &&& forall|i: int| 0 <= i < at.len() ==> 0 <= #[trigger] at[i] < all.len() && kept[i]
        == all[at[i]].entry
    &&& forall|i: int, j: int| 0 <= i < j < at.len() ==> #[trigger] at[i] < #[trigger] at[j]
    &&& forall|i: int, j: int|
        0 <= i < all.len() && 0 <= j < at.len() && !at.contains(i) ==> ranks_below(
            #[trigger] all[i],
            all[#[trigger] at[j]],
        )
}

/// Whether `kept` are, in the order of the dump, the `limit` entries that rank highest.
pub open spec fn selected(all: Seq<RankedView>, limit: usize, kept: Seq<PreparedView>) -> bool {
    exists|at: Seq<int>| selects(all, limit, at, kept)
}

impl PreparedEntryCollector {
    /// The entries that are kept, in the order of the dump.
    pub fn finish(self) -> (r: Vec<PreparedCacheEntry>)
        requires
            self.wf(),
        ensures
            selected(self@.accepted, self.limit(), prepared_views(r@)),
            forall|i: int| 0 <= i < r@.len() ==> (#[trigger] r@[i]).key@.wf(),
    {
        let ghost slots = self.retained@;
        let ghost all = self.accepted@;
        let ghost heap = self.ranks@;
        let mut retained = self.retained;
        let n: usize = retained.len();
        let mut order: Vec<(u64, usize)> = Vec::new();
        let mut j: usize = 0;
        while j < n
            invariant
                j <= n == slots.len(),
                retained@ == slots,
                order@.len() == j,
                slots_ok(slots, all, heap),
                forall|i: int|
                    0 <= i < j ==> #[trigger] order@[i] == (
                        slot_entry(slots, i).sequence as u64,
                        i as usize,
                    ),
            decreases n - j,
        {
            assert(slot_full(slots, j as int));
            let sequence: usize = match &retained[j] {
                Some(r) => r.sequence,
                None => 0,
            };
            order.push((sequence as u64, j));
            j = j + 1;
        }
        let ghost unsorted = order@;
        sort_pairs(&mut order);
        let ghost sorted = order@;
        proof {
            lemma_sorted_slots(slots, all, heap, unsorted, sorted);
        }
        let mut out: Vec<PreparedCacheEntry> = Vec::new();
        let ghost at = Seq::new(n as nat, |i: int| place_of(slots, all, sorted[i].1 as int));
        let mut i: usize = 0;
        while i < n
            invariant
                i <= n == slots.len(),
                order@ == sorted,
                sorted.len() == n,
                retained@.len() == n,
                slots_ok(slots, all, heap),
                all == self.accepted@,
                forall|k: int| 0 <= k < n ==> (#[trigger] sorted[k]).1 < n,
                forall|x: int, y: int|
                    0 <= x < y < n ==> (#[trigger] sorted[x]).1 != (#[trigger] sorted[y]).1,
                forall|k: int|
                    i <= k < n ==> retained@[(#[trigger] sorted[k]).1 as int] == slots[sorted[k].1 as int],
                out@.len() == i,
                forall|k: int|
                    0 <= k < i ==> (#[trigger] out@[k])@ == slot_entry(
                        slots,
                        sorted[k].1 as int,
                    ).entry,
            decreases n - i,
        {
            let slot: usize = order[i].1;
            assert(slot_full(slots, slot as int));
            assert(sorted[i as int].1 == slot);
            let ghost before = retained@;
            let mut taken: Option<RankedPreparedEntry> = None;
            std::mem::swap(&mut taken, &mut retained[slot]);
            assert(taken == slots[slot as int]);
            assert(forall|k: int|
                0 <= k < n && k != slot ==> #[trigger] retained@[k] == before[k]);
            if let Some(r) = taken {
                out.push(r.entry);
            }
            i = i + 1;
        }
        proof {
            let kept = prepared_views(out@);
            assert forall|k: int| 0 <= k < n implies 0 <= #[trigger] at[k] < all.len() && all[at[k]]
                == slot_entry(slots, sorted[k].1 as int) by {
                assert(all.contains(slot_entry(slots, sorted[k].1 as int)));
            }
            assert forall|x: int, y: int| 0 <= x < y < n implies #[trigger] at[x]
                < #[trigger] at[y] by {
                let a = all[at[x]];
                let b = all[at[y]];
                assert(a == slot_entry(slots, sorted[x].1 as int));
                assert(b == slot_entry(slots, sorted[y].1 as int));
                assert(a.sequence < b.sequence);
                if at[y] < at[x] {
                    assert(all[at[y]].sequence < all[at[x]].sequence);
                }
            }
            assert forall|x: int, y: int|
                0 <= x < all.len() && 0 <= y < n && !at.contains(x) implies ranks_below(
                #[trigger] all[x],
                all[#[trigger] at[y]],
            ) by {
                if kept_in(slots, all[x]) {
                    let s = choose|s: int| 0 <= s < slots.len() && #[trigger] slot_entry(slots, s) == all[x];
                    let k = choose|k: int| 0 <= k < n && (#[trigger] sorted[k]).1 == s;
                    assert(slot_listed(sorted, s));
                    assert(all[at[k]] == all[x]);
                    if at[k] < x {
                        assert(all[at[k]].sequence < all[x].sequence);
                    } else if x < at[k] {
                        assert(all[x].sequence < all[at[k]].sequence);
                    }
                    assert(at.contains(x));
                }
                assert(ranks_below(all[x], slot_entry(slots, sorted[y].1 as int)));
            }
            assert(selects(all, self.max_entries, at, kept));
            assert forall|k: int| 0 <= k < out@.len() implies (#[trigger] out@[k]).key@.wf() by {
                assert(all[at[k]].entry.key.wf());
            }
        }
        out
    }
}

/// Whether a list of pairs holds slot `s`.
spec fn slot_listed(order: Seq<(u64, usize)>, s: int) -> bool {
    exists|k: int| 0 <= k < order.len() && (#[trigger] order[k]).1 == s
}

proof fn lemma_sorted_slots(
    slots: Seq<Option<RankedPreparedEntry>>,
    all: Seq<RankedView>,
    heap: Set<RankItem>,
    unsorted: Seq<(u64, usize)>,
    sorted: Seq<(u64, usize)>,
)
    requires
        slots_ok(slots, all, heap),
        slots.len() <= usize::MAX,
        unsorted.len() == slots.len(),
        forall|i: int|
            0 <= i < unsorted.len() ==> #[trigger] unsorted[i] == (
                slot_entry(slots, i).sequence as u64,
                i as usize,
            ),
        sorted.to_multiset() == unsorted.to_multiset(),
        forall|i: int, j: int|
            0 <= i <= j < sorted.len() ==> crate::ttl_cache::pair_le(
                #[trigger] sorted[i],
                #[trigger] sorted[j],
            ),
    ensures
        sorted.len() == slots.len(),
        forall|k: int|
            0 <= k < sorted.len() ==> (#[trigger] sorted[k]).1 < slots.len() && sorted[k].0
                == slot_entry(slots, sorted[k].1 as int).sequence,
        forall|x: int, y: int|
            0 <= x < y < sorted.len() ==> (#[trigger] sorted[x]).1 != (#[trigger] sorted[y]).1
                && slot_entry(slots, sorted[x].1 as int).sequence < slot_entry(
                slots,
                sorted[y].1 as int,
            ).sequence,
        forall|s: int| 0 <= s < slots.len() ==> #[trigger] slot_listed(sorted, s),
{
    assert(unsorted.no_duplicates()) by {
        assert forall|a: int, b: int|
            0 <= a < unsorted.len() && 0 <= b < unsorted.len() && a != b implies unsorted[a]
            != unsorted[b] by {
            assert(unsorted[a].1 == a && unsorted[b].1 == b);
        }
    }
    unsorted.lemma_multiset_has_no_duplicates();
    sorted.lemma_multiset_has_no_duplicates_conv();
    sorted.to_multiset_ensures();
    unsorted.to_multiset_ensures();
    assert forall|k: int| 0 <= k < sorted.len() implies (#[trigger] sorted[k]).1 < slots.len()
        && sorted[k].0 == slot_entry(slots, sorted[k].1 as int).sequence by {
        assert(sorted.contains(sorted[k]));
        assert(unsorted.to_multiset().count(sorted[k]) > 0);
        assert(unsorted.contains(sorted[k]));
        let m = choose|m: int| 0 <= m < unsorted.len() && unsorted[m] == sorted[k];
        assert(unsorted[m] == (slot_entry(slots, m).sequence as u64, m as usize));
    }
    assert forall|x: int, y: int| 0 <= x < y < sorted.len() implies (#[trigger] sorted[x]).1 != (
    #[trigger] sorted[y]).1 && slot_entry(slots, sorted[x].1 as int).sequence < slot_entry(
        slots,
        sorted[y].1 as int,
    ).sequence by {
        let a = sorted[x].1 as int;
        let b = sorted[y].1 as int;
        if a == b {
            assert(sorted[x] == sorted[y]);
        }
        assert(crate::ttl_cache::pair_le(sorted[x], sorted[y]));
        if a < b {
            assert(slot_entry(slots, a).sequence != slot_entry(slots, b).sequence);
        } else {
            assert(slot_entry(slots, b).sequence != slot_entry(slots, a).sequence);
        }
    }
    assert forall|s: int| 0 <= s < slots.len() implies #[trigger] slot_listed(sorted, s) by {
        assert(unsorted.contains(unsorted[s]));
        assert(sorted.to_multiset().count(unsorted[s]) > 0);
        assert(sorted.contains(unsorted[s]));
        let k = choose|k: int| 0 <= k < sorted.len() && sorted[k] == unsorted[s];
        assert(sorted[k].1 == s);
    }
}

} // verus!
