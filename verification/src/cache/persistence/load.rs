//! Loading a dump into a cache.

use vstd::prelude::*;

use crate::cache::dump_wire::{persisted_views, HeaderTuple, PersistedCacheEntry, PersistedView};
use crate::cache::ecs_index::{hints_with, EcsIndexView, EcsLookupIndex, Hint};
use crate::cache::item::{since, CacheItemView};
use crate::cache::key::CacheKeyView;
use crate::cache::persistence::collect::{
    collected, prepared_views, selected, CollectorView, LoadContext, PreparedCacheEntry,
    PreparedEntryCollector, PreparedView, RankedView,
};
use crate::cache::persistence::decode::{
    decode_v3_header, dump_version, frame_at, framed_header, legacy_dump, next_frame,
    parse_dump_prefix, parse_legacy_persisted_dump_with_limit, PersistedCacheDump,
};
use crate::cache::persistence::error::{
    CACHE_DUMP_VERSION, DumpError, DumpErrorView, LEGACY_CACHE_DUMP_VERSION,
    MAX_PERSISTED_CACHE_DUMP_BYTES, PREVIOUS_CACHE_DUMP_VERSION,
};
use crate::cache::policy::CacheLoadPolicy;
use crate::cache::store::{entries_of, slot_view, CacheMap};
use crate::ttl_cache::{Slot, TtlCache};

verus! {

/// Adding stored entries one after the other.
pub open spec fn collected_all(c: CollectorView, entries: Seq<PersistedView>) -> Result<
    CollectorView,
    DumpErrorView,
>
    decreases entries.len(),
{
    if entries.len() == 0 {
        Ok(c)
    } else {
        match collected(c, entries[0]) {
            Err(e) => Err(e),
            Ok(d) => collected_all(d, entries.skip(1)),
        }
    }
}

/// Reading `count` frames from `pos` to the end and adding each entry as it is read.
pub open spec fn collected_frames(
    c: CollectorView,
    data: Seq<u8>,
    pos: int,
    count: nat,
    limit: usize,
) -> Result<CollectorView, DumpErrorView>
    decreases count,
{
    if count == 0 {
        if pos == data.len() {
            Ok(c)
        } else {
            Err(DumpErrorView::TrailingBytes)
        }
    } else {
        match frame_at(data, pos, limit) {
            Err(e) => Err(e),
            Ok((entry, next)) => match collected(c, entry) {
                Err(e) => Err(e),
                Ok(d) => collected_frames(d, data, next, (count - 1) as nat, limit),
            },
        }
    }
}

/// A collector before the first entry.
pub open spec fn empty_collector(context: LoadContext) -> CollectorView {
    CollectorView { context, seen: Set::empty(), accepted: Seq::empty(), pushed: 0 }
}

/// What a load depends on besides the dump.
pub struct LoadSetting {
    pub ecs_in_key: bool,
    pub policy: CacheLoadPolicy,
    pub now_elapsed_ms: u64,
    pub now_unix_ms: u64,
}

/// What the load of a dump with this version and time depends on.
pub open spec fn load_context(s: LoadSetting, version: u32, dumped_at: u64) -> LoadContext {
    LoadContext {
        ecs_in_key: s.ecs_in_key,
        policy: s.policy,
        dump_version: version,
        now_elapsed_ms: s.now_elapsed_ms,
        downtime_ms: since(s.now_unix_ms, dumped_at),
    }
}

/// The entries that could be loaded from a dump of any version.
pub open spec fn loadable(data: Seq<u8>, limit: usize, s: LoadSetting) -> Result<
    Seq<RankedView>,
    DumpErrorView,
> {
    let all = match dump_version(data) {
        Err(e) => Err(e),
        Ok(v) => if v == LEGACY_CACHE_DUMP_VERSION || v == PREVIOUS_CACHE_DUMP_VERSION {
            match legacy_dump(data, limit) {
                Err(e) => Err(e),
                Ok(d) => collected_all(empty_collector(load_context(s, d.1, d.2)), d.3),
            }
        } else if v == CACHE_DUMP_VERSION {
            match framed_header(data) {
                Err(e) => Err(e),
                Ok(h) => if h.3 > usize::MAX {
                    Err(DumpErrorView::EntryCountTooLarge)
                } else {
                    collected_frames(
                        empty_collector(load_context(s, CACHE_DUMP_VERSION, h.2)),
                        data,
                        28,
                        h.3 as nat,
                        limit,
                    )
                },
            }
        } else {
            Err(DumpErrorView::UnsupportedVersion(v))
        },
    };
    match all {
        Ok(c) => Ok(c.accepted),
        Err(e) => Err(e),
    }
}

/// What of a collector's result is returned.
pub open spec fn accepted_of(r: Result<CollectorView, DumpErrorView>) -> Result<
    Seq<RankedView>,
    DumpErrorView,
> {
    match r {
        Ok(c) => Ok(c.accepted),
        Err(e) => Err(e),
    }
}

/// Whether the prepared entries are those to select from `all`, or the error is that.
pub open spec fn prepared_is(
    r: Result<Vec<PreparedCacheEntry>, DumpError>,
    all: Result<Seq<RankedView>, DumpErrorView>,
    max_entries: usize,
) -> bool {
    match r {
        Ok(v) => {
            &&& all is Ok
            &&& selected(all->Ok_0, max_entries, prepared_views(v@))
            &&& forall|i: int| 0 <= i < v@.len() ==> (#[trigger] v@[i]).key@.wf()
        },
        Err(e) => all == Err::<Seq<RankedView>, DumpErrorView>(e@),
    }
}

/// Prepares the entries of a dump that is one value.
pub fn prepare_legacy_persisted_entries_bounded(
    dump: PersistedCacheDump,
    ecs_in_key: bool,
    policy: CacheLoadPolicy,
    max_entries: usize,
    now_elapsed_ms: u64,
    now_unix_ms: u64,
) -> (r: Result<Vec<PreparedCacheEntry>, DumpError>)
    ensures
        prepared_is(
            r,
            accepted_of(
                collected_all(
                    empty_collector(
                        load_context(
                            (LoadSetting { ecs_in_key, policy, now_elapsed_ms, now_unix_ms }),
                            dump.version,
                            dump.dumped_at_unix_ms,
                        ),
                    ),
                    persisted_views(dump.entries@),
                ),
            ),
            max_entries,
        ),
{
    let mut rest = dump.entries;
    let ghost all = persisted_views(rest@);
    let n: usize = rest.len();
    let mut collector = PreparedEntryCollector::new(
        ecs_in_key,
        policy,
        dump.version,
        dump.dumped_at_unix_ms,
        max_entries,
        n,
        now_elapsed_ms,
        now_unix_ms,
    );
    let ghost goal = collected_all(collector@, all);
    let mut back: Vec<PersistedCacheEntry> = Vec::new();
    while rest.len() > 0
        invariant
            rest@.len() + back@.len() == all.len(),
            persisted_views(rest@) == all.take(rest@.len() as int),
            forall|i: int|
                0 <= i < back@.len() ==> (#[trigger] back@[i])@ == all[all.len() - 1 - i],
        decreases rest@.len(),
    {
        let ghost before = rest@;
        if let Some(e) = rest.pop() {
            proof {
                assert(persisted_views(before)[before.len() - 1] == e@);
                assert(persisted_views(rest@) =~= all.take(rest@.len() as int));
            }
            back.push(e);
        }
    }
    assert(all.skip(0) =~= all);
    while back.len() > 0
        invariant
            all.len() == n,
            back@.len() <= n,
            collector.wf(),
            collector.limit() == max_entries,
            collector@.pushed == n - back@.len(),
            forall|i: int|
                0 <= i < back@.len() ==> (#[trigger] back@[i])@ == all[all.len() - 1 - i],
            goal == collected_all(collector@, all.skip(n - back@.len())),
            goal == collected_all(
                empty_collector(
                    load_context(
                        (LoadSetting { ecs_in_key, policy, now_elapsed_ms, now_unix_ms }),
                        dump.version,
                        dump.dumped_at_unix_ms,
                    ),
                ),
                persisted_views(dump.entries@),
            ),
        decreases back@.len(),
    {
        let ghost k = n - back@.len();
        let ghost before = back@;
        if let Some(e) = back.pop() {
            proof {
                assert(before[before.len() - 1]@ == all[k]);
                assert(all.skip(k)[0] == all[k]);
                assert(all.skip(k).skip(1) =~= all.skip(k + 1));
            }
            if let Err(problem) = collector.push(e) {
                return Err(problem);
            }
        }
    }
    Ok(collector.finish())
}

/// Prepares the entries of a current dump, reading one at a time.
pub fn prepare_v3_persisted_entries_bounded<const LIMIT: usize>(
    data: &[u8],
    ecs_in_key: bool,
    policy: CacheLoadPolicy,
    max_entries: usize,
    now_elapsed_ms: u64,
    now_unix_ms: u64,
) -> (r: Result<Vec<PreparedCacheEntry>, DumpError>)
    ensures
        prepared_is(
            r,
            match framed_header(data@) {
                Err(e) => Err(e),
                Ok(h) => if h.3 > usize::MAX {
                    Err(DumpErrorView::EntryCountTooLarge)
                } else {
                    accepted_of(
                        collected_frames(
                            empty_collector(
                                load_context(
                                    (LoadSetting {
                                        ecs_in_key,
                                        policy,
                                        now_elapsed_ms,
                                        now_unix_ms,
                                    }),
                                    CACHE_DUMP_VERSION,
                                    h.2,
                                ),
                            ),
                            data@,
                            28,
                            h.3 as nat,
                            LIMIT,
                        ),
                    )
                },
            },
            max_entries,
        ),
{
    let header = match decode_v3_header(data) {
        Ok(h) => h,
        Err(e) => return Err(e),
    };
    if header.3 > usize::MAX as u64 {
        return Err(DumpError::EntryCountTooLarge);
    }
    let count: usize = header.3 as usize;
    let mut collector = PreparedEntryCollector::new(
        ecs_in_key,
        policy,
        CACHE_DUMP_VERSION,
        header.2,
        max_entries,
        count,
        now_elapsed_ms,
        now_unix_ms,
    );
    let ghost goal = collected_frames(collector@, data@, 28, count as nat, LIMIT);
    let ghost start = collector@;
    let mut pos: usize = 28;
    let mut i: usize = 0;
    while i < count
        invariant
            i <= count,
            pos <= data@.len(),
            header.3 == count,
            framed_header(data@) == Ok::<HeaderTuple, DumpErrorView>(header),
            start == empty_collector(
                load_context(
                    (LoadSetting { ecs_in_key, policy, now_elapsed_ms, now_unix_ms }),
                    CACHE_DUMP_VERSION,
                    header.2,
                ),
            ),
            goal == collected_frames(start, data@, 28, count as nat, LIMIT),
            collector.wf(),
            collector.limit() == max_entries,
            collector@.pushed == i,
            goal == collected_frames(
                collector@,
                data@,
                pos as int,
                (count - i) as nat,
                LIMIT,
            ),
        decreases count - i,
    {
        match next_frame::<LIMIT>(data, pos) {
            Err(e) => {
                return Err(e);
            },
            Ok((entry, next)) => {
                if let Err(problem) = collector.push(entry) {
                    return Err(problem);
                }
                pos = next;
            },
        }
        i = i + 1;
    }
    if pos != data.len() {
        return Err(DumpError::TrailingBytes);
    }
    Ok(collector.finish())
}

/// Prepares the entries of a dump of any version. Nothing is loaded from a dump with
/// a problem in it.
fn prepare_entries<const LIMIT: usize>(
    data: &[u8],
    ecs_in_key: bool,
    policy: CacheLoadPolicy,
    max_entries: usize,
    now_elapsed_ms: u64,
    now_unix_ms: u64,
) -> (r: Result<Vec<PreparedCacheEntry>, DumpError>)
    requires
        LIMIT <= isize::MAX,
    ensures
        prepared_is(
            r,
            loadable(
                data@,
                LIMIT,
                (LoadSetting { ecs_in_key, policy, now_elapsed_ms, now_unix_ms }),
            ),
            max_entries,
        ),
{
    let version: u32 = match parse_dump_prefix(data) {
        Ok(v) => v,
        Err(e) => return Err(e),
    };
    if version == LEGACY_CACHE_DUMP_VERSION || version == PREVIOUS_CACHE_DUMP_VERSION {
        match parse_legacy_persisted_dump_with_limit::<LIMIT>(data) {
            Err(e) => Err(e),
            Ok(dump) => prepare_legacy_persisted_entries_bounded(
                dump,
                ecs_in_key,
                policy,
                max_entries,
                now_elapsed_ms,
                now_unix_ms,
            ),
        }
    } else if version == CACHE_DUMP_VERSION {
        prepare_v3_persisted_entries_bounded::<LIMIT>(
            data,
            ecs_in_key,
            policy,
            max_entries,
            now_elapsed_ms,
            now_unix_ms,
        )
    } else {
        Err(DumpError::UnsupportedVersion(version))
    }
}

/// Entries, the generation of the next one and the number loaded so far.
pub struct LoadedView {
    pub entries: Map<CacheKeyView, Slot<CacheItemView>>,
    pub next_generation: u64,
    pub loaded: nat,
}

/// Putting one prepared entry into the cache, unless the cache holds a newer one.
pub open spec fn load_one(s: LoadedView, p: PreparedView) -> LoadedView {
    let wanted = if s.entries.dom().contains(p.key) {
        s.entries[p.key].cache_time_ms <= p.cache_time_ms
    } else {
        s.entries.dom().len() < usize::MAX
    };
    if wanted {
        LoadedView {
            entries: s.entries.insert(
                p.key,
                (Slot {
                    value: p.value,
                    cache_time_ms: p.cache_time_ms,
                    expire_at_ms: p.expire_at_ms,
                    last_access_ms: p.last_access_ms,
                    generation: s.next_generation,
                }),
            ),
            next_generation: s.next_generation.wrapping_add(1),
            loaded: s.loaded + 1,
        }
    } else {
        s
    }
}

/// Putting prepared entries into the cache.
pub open spec fn load_all(s: LoadedView, prepared: Seq<PreparedView>) -> LoadedView
    decreases prepared.len(),
{
    if prepared.len() == 0 {
        s
    } else {
        load_one(load_all(s, prepared.drop_last()), prepared.last())
    }
}

/// The hints with those of prepared entries.
pub open spec fn hints_with_all(hints: Set<Hint>, prepared: Seq<PreparedView>) -> Set<Hint>
    decreases prepared.len(),
{
    if prepared.len() == 0 {
        hints
    } else {
        hints_with(hints_with_all(hints, prepared.drop_last()), prepared.last().key)
    }
}

/// What a load did to the entries and to the index.
pub open spec fn load_outcome(
    before: (Map<CacheKeyView, Slot<CacheItemView>>, u64, EcsIndexView),
    after: (Map<CacheKeyView, Slot<CacheItemView>>, u64, EcsIndexView),
    replace: bool,
    prepared: Seq<PreparedView>,
    loaded: usize,
) -> bool {
    let start = LoadedView {
        entries: if replace {
            Map::empty()
        } else {
            before.0
        },
        next_generation: before.1,
        loaded: 0,
    };
    let end = load_all(start, prepared);
    &&& after.0 == end.entries
    &&& after.1 == end.next_generation
    &&& loaded == end.loaded
    &&& after.2.hints == hints_with_all(before.2.hints, prepared)
    &&& after.2.stale_revision == before.2.stale_revision
    &&& after.2.rebuilt_revision == before.2.rebuilt_revision
    &&& after.2.rebuild is Some <==> before.2.rebuild is Some
}

/// Puts prepared entries into a cache, each after its hint has gone into the index.
/// Returns the number of entries that the cache took.
fn put_all(
    cache_map: &mut CacheMap,
    ecs_lookup_index: &mut EcsLookupIndex,
    entries: Vec<PreparedCacheEntry>,
) -> (loaded: usize)
    requires
        old(cache_map).wf(),
        old(ecs_lookup_index).wf(),
    ensures
        final(cache_map).wf(),
        final(ecs_lookup_index).wf(),
        load_outcome(
            (entries_of(old(cache_map)@), old(cache_map).next_gen(), old(ecs_lookup_index)@),
            (entries_of(final(cache_map)@), final(cache_map).next_gen(), final(ecs_lookup_index)@),
            false,
            prepared_views(entries@),
            loaded,
        ),
{
    let ghost index_before = ecs_lookup_index@;
    let ghost all = prepared_views(entries@);
    let ghost start = LoadedView {
        entries: entries_of(cache_map@),
        next_generation: cache_map.next_gen(),
        loaded: 0,
    };
    let n: usize = entries.len();
    let mut prepared = entries;
    let mut back: Vec<PreparedCacheEntry> = Vec::new();
    while prepared.len() > 0
        invariant
            prepared@.len() + back@.len() == all.len(),
            prepared_views(prepared@) == all.take(prepared@.len() as int),
            forall|i: int|
                0 <= i < back@.len() ==> (#[trigger] back@[i])@ == all[all.len() - 1 - i],
        decreases prepared@.len(),
    {
        let ghost rest = prepared@;
        if let Some(p) = prepared.pop() {
            proof {
                assert(prepared_views(rest)[rest.len() - 1] == p@);
                assert(prepared_views(prepared@) =~= all.take(prepared@.len() as int));
            }
            back.push(p);
        }
    }
    let mut loaded: usize = 0;
    assert(all.take(0) =~= Seq::empty());
    while back.len() > 0
        invariant
            n == all.len(),
            back@.len() <= n,
            loaded <= n - back@.len(),
            cache_map.wf(),
            ecs_lookup_index.wf(),
            forall|i: int|
                0 <= i < back@.len() ==> (#[trigger] back@[i])@ == all[all.len() - 1 - i],
            ({
                let s = load_all(start, all.take(n - back@.len()));
                &&& entries_of(cache_map@) == s.entries
                &&& cache_map.next_gen() == s.next_generation
                &&& loaded == s.loaded
            }),
            ecs_lookup_index@.hints == hints_with_all(index_before.hints, all.take(n - back@.len())),
            ecs_lookup_index@.stale_revision == index_before.stale_revision,
            ecs_lookup_index@.rebuilt_revision == index_before.rebuilt_revision,
            ecs_lookup_index@.rebuild is Some <==> index_before.rebuild is Some,
        decreases back@.len(),
    {
        let ghost k = n - back@.len();
        let ghost last = back@;
        if let Some(p) = back.pop() {
            let ghost m = cache_map@;
            let ghost generation = cache_map.next_gen();
            proof {
                assert(last[last.len() - 1]@ == all[k]);
                let next = all.take(k + 1);
                assert(next.drop_last() =~= all.take(k));
                assert(next.last() == p@);
                assert(m.dom() =~= entries_of(m).dom());
                let slot = Slot {
                    value: p.value,
                    cache_time_ms: p.cache_time_ms,
                    expire_at_ms: p.expire_at_ms,
                    last_access_ms: p.last_access_ms,
                    generation,
                };
                assert(entries_of(m.insert(p.key@, slot)) =~= entries_of(m).insert(
                    p.key@,
                    slot_view(slot),
                ));
            }
            ecs_lookup_index.observe_cache_key(&p.key);
            let inserted = cache_map.insert_if_not_newer(
                p.key,
                p.value,
                p.cache_time_ms,
                p.expire_at_ms,
                p.last_access_ms,
            );
            if inserted {
                loaded = loaded + 1;
            }
        }
    }
    assert(all.take(n as int) =~= all);
    loaded
}

/// Loads a dump into a cache and its index, all of it or nothing. At most
/// `max_entries` are loaded, those that rank highest.
pub fn load_cache_from_bytes_with_index_bounded<const LIMIT: usize>(
    cache_map: &mut CacheMap,
    data: &[u8],
    ecs_in_key: bool,
    policy: CacheLoadPolicy,
    replace: bool,
    ecs_lookup_index: &mut EcsLookupIndex,
    max_entries: usize,
    now_elapsed_ms: u64,
    now_unix_ms: u64,
) -> (r: Result<usize, DumpError>)
    requires
        old(cache_map).wf(),
        old(ecs_lookup_index).wf(),
        LIMIT <= isize::MAX,
    ensures
        final(cache_map).wf(),
        final(ecs_lookup_index).wf(),
        ({
            let all = loadable(
                data@,
                LIMIT,
                (LoadSetting { ecs_in_key, policy, now_elapsed_ms, now_unix_ms }),
            );
            match r {
                Ok(n) => {
                    &&& all is Ok
                    &&& exists|prepared: Seq<PreparedView>| #[trigger]
                        selected(all->Ok_0, max_entries, prepared) && load_outcome(
                            (
                                entries_of(old(cache_map)@),
                                old(cache_map).next_gen(),
                                old(ecs_lookup_index)@,
                            ),
                            (
                                entries_of(final(cache_map)@),
                                final(cache_map).next_gen(),
                                final(ecs_lookup_index)@,
                            ),
                            replace,
                            prepared,
                            n,
                        )
                },
                Err(e) => {
                    &&& all == Err::<Seq<RankedView>, DumpErrorView>(e@)
                    &&& final(cache_map)@ == old(cache_map)@
                    &&& final(cache_map).next_gen() == old(cache_map).next_gen()
                    &&& final(ecs_lookup_index)@ == old(ecs_lookup_index)@
                },
            }
        }),
{
    let ghost before = cache_map@;
    let ghost index_before = ecs_lookup_index@;
    let prepared = match prepare_entries::<LIMIT>(
        data,
        ecs_in_key,
        policy,
        max_entries,
        now_elapsed_ms,
        now_unix_ms,
    ) {
        Ok(p) => p,
        Err(e) => return Err(e),
    };
    let ghost all = prepared_views(prepared@);
    if replace {
        cache_map.clear();
        assert(entries_of(cache_map@) =~= Map::empty());
    }
    let loaded: usize = put_all(cache_map, ecs_lookup_index, prepared);
    assert(load_outcome(
        (entries_of(before), old(cache_map).next_gen(), index_before),
        (entries_of(cache_map@), cache_map.next_gen(), ecs_lookup_index@),
        replace,
        all,
        loaded,
    ));
    Ok(loaded)
}

/// Loads a dump with the limit of files, without an index and without a bound on the
/// number of entries.
pub fn load_cache_from_bytes(
    cache_map: &mut CacheMap,
    data: &[u8],
    ecs_in_key: bool,
    policy: CacheLoadPolicy,
    replace: bool,
    now_elapsed_ms: u64,
    now_unix_ms: u64,
) -> (r: Result<usize, DumpError>)
    requires
        old(cache_map).wf(),
    ensures
        final(cache_map).wf(),
        ({
            let all = loadable(
                data@,
                MAX_PERSISTED_CACHE_DUMP_BYTES,
                (LoadSetting { ecs_in_key, policy, now_elapsed_ms, now_unix_ms }),
            );
            match r {
                Ok(n) => {
                    &&& all is Ok
                    &&& exists|prepared: Seq<PreparedView>| #[trigger]
                        selected(all->Ok_0, usize::MAX, prepared) && ({
                            let start = LoadedView {
                                entries: if replace {
                                    Map::empty()
                                } else {
                                    entries_of(old(cache_map)@)
                                },
                                next_generation: old(cache_map).next_gen(),
                                loaded: 0,
                            };
                            let end = load_all(start, prepared);
                            entries_of(final(cache_map)@) == end.entries && n == end.loaded
                        })
                },
                Err(e) => {
                    &&& all == Err::<Seq<RankedView>, DumpErrorView>(e@)
                    &&& final(cache_map)@ == old(cache_map)@
                },
            }
        }),
{
    let mut index = EcsLookupIndex::new();
    load_cache_from_bytes_with_index_bounded::<MAX_PERSISTED_CACHE_DUMP_BYTES>(
        cache_map,
        data,
        ecs_in_key,
        policy,
        replace,
        &mut index,
        usize::MAX,
        now_elapsed_ms,
        now_unix_ms,
    )
}

/// Whether a cache of its own holds what prepared entries give.
pub open spec fn staged_from(
    index: EcsIndexView,
    after: (Map<CacheKeyView, Slot<CacheItemView>>, u64, EcsIndexView),
    prepared: Seq<PreparedView>,
) -> bool {
    exists|n: usize| #[trigger] load_outcome((Map::empty(), 1u64, index), after, false, prepared, n)
}

/// Loads a dump into a cache of its own, to be published later. The index gets the
/// hints of the new entries.
pub fn stage_cache_from_bytes<const LIMIT: usize>(
    data: &[u8],
    ecs_in_key: bool,
    policy: CacheLoadPolicy,
    ecs_lookup_index: &mut EcsLookupIndex,
    capacity: usize,
    max_entries: usize,
    now_elapsed_ms: u64,
    now_unix_ms: u64,
) -> (r: Result<CacheMap, DumpError>)
    requires
        old(ecs_lookup_index).wf(),
        LIMIT <= isize::MAX,
    ensures
        final(ecs_lookup_index).wf(),
        ({
            let all = loadable(
                data@,
                LIMIT,
                (LoadSetting { ecs_in_key, policy, now_elapsed_ms, now_unix_ms }),
            );
            match r {
                Ok(m) => {
                    &&& m.wf()
                    &&& all is Ok
                    &&& exists|prepared: Seq<PreparedView>| #[trigger]
                        selected(all->Ok_0, max_entries, prepared) && staged_from(
                            old(ecs_lookup_index)@,
                            (entries_of(m@), m.next_gen(), final(ecs_lookup_index)@),
                            prepared,
                        )
                },
                Err(e) => {
                    &&& all == Err::<Seq<RankedView>, DumpErrorView>(e@)
                    &&& final(ecs_lookup_index)@ == old(ecs_lookup_index)@
                },
            }
        }),
{
    let ghost index_before = ecs_lookup_index@;
    let ghost all = loadable(
        data@,
        LIMIT,
        (LoadSetting { ecs_in_key, policy, now_elapsed_ms, now_unix_ms }),
    );
    let mut staged: CacheMap = TtlCache::with_capacity(capacity);
    assert(entries_of(staged@) =~= Map::empty());
    match load_cache_from_bytes_with_index_bounded::<LIMIT>(
        &mut staged,
        data,
        ecs_in_key,
        policy,
        false,
        ecs_lookup_index,
        max_entries,
        now_elapsed_ms,
        now_unix_ms,
    ) {
        Ok(n) => {
            proof {
                let after = (entries_of(staged@), staged.next_gen(), ecs_lookup_index@);
                let prepared = choose|prepared: Seq<PreparedView>| #[trigger]
                    selected(all->Ok_0, max_entries, prepared) && load_outcome(
                        (Map::empty(), 1u64, index_before),
                        after,
                        false,
                        prepared,
                        n,
                    );
                assert(staged_from(index_before, after, prepared));
            }
            Ok(staged)
        },
        Err(e) => Err(e),
    }
}

} // verus!
