//! What holds of the entries that a dump saves and of those that a load brings back.

use vstd::prelude::*;

use crate::cache::item::CacheItemView;
use crate::cache::key::{canonical_domain, CacheKeyView};
use crate::cache::persistence::collect::{
    loaded_entry, prepared_entry, ranks_below, selects, stored_key, LoadContext, PreparedView,
    RankedView,
};
use crate::cache::persistence::decode::{
    dump_version, frame_at, framed_header, legacy_dump, parsed_dump, the_legacy, u64_at,
};
use crate::cache::persistence::dump::{persisted_all, persisted_entry};
use crate::cache::dump_wire::{entry_fits, first_over, is_legacy, LegacyView, PersistedView};
use crate::cache::ecs_index::{gives_hint, hint_of, EcsIndexView, Hint};
use crate::cache::persistence::error::{
    prevents_writing, DumpErrorView, CACHE_DUMP_MAGIC, CACHE_DUMP_VERSION,
    LEGACY_CACHE_DUMP_VERSION, MAX_PERSISTED_CACHE_DUMP_BYTES, PREVIOUS_CACHE_DUMP_VERSION,
};
use crate::cache::persistence::load::{
    hints_with_all, load_all, load_context, load_one, load_outcome, LoadSetting, LoadedView,
};
use crate::cache::policy::cache_disposition;
use crate::cache::store::{replaced_by, servable, StoreView};
use crate::proto::message::MessageView;
use crate::proto::response::ResponseDisposition;
use crate::proto::wire::{encodable, encode_message, parse_message};
use crate::ttl_cache::{pruned, Slot};
use vstd::utf8::encode_utf8;

verus! {

/// The mark of a dump, the versions that there have been, and the most octets that a dump has.
pub proof fn law_marks_of_dumps()
    ensures
        CACHE_DUMP_MAGIC == 0x3145_4843_4143_5344,
        LEGACY_CACHE_DUMP_VERSION == 1,
        PREVIOUS_CACHE_DUMP_VERSION == 2,
        CACHE_DUMP_VERSION == 3,
        MAX_PERSISTED_CACHE_DUMP_BYTES == 64 * 1024 * 1024,
{
}

/// A dump without its mark, or cut before its version, is refused.
pub proof fn law_other_octets_are_refused(data: Seq<u8>)
    ensures
        data.len() < 12 ==> dump_version(data) is Err,
        data.len() < 28 ==> framed_header(data) is Err,
        dump_version(data) is Ok && dump_version(data)->Ok_0 != 3 ==> framed_header(data) is Err,
        dump_version(data) is Err ==> framed_header(data) is Err,
{
}

/// An entry is saved exactly where it has not expired, may be served, and can be written. It
/// is saved with its key and response, its age, the time since its last use, and the time
/// that it has left.
pub proof fn law_saved_entry(k: CacheKeyView, slot: Slot<CacheItemView>, now: u64)
    requires
        k.ecs_scope is None,
        slot.cache_time_ms <= now,
        slot.last_access_ms <= now,
    ensures
        persisted_entry(k, slot, now) is Some <==> now < slot.expire_at_ms && servable(
            slot.value,
            k,
        ) && encodable(slot.value.resp),
        persisted_entry(k, slot, now) matches Some(e) ==> {
            &&& e.domain == k.domain
            &&& e.record_type == k.record_type.number()
            &&& e.dns_class == k.dns_class.number()
            &&& e.do_bit == k.do_bit
            &&& e.cd_bit == k.cd_bit
            &&& e.ecs_family is None && e.ecs_source_prefix is None && e.ecs_scope_prefix is None
                && e.ecs_network is None
            &&& e.resp_bytes == encode_message(slot.value.resp)
            &&& slot.value.cache_age_offset_ms + (now - slot.cache_time_ms) <= u64::MAX
                ==> e.cache_age_ms == slot.value.cache_age_offset_ms + (now - slot.cache_time_ms)
            &&& e.last_access_age_ms == now - slot.last_access_ms
            &&& e.ttl == slot.value.ttl
            &&& e.remaining_ttl_ms == slot.expire_at_ms - now
        },
{
}

/// The subnet of a key is saved whole: its family, both prefixes and its octets.
pub proof fn law_saved_subnet(k: CacheKeyView, slot: Slot<CacheItemView>, now: u64)
    requires
        k.ecs_scope is Some,
    ensures
        persisted_entry(k, slot, now) matches Some(e) ==> {
            &&& e.ecs_family == Some(k.ecs_scope->0.family)
            &&& e.ecs_source_prefix == Some(k.ecs_scope->0.source_prefix)
            &&& e.ecs_scope_prefix == Some(k.ecs_scope->0.scope_prefix)
            &&& e.ecs_network == Some(k.ecs_scope->0.network.take(
                k.ecs_scope->0.network_len as int,
            ))
        },
{
}

/// The entries that are saved are those of all keys, each in its turn.
pub proof fn law_saved_entries(
    entries: Map<CacheKeyView, Slot<CacheItemView>>,
    keys: Seq<CacheKeyView>,
    k: CacheKeyView,
    now: u64,
)
    ensures
        persisted_all(entries, Seq::empty(), now).len() == 0,
        persisted_all(entries, keys.push(k), now) == (match persisted_entry(k, entries[k], now) {
            Some(e) => persisted_all(entries, keys, now).push(e),
            None => persisted_all(entries, keys, now),
        }),
{
    assert(keys.push(k).drop_last() =~= keys);
}

/// The time for which a cache was down is what the clock on the wall says, and none where
/// that clock has gone back.
pub proof fn law_downtime(s: LoadSetting, version: u32, dumped_at: u64)
    ensures
        ({
            let c = load_context(s, version, dumped_at);
            &&& s.now_unix_ms >= dumped_at ==> c.downtime_ms == s.now_unix_ms - dumped_at
            &&& s.now_unix_ms < dumped_at ==> c.downtime_ms == 0
            &&& c.dump_version == version
            &&& c.ecs_in_key == s.ecs_in_key
            &&& c.policy == s.policy
            &&& c.now_elapsed_ms == s.now_elapsed_ms
        }),
{
}

/// A saved key without a subnet is the key that was saved. One with a subnet is left out where
/// subnets are not part of keys, and one with half a subnet is refused.
pub proof fn law_saved_key(e: PersistedView, ecs_in_key: bool)
    ensures
        canonical_domain(e.domain) is None ==> stored_key(e, ecs_in_key) is Err,
        stored_key(e, ecs_in_key) matches Ok(Some(k)) ==> {
            &&& canonical_domain(e.domain) == Some(k.domain)
            &&& k.record_type.number() == e.record_type
            &&& k.dns_class.number() == e.dns_class
            &&& k.do_bit == e.do_bit
            &&& k.cd_bit == e.cd_bit
            &&& k.ecs_scope is Some <==> e.ecs_family is Some
            &&& k.ecs_scope matches Some(s) ==> ecs_in_key && e.ecs_family == Some(s.family)
                && e.ecs_source_prefix == Some(s.source_prefix) && e.ecs_scope_prefix == Some(
                s.scope_prefix,
            ) && e.ecs_network is Some && s.network_len == e.ecs_network->0.len()
        },
        e.ecs_family is Some && !ecs_in_key ==> stored_key(e, ecs_in_key) is Err || stored_key(
            e,
            ecs_in_key,
        )->Ok_0 is None,
        e.ecs_family is Some != e.ecs_network is Some ==> stored_key(e, ecs_in_key) is Err,
        e.ecs_family is Some != e.ecs_source_prefix is Some ==> stored_key(e, ecs_in_key) is Err,
        e.ecs_family is Some != e.ecs_scope_prefix is Some ==> stored_key(e, ecs_in_key) is Err,
{
}

/// An entry whose time was over while the cache was down is not brought back, nor is one that
/// is neither an answer nor a denial, nor one of the first version that had run out. A key
/// or a response that cannot be read is an error.
pub proof fn law_entries_left_out(e: PersistedView, c: LoadContext)
    ensures
        e.remaining_ttl_ms <= c.downtime_ms ==> loaded_entry(e, c) is Ok && loaded_entry(
            e,
            c,
        )->Ok_0 is None,
        e.remaining_ttl_ms > c.downtime_ms && stored_key(e, c.ecs_in_key) is Err ==> loaded_entry(
            e,
            c,
        ) is Err,
        e.remaining_ttl_ms > c.downtime_ms && stored_key(e, c.ecs_in_key) is Ok && stored_key(
            e,
            c.ecs_in_key,
        )->Ok_0 is Some && parse_message(e.resp_bytes) is None ==> loaded_entry(e, c) is Err,
        loaded_entry(e, c) matches Ok(Some(p)) ==> {
            &&& stored_key(e, c.ecs_in_key) == Ok::<
                Option<CacheKeyView>,
                crate::cache::persistence::error::DumpErrorView,
            >(Some(p.key))
            &&& parse_message(e.resp_bytes) == Some(p.value.resp)
            &&& match cache_disposition(p.value.resp, p.key) {
                ResponseDisposition::CompletePositive => true,
                ResponseDisposition::DefinitiveNegative(_) => true,
                _ => false,
            }
            &&& p.value.ttl > 0
            &&& c.dump_version == 1 ==> e.cache_age_ms < e.ttl * 1000
        },
{
}

/// An entry that is brought back has the age that it had and the time for which the cache was
/// down, and was last used as long ago.
pub proof fn law_times_brought_back(
    e: PersistedView,
    key: CacheKeyView,
    resp: MessageView,
    limits: (u32, u64, u64),
    c: LoadContext,
)
    requires
        e.cache_age_ms + c.downtime_ms <= u64::MAX,
        e.last_access_age_ms + c.downtime_ms <= c.now_elapsed_ms,
        c.now_elapsed_ms + limits.1 <= u64::MAX,
        c.now_elapsed_ms + limits.2 <= u64::MAX,
    ensures
        ({
            let p = prepared_entry(e, key, resp, limits, c);
            &&& (c.now_elapsed_ms - p.cache_time_ms) + p.value.cache_age_offset_ms
                == e.cache_age_ms + c.downtime_ms
            &&& p.last_access_ms + e.last_access_age_ms + c.downtime_ms == c.now_elapsed_ms
            &&& p.value.fresh_until_ms == c.now_elapsed_ms + limits.1
            &&& p.expire_at_ms == c.now_elapsed_ms + limits.2
            &&& p.value.ttl == limits.0
            &&& p.value.resp == resp
            &&& p.key == key
        }),
{
}

/// Where there are more entries than there is room for, those stay that were used last, of
/// those the ones that were cached last, and of those the ones that come last in the dump.
pub proof fn law_entries_that_stay(
    all: Seq<RankedView>,
    limit: usize,
    at: Seq<int>,
    kept: Seq<PreparedView>,
    gone: int,
    stays: int,
)
    requires
        selects(all, limit, at, kept),
        0 <= gone < all.len(),
        !at.contains(gone),
        0 <= stays < at.len(),
    ensures
        ({
            let a = all[gone];
            let b = all[at[stays]];
            &&& a.entry.restore_last_access_age_ms >= b.entry.restore_last_access_age_ms
            &&& a.entry.restore_last_access_age_ms == b.entry.restore_last_access_age_ms
                ==> a.entry.restore_cache_age_ms >= b.entry.restore_cache_age_ms
            &&& a.entry.restore_last_access_age_ms == b.entry.restore_last_access_age_ms
                && a.entry.restore_cache_age_ms == b.entry.restore_cache_age_ms ==> a.sequence
                <= b.sequence
        }),
        kept.len() == limit,
        kept[stays] == all[at[stays]].entry,
{
    assert(0 <= at[stays] < all.len());
    assert(ranks_below(all[gone], all[at[stays]]));
    if all.len() <= limit {
        lemma_increasing_covers(at, all.len() as int);
        assert(at[gone] == gone);
    }
}

proof fn lemma_increasing_covers(at: Seq<int>, n: int)
    requires
        at.len() == n,
        forall|i: int| 0 <= i < at.len() ==> 0 <= #[trigger] at[i] < n,
        forall|i: int, j: int| 0 <= i < j < at.len() ==> #[trigger] at[i] < #[trigger] at[j],
    ensures
        forall|i: int| 0 <= i < n ==> #[trigger] at[i] == i,
{
    assert forall|i: int| 0 <= i < n implies #[trigger] at[i] == i by {
        lemma_at_least(at, i);
        lemma_at_most(at, n, i);
    }
}

proof fn lemma_at_least(at: Seq<int>, i: int)
    requires
        0 <= i < at.len(),
        forall|j: int| 0 <= j < at.len() ==> 0 <= #[trigger] at[j],
        forall|j: int, k: int| 0 <= j < k < at.len() ==> #[trigger] at[j] < #[trigger] at[k],
    ensures
        at[i] >= i,
    decreases i,
{
    if i > 0 {
        lemma_at_least(at, i - 1);
        assert(at[i - 1] < at[i]);
    }
}

proof fn lemma_at_most(at: Seq<int>, n: int, i: int)
    requires
        0 <= i < at.len(),
        at.len() == n,
        forall|j: int| 0 <= j < at.len() ==> #[trigger] at[j] < n,
        forall|j: int, k: int| 0 <= j < k < at.len() ==> #[trigger] at[j] < #[trigger] at[k],
    ensures
        at[i] <= i,
    decreases n - i,
{
    if i < n - 1 {
        lemma_at_most(at, n, i + 1);
        assert(at[i] < at[i + 1]);
    }
}

/// An entry that is brought back takes its place unless a newer one with its key is there, and
/// leaves all others as they are.
pub proof fn law_newer_entry_stays(s: LoadedView, p: PreparedView, other: CacheKeyView)
    requires
        s.entries.dom().len() < usize::MAX,
        other != p.key,
    ensures
        ({
            let t = load_one(s, p);
            let newer = s.entries.dom().contains(p.key) && s.entries[p.key].cache_time_ms
                > p.cache_time_ms;
            &&& newer ==> t == s
            &&& !newer ==> t.entries.dom().contains(p.key) && t.entries[p.key].value == p.value
                && t.entries[p.key].cache_time_ms == p.cache_time_ms
                && t.entries[p.key].expire_at_ms == p.expire_at_ms
                && t.entries[p.key].last_access_ms == p.last_access_ms && t.loaded == s.loaded + 1
            &&& t.entries.dom().contains(other) <==> s.entries.dom().contains(other)
            &&& t.entries[other] == s.entries[other]
        }),
{
}

spec fn is_prepared(prepared: Seq<PreparedView>, k: CacheKeyView, slot: Slot<CacheItemView>) -> bool {
    exists|i: int|
        0 <= i < prepared.len() && (#[trigger] prepared[i]).key == k && prepared[i].value
            == slot.value && prepared[i].expire_at_ms == slot.expire_at_ms
}

proof fn lemma_loaded_from(s: LoadedView, prepared: Seq<PreparedView>)
    requires
        s.entries.dom().len() == 0,
        s.entries.dom().finite(),
    ensures
        load_all(s, prepared).entries.dom().finite(),
        load_all(s, prepared).entries.dom().len() <= prepared.len(),
        forall|k: CacheKeyView| #[trigger]
            load_all(s, prepared).entries.dom().contains(k) ==> is_prepared(
                prepared,
                k,
                load_all(s, prepared).entries[k],
            ),
    decreases prepared.len(),
{
    let t = load_all(s, prepared);
    if prepared.len() > 0 {
        let init = prepared.drop_last();
        let p = prepared.last();
        lemma_loaded_from(s, init);
        let before = load_all(s, init);
        assert forall|k: CacheKeyView| #[trigger] t.entries.dom().contains(k) implies is_prepared(
            prepared,
            k,
            t.entries[k],
        ) by {
            if before.entries.dom().contains(k) && t.entries[k] == before.entries[k] {
                assert(is_prepared(init, k, before.entries[k]));
                let i = choose|i: int|
                    0 <= i < init.len() && (#[trigger] init[i]).key == k && init[i].value
                        == before.entries[k].value && init[i].expire_at_ms
                        == before.entries[k].expire_at_ms;
                assert(prepared[i] == init[i]);
            } else {
                assert(prepared[prepared.len() - 1] == p);
            }
        }
    } else {
        assert(s.entries.dom() =~= Set::empty());
    }
}

/// A cache that is replaced holds nothing but entries that were brought back, none that has
/// expired, and no more than it may.
pub proof fn law_replaced_cache(
    s: StoreView,
    t: StoreView,
    prepared: Seq<PreparedView>,
    counts: (usize, usize, usize),
    now: u64,
    k: CacheKeyView,
)
    requires
        replaced_by(s, t, prepared, counts, now),
        prepared.len() <= usize::MAX,
    ensures
        t.entries.dom().len() <= s.cache_size,
        t.entries.dom().contains(k) ==> now < t.entries[k].expire_at_ms && exists|i: int|
            0 <= i < prepared.len() && (#[trigger] prepared[i]).key == k && prepared[i].value
                == t.entries[k].value,
{
    let start = LoadedView { entries: Map::empty(), next_generation: 1, loaded: 0 };
    let end = load_all(start, prepared);
    lemma_loaded_from(start, prepared);
    let size = s.cache_size as int;
    let sample = choose|sample: Set<CacheKeyView>| #[trigger]
        pruned(end.entries, t.entries, now, usize::MAX, size, size, sample, counts);
    vstd::set_lib::lemma_subset_equality(sample, end.entries.dom());
    if t.entries.dom().contains(k) {
        assert(sample.contains(k));
        assert(is_prepared(prepared, k, end.entries[k]));
    }
}

/// A dump is read where its version is one of the three that there have been; one of another
/// version is refused for it, one without the mark for that, and one that ends before its
/// version as cut.
pub proof fn law_versions_that_are_read(data: Seq<u8>, limit: usize)
    ensures
        parsed_dump(data, limit) is Ok ==> dump_version(data) is Ok && 1 <= dump_version(data)->Ok_0
            <= 3,
        data.len() < 12 ==> parsed_dump(data, limit) == Err::<LegacyView, DumpErrorView>(
            DumpErrorView::TruncatedHeader,
        ),
        data.len() >= 12 && u64_at(data, 0) != 0x3145_4843_4143_5344 ==> parsed_dump(data, limit)
            == Err::<LegacyView, DumpErrorView>(DumpErrorView::BadMagic),
        dump_version(data) is Ok && (dump_version(data)->Ok_0 < 1 || dump_version(data)->Ok_0 > 3)
            ==> parsed_dump(data, limit) == Err::<LegacyView, DumpErrorView>(
            DumpErrorView::UnsupportedVersion(dump_version(data)->Ok_0),
        ),
        ({
            let d = the_legacy(data, limit);
            is_legacy(data, limit) && d.0 == 0x3145_4843_4143_5344 ==> (legacy_dump(data, limit)
                is Ok <==> d.1 == 1 || d.1 == 2) && (legacy_dump(data, limit) is Ok ==> legacy_dump(
                data,
                limit,
            )->Ok_0 == d)
        }),
{
}

/// A frame is its length in eight octets and as many octets after them. One that the dump ends
/// within is refused as cut, in its length or behind it; the next begins where it ends.
pub proof fn law_frames_within_dump(data: Seq<u8>, pos: int, limit: usize)
    requires
        0 <= pos <= data.len() <= usize::MAX,
    ensures
        data.len() < pos + 8 ==> frame_at(data, pos, limit) == Err::<
            (PersistedView, int),
            DumpErrorView,
        >(DumpErrorView::TruncatedFrameLength),
        pos + 8 <= data.len() < pos + 8 + u64_at(data, pos) <= usize::MAX ==> frame_at(
            data,
            pos,
            limit,
        ) == Err::<(PersistedView, int), DumpErrorView>(DumpErrorView::TruncatedFrame),
        pos + 8 <= data.len() && u64_at(data, pos) <= usize::MAX < pos + 8 + u64_at(data, pos)
            ==> frame_at(data, pos, limit) == Err::<(PersistedView, int), DumpErrorView>(
            DumpErrorView::FrameOffsetOverflow,
        ),
        pos + 8 <= data.len() && u64_at(data, pos) > usize::MAX ==> frame_at(data, pos, limit)
            == Err::<(PersistedView, int), DumpErrorView>(DumpErrorView::FrameLengthTooLarge),
        frame_at(data, pos, limit) is Ok ==> frame_at(data, pos, limit)->Ok_0.1 == pos + 8 + u64_at(
            data,
            pos,
        ) <= data.len(),
{
}

/// What keeps a dump from being written is an entry that cannot be written, a size that cannot
/// be counted, and one over the limit; all else is said of a dump that is there.
pub proof fn law_problems_of_writing(e: DumpErrorView)
    ensures
        prevents_writing(e) <==> e is EntryNotSerializable || e is SizeOverflow || e is TooLarge,
{
}

proof fn lemma_hints_of_prepared(hints: Set<Hint>, prepared: Seq<PreparedView>)
    ensures
        hints.subset_of(hints_with_all(hints, prepared)),
        forall|i: int|
            0 <= i < prepared.len() && gives_hint((#[trigger] prepared[i]).key) ==> hints_with_all(
                hints,
                prepared,
            ).contains(hint_of(prepared[i].key)),
    decreases prepared.len(),
{
    if prepared.len() > 0 {
        let shorter = prepared.drop_last();
        lemma_hints_of_prepared(hints, shorter);
        assert forall|i: int|
            0 <= i < prepared.len() && gives_hint(
                (#[trigger] prepared[i]).key,
            ) implies hints_with_all(hints, prepared).contains(hint_of(prepared[i].key)) by {
            if i < shorter.len() {
                assert(shorter[i] == prepared[i]);
            }
        }
    }
}

/// A load that replaces the entries leaves none that it did not bring, one that does not leaves
/// them all; it forgets no hint, and has one for each key that it brought and that gives one.
pub proof fn law_load_notes_hints(
    before: (Map<CacheKeyView, Slot<CacheItemView>>, u64, EcsIndexView),
    after: (Map<CacheKeyView, Slot<CacheItemView>>, u64, EcsIndexView),
    replace: bool,
    prepared: Seq<PreparedView>,
    loaded: usize,
    k: CacheKeyView,
)
    requires
        load_outcome(before, after, replace, prepared, loaded),
    ensures
        before.2.hints.subset_of(after.2.hints),
        forall|i: int|
            0 <= i < prepared.len() && gives_hint((#[trigger] prepared[i]).key)
                ==> after.2.hints.contains(hint_of(prepared[i].key)),
        !replace && before.0.dom().contains(k) ==> after.0.dom().contains(k),
        replace && after.0.dom().contains(k) ==> exists|i: int|
            0 <= i < prepared.len() && (#[trigger] prepared[i]).key == k,
        prepared.len() == 0 && !replace ==> after.0 == before.0 && loaded == 0,
        prepared.len() == 0 && replace ==> after.0 == Map::<
            CacheKeyView,
            Slot<CacheItemView>,
        >::empty(),
{
    lemma_hints_of_prepared(before.2.hints, prepared);
    let start = LoadedView {
        entries: if replace {
            Map::empty()
        } else {
            before.0
        },
        next_generation: before.1,
        loaded: 0,
    };
    lemma_keys_of_load(start, prepared, k);
}

proof fn lemma_keys_of_load(s: LoadedView, prepared: Seq<PreparedView>, k: CacheKeyView)
    ensures
        s.entries.dom().contains(k) ==> load_all(s, prepared).entries.dom().contains(k),
        load_all(s, prepared).entries.dom().contains(k) ==> s.entries.dom().contains(k) || exists|
            i: int,
        |
            0 <= i < prepared.len() && (#[trigger] prepared[i]).key == k,
    decreases prepared.len(),
{
    if prepared.len() > 0 {
        let shorter = prepared.drop_last();
        lemma_keys_of_load(s, shorter, k);
        if load_all(s, shorter).entries.dom().contains(k) && !s.entries.dom().contains(k) {
            let i = choose|i: int| 0 <= i < shorter.len() && (#[trigger] shorter[i]).key == k;
            assert(prepared[i] == shorter[i]);
        }
        assert(prepared[prepared.len() - 1] == prepared.last());
    }
}

/// An entry has no part over the limit, or the first that is over it is told: the name, the
/// network or the response.
pub proof fn law_part_over_the_limit(e: PersistedView, limit: usize)
    ensures
        !entry_fits(e, limit) ==> first_over(e, limit) > limit,
        encode_utf8(e.domain).len() > limit ==> first_over(e, limit) == encode_utf8(e.domain).len(),
        encode_utf8(e.domain).len() <= limit && e.ecs_network is Some && e.ecs_network->0.len()
            > limit ==> first_over(e, limit) == e.ecs_network->0.len(),
        entry_fits(e, limit) <==> encode_utf8(e.domain).len() <= limit && (e.ecs_network is None
            || e.ecs_network->0.len() <= limit) && e.resp_bytes.len() <= limit,
{
}

} // verus!
