//! What holds of saving and loading together.

use vstd::prelude::*;

use crate::bytes::{le, lemma_le_len, lemma_le_value_of_le, lemma_pow256_values};
use crate::cache::dump_wire::{
    entry_fits, entry_wire, frame_wire, frames_wire, header_wire, is_entry, is_legacy,
    legacy_octets, lemma_entry_wire_injective, lemma_legacy_split, lemma_wire_lens, HeaderTuple,
    LegacyView, PersistedView,
};
use crate::cache::ecs_index::{gives_hint, hint_of, hints_with, Hint};
use crate::cache::item::{later, since, CacheItemView};
use crate::cache::key::{canonical_domain, padded16, stored_key_matches, CacheKeyView};
use crate::cache::persistence::collect::{
    collected, loaded_entry, prepared_entry, stored_key, CollectorView, LoadContext, PreparedView,
};
use crate::cache::persistence::decode::{
    dump_version, frame_at, framed_dump, framed_header, frames_at, legacy_dump, parsed_dump,
    the_entry, the_legacy, u32_at, u64_at,
};
use crate::cache::persistence::dump::{
    capped, dump_outcome, dumped, first_too_large, framed_len, framed_wire, lemma_frames_grow,
    lemma_frames_push, lists_keys, persisted_all, persisted_entry, scope_storable, CacheDumpOutcome,
};
use crate::cache::persistence::error::{
    DumpError, DumpErrorView, CACHE_DUMP_MAGIC, CACHE_DUMP_VERSION,
};
use crate::cache::persistence::load::{
    accepted_of, collected_all, collected_frames, empty_collector, hints_with_all, load_all,
    load_context, load_one, loadable, LoadSetting, LoadedView,
};
use crate::cache::policy::{cache_disposition, disposition_valid, law_clamp_never_widens};
use crate::cache::store::all_hinted;
use crate::proto::message::MessageView;
use crate::proto::wire::{lemma_message_reads_back, lossless, parse_message};
use crate::ttl_cache::Slot;

verus! {

/// Where the frame of entry `i` begins in a current dump.
spec fn frame_start(entries: Seq<PersistedView>, i: int) -> int {
    28 + frames_wire(entries.take(i)).len() as int
}

proof fn lemma_frames_prefix(entries: Seq<PersistedView>, n: int)
    requires
        0 <= n <= entries.len(),
    ensures
        frames_wire(entries.take(n)).len() <= frames_wire(entries).len(),
        frames_wire(entries).take(frames_wire(entries.take(n)).len() as int) == frames_wire(
            entries.take(n),
        ),
    decreases entries.len() - n,
{
    let part = frames_wire(entries.take(n));
    if n == entries.len() {
        assert(entries.take(n) =~= entries);
        assert(part.take(part.len() as int) =~= part);
    } else {
        lemma_frames_prefix(entries, n + 1);
        let next = frames_wire(entries.take(n + 1));
        assert(entries.take(n + 1).drop_last() =~= entries.take(n));
        assert(entries.take(n + 1).last() == entries[n]);
        assert(next == part + frame_wire(entries[n]));
        let whole = frames_wire(entries);
        assert(whole.take(next.len() as int).take(part.len() as int) =~= whole.take(
            part.len() as int,
        ));
        assert(next.take(part.len() as int) =~= part);
    }
}

/// The frame of entry `i` is where it is expected.
proof fn lemma_frame_at(entries: Seq<PersistedView>, dumped_at: u64, i: int, limit: usize)
    requires
        0 <= i < entries.len(),
        entry_fits(entries[i], limit),
        framed_len(entries) <= usize::MAX,
        framed_len(entries) <= u64::MAX,
    ensures
        frame_at(framed_wire(entries, dumped_at), frame_start(entries, i), limit) == Ok::<
            (PersistedView, int),
            DumpErrorView,
        >((entries[i], frame_start(entries, i + 1))),
{
    let data = framed_wire(entries, dumped_at);
    let e = entries[i];
    let h: HeaderTuple = (CACHE_DUMP_MAGIC, CACHE_DUMP_VERSION, dumped_at, entries.len() as u64);
    lemma_wire_lens(h, 0, 0, 0);
    lemma_frames_prefix(entries, i);
    lemma_frames_prefix(entries, i + 1);
    assert(entries.take(i + 1).drop_last() =~= entries.take(i));
    assert(entries.take(i + 1).last() == e);
    let part = frames_wire(entries.take(i));
    let next = frames_wire(entries.take(i + 1));
    assert(next == part + frame_wire(e));
    let n = entry_wire(e).len();
    lemma_le_len(n, 8);
    let pos = frame_start(entries, i);
    let whole = frames_wire(entries);
    assert(data.subrange(pos, pos + 8) =~= le(n, 8)) by {
        assert forall|j: int| 0 <= j < 8 implies data.subrange(pos, pos + 8)[j] == le(n, 8)[j] by {
            assert(data[pos + j] == whole[part.len() + j]);
            assert(whole[part.len() + j] == whole.take(next.len() as int)[part.len() + j]);
            assert(next[part.len() + j] == frame_wire(e)[j]);
        }
    }
    lemma_pow256_values();
    lemma_le_value_of_le(n, 8);
    assert(u64_at(data, pos) == n);
    let body = data.subrange(pos + 8, pos + 8 + n as int);
    assert(body =~= entry_wire(e)) by {
        assert forall|j: int| 0 <= j < n implies body[j] == entry_wire(e)[j] by {
            assert(data[pos + 8 + j] == whole[part.len() + 8 + j]);
            assert(whole[part.len() + 8 + j] == whole.take(next.len() as int)[part.len() + 8 + j]);
            assert(next[part.len() + 8 + j] == frame_wire(e)[8 + j]);
        }
    }
    assert(is_entry(body, limit));
    lemma_entry_wire_injective(e, the_entry(body, limit), limit);
}

proof fn lemma_frames_read_back(entries: Seq<PersistedView>, dumped_at: u64, i: int, limit: usize)
    requires
        0 <= i <= entries.len(),
        forall|j: int| 0 <= j < entries.len() ==> entry_fits(#[trigger] entries[j], limit),
        framed_len(entries) <= usize::MAX,
        framed_len(entries) <= u64::MAX,
    ensures
        frames_at(
            framed_wire(entries, dumped_at),
            frame_start(entries, i),
            (entries.len() - i) as nat,
            limit,
        ) == Ok::<Seq<PersistedView>, DumpErrorView>(entries.skip(i)),
    decreases entries.len() - i,
{
    let data = framed_wire(entries, dumped_at);
    if i == entries.len() {
        let h: HeaderTuple = (
            CACHE_DUMP_MAGIC,
            CACHE_DUMP_VERSION,
            dumped_at,
            entries.len() as u64,
        );
        lemma_wire_lens(h, 0, 0, 0);
        assert(entries.take(i) =~= entries);
        assert(entries.skip(i) =~= Seq::empty());
    } else {
        lemma_frame_at(entries, dumped_at, i, limit);
        lemma_frames_read_back(entries, dumped_at, i + 1, limit);
        assert(seq![entries[i]] + entries.skip(i + 1) =~= entries.skip(i));
    }
}

proof fn lemma_header_reads_back(entries: Seq<PersistedView>, dumped_at: u64)
    requires
        entries.len() <= u64::MAX,
    ensures
        framed_wire(entries, dumped_at).len() >= 28,
        dump_version(framed_wire(entries, dumped_at)) == Ok::<u32, DumpErrorView>(
            CACHE_DUMP_VERSION,
        ),
        framed_header(framed_wire(entries, dumped_at)) == Ok::<HeaderTuple, DumpErrorView>(
            (CACHE_DUMP_MAGIC, CACHE_DUMP_VERSION, dumped_at, entries.len() as u64),
        ),
{
    let data = framed_wire(entries, dumped_at);
    let h: HeaderTuple = (CACHE_DUMP_MAGIC, CACHE_DUMP_VERSION, dumped_at, entries.len() as u64);
    lemma_wire_lens(h, 0, 0, 0);
    lemma_pow256_values();
    lemma_le_value_of_le(h.0 as nat, 8);
    lemma_le_value_of_le(h.1 as nat, 4);
    lemma_le_value_of_le(h.2 as nat, 8);
    lemma_le_value_of_le(h.3 as nat, 8);
    let w = header_wire(h);
    assert(data.subrange(0, 8) =~= w.subrange(0, 8));
    assert(w.subrange(0, 8) =~= le(h.0 as nat, 8));
    assert(data.subrange(8, 12) =~= w.subrange(8, 12));
    assert(w.subrange(8, 12) =~= le(h.1 as nat, 4));
    assert(data.subrange(12, 20) =~= w.subrange(12, 20));
    assert(w.subrange(12, 20) =~= le(h.2 as nat, 8));
    assert(data.subrange(20, 28) =~= w.subrange(20, 28));
    assert(w.subrange(20, 28) =~= le(h.3 as nat, 8));
}

proof fn lemma_count_fits(entries: Seq<PersistedView>)
    ensures
        entries.len() <= framed_len(entries),
    decreases entries.len(),
{
    if entries.len() > 0 {
        lemma_count_fits(entries.drop_last());
        lemma_le_len(entry_wire(entries.last()).len(), 8);
    }
}

/// What was written is read again: the entries of a current dump are exactly those that
/// went into it, in their order, where a reader may allocate them.
pub proof fn law_dump_reads_back(entries: Seq<PersistedView>, dumped_at: u64, limit: usize)
    requires
        forall|j: int| 0 <= j < entries.len() ==> entry_fits(#[trigger] entries[j], limit),
        framed_len(entries) <= usize::MAX,
    ensures
        framed_dump(framed_wire(entries, dumped_at), limit) == Ok::<LegacyView, DumpErrorView>(
            (CACHE_DUMP_MAGIC, CACHE_DUMP_VERSION, dumped_at, entries),
        ),
{
    lemma_count_fits(entries);
    lemma_header_reads_back(entries, dumped_at);
    lemma_frames_read_back(entries, dumped_at, 0, limit);
    assert(entries.take(0) =~= Seq::empty());
    assert(entries.skip(0) =~= entries);
}

proof fn lemma_collected_frames(
    c: CollectorView,
    entries: Seq<PersistedView>,
    dumped_at: u64,
    i: int,
    limit: usize,
)
    requires
        0 <= i <= entries.len(),
        forall|j: int| 0 <= j < entries.len() ==> entry_fits(#[trigger] entries[j], limit),
        framed_len(entries) <= usize::MAX,
    ensures
        collected_frames(
            c,
            framed_wire(entries, dumped_at),
            frame_start(entries, i),
            (entries.len() - i) as nat,
            limit,
        ) == collected_all(c, entries.skip(i)),
    decreases entries.len() - i,
{
    if i == entries.len() {
        let h: HeaderTuple = (
            CACHE_DUMP_MAGIC,
            CACHE_DUMP_VERSION,
            dumped_at,
            entries.len() as u64,
        );
        lemma_wire_lens(h, 0, 0, 0);
        assert(entries.take(i) =~= entries);
        assert(entries.skip(i) =~= Seq::empty());
    } else {
        lemma_frame_at(entries, dumped_at, i, limit);
        assert(entries.skip(i)[0] == entries[i]);
        assert(entries.skip(i).skip(1) =~= entries.skip(i + 1));
        if let Ok(d) = collected(c, entries[i]) {
            lemma_collected_frames(d, entries, dumped_at, i + 1, limit);
        }
    }
}

/// Loading a current dump considers exactly the entries that went into it.
pub proof fn law_load_considers_dumped(
    entries: Seq<PersistedView>,
    dumped_at: u64,
    limit: usize,
    s: LoadSetting,
)
    requires
        forall|j: int| 0 <= j < entries.len() ==> entry_fits(#[trigger] entries[j], limit),
        framed_len(entries) <= usize::MAX,
    ensures
        loadable(framed_wire(entries, dumped_at), limit, s) == accepted_of(
            collected_all(
                empty_collector(load_context(s, CACHE_DUMP_VERSION, dumped_at)),
                entries,
            ),
        ),
{
    lemma_count_fits(entries);
    lemma_header_reads_back(entries, dumped_at);
    let c = empty_collector(load_context(s, CACHE_DUMP_VERSION, dumped_at));
    lemma_collected_frames(c, entries, dumped_at, 0, limit);
    assert(entries.take(0) =~= Seq::empty());
    assert(entries.skip(0) =~= entries);
}

/// Whether a key is one that requests give: its domain is in canonical form, its
/// numbers have their names, and the octets of its subnet beyond the significant ones
/// are zero.
pub open spec fn key_canonical(k: CacheKeyView) -> bool {
    &&& canonical_domain(k.domain) == Some(k.domain)
    &&& k.record_type.canonical()
    &&& k.dns_class.canonical()
    &&& scope_storable(k.ecs_scope)
    &&& k.ecs_scope matches Some(e) ==> e.wf() && e.network == padded16(e.significant())
}

/// An entry that was stored comes back under its key with its response. It comes back
/// unless it is over or the configuration does not want it any more; it is never
/// mistaken for a damaged one.
pub proof fn law_entry_reads_back(
    k: CacheKeyView,
    slot: Slot<CacheItemView>,
    dumped_ms: u64,
    c: LoadContext,
)
    requires
        key_canonical(k),
        c.ecs_in_key || k.ecs_scope is None,
        lossless(slot.value.resp),
        disposition_valid(cache_disposition(slot.value.resp, k)),
        stored_key_matches(k, slot.value.resp),
        dumped_ms < slot.expire_at_ms,
    ensures
        ({
            let e = persisted_entry(k, slot, dumped_ms);
            let r = loaded_entry(e->0, c);
            &&& e is Some
            &&& stored_key(e->0, c.ecs_in_key) == Ok::<Option<CacheKeyView>, DumpErrorView>(Some(k))
            &&& r is Ok
            &&& r->Ok_0 is Some ==> ((r->Ok_0)->0).key == k && ((r->Ok_0)->0).value.resp
                == slot.value.resp
        }),
{
    lemma_message_reads_back(slot.value.resp);
    let e = persisted_entry(k, slot, dumped_ms)->0;
    if let Some(d) = k.ecs_scope {
        assert(e.ecs_network == Some(d.significant()));
        assert(d.significant().len() == d.network_len);
        assert(stored_key(e, c.ecs_in_key)->Ok_0->0.ecs_scope->0 =~= d);
    }
    assert(stored_key(e, c.ecs_in_key) == Ok::<Option<CacheKeyView>, DumpErrorView>(Some(k)));
}

/// The age of a restored entry goes on from the age that it had, time out of service
/// included.
pub proof fn law_restored_age_continues(
    e: PersistedView,
    key: CacheKeyView,
    resp: MessageView,
    limits: (u32, u64, u64),
    c: LoadContext,
    at_ms: u64,
)
    requires
        at_ms >= c.now_elapsed_ms,
    ensures
        ({
            let p = prepared_entry(e, key, resp, limits, c);
            p.value.age(p.cache_time_ms, at_ms) == later(
                later(e.cache_age_ms, c.downtime_ms as int),
                at_ms - c.now_elapsed_ms,
            )
        }),
{
}

/// A restored entry is never fresher than it was: it stays fresh for no longer than its
/// stored TTL allows at its age, and in the cache for no longer than was left of it.
pub proof fn law_restored_entry_not_rejuvenated(e: PersistedView, c: LoadContext)
    requires
        loaded_entry(e, c) is Ok,
        loaded_entry(e, c)->Ok_0 is Some,
        c.now_elapsed_ms + e.remaining_ttl_ms <= u64::MAX,
    ensures
        ({
            let p = (loaded_entry(e, c)->Ok_0)->0;
            let age = later(e.cache_age_ms, c.downtime_ms as int);
            &&& p.value.ttl <= e.ttl
            &&& p.value.fresh_until_ms <= p.expire_at_ms
            &&& p.expire_at_ms + c.downtime_ms <= c.now_elapsed_ms + e.remaining_ttl_ms
            &&& p.value.fresh_until_ms > c.now_elapsed_ms ==> (p.value.fresh_until_ms
                - c.now_elapsed_ms) + age <= e.ttl * 1000
        }),
{
    let key = (stored_key(e, c.ecs_in_key)->Ok_0)->0;
    let resp = parse_message(e.resp_bytes)->0;
    law_clamp_never_widens(
        resp,
        key.dns_class,
        cache_disposition(resp, key),
        e.ttl,
        since(e.remaining_ttl_ms, c.downtime_ms),
        later(e.cache_age_ms, c.downtime_ms as int),
        c.policy,
    );
}

/// Loading keeps each shared entry with its hint.
pub proof fn law_load_keeps_hints(s: LoadedView, hints: Set<Hint>, prepared: Seq<PreparedView>)
    requires
        all_hinted(s.entries, hints),
    ensures
        all_hinted(load_all(s, prepared).entries, hints_with_all(hints, prepared)),
    decreases prepared.len(),
{
    if prepared.len() > 0 {
        law_load_keeps_hints(s, hints, prepared.drop_last());
        let before = load_all(s, prepared.drop_last());
        let known = hints_with_all(hints, prepared.drop_last());
        let p = prepared.last();
        let after = load_one(before, p);
        let now = hints_with(known, p.key);
        assert forall|k: CacheKeyView| #[trigger]
            after.entries.dom().contains(k) && gives_hint(k) implies now.contains(hint_of(k)) by {
            if k != p.key {
                assert(before.entries.dom().contains(k));
            }
        }
    }
}

/// The number of octets that the entry of a key adds to a dump.
spec fn share(
    entries: Map<CacheKeyView, Slot<CacheItemView>>,
    k: CacheKeyView,
    now_elapsed_ms: u64,
) -> nat {
    match persisted_entry(k, entries[k], now_elapsed_ms) {
        Some(e) => 8 + entry_wire(e).len(),
        None => 0,
    }
}

/// The number of octets that the entries of `keys` add to a dump.
spec fn shares(
    entries: Map<CacheKeyView, Slot<CacheItemView>>,
    keys: Seq<CacheKeyView>,
    now_elapsed_ms: u64,
) -> nat
    decreases keys.len(),
{
    if keys.len() == 0 {
        0
    } else {
        shares(entries, keys.drop_last(), now_elapsed_ms) + share(
            entries,
            keys.last(),
            now_elapsed_ms,
        )
    }
}

proof fn lemma_shares(
    entries: Map<CacheKeyView, Slot<CacheItemView>>,
    keys: Seq<CacheKeyView>,
    now_elapsed_ms: u64,
)
    ensures
        frames_wire(persisted_all(entries, keys, now_elapsed_ms)).len() == shares(
            entries,
            keys,
            now_elapsed_ms,
        ),
    decreases keys.len(),
{
    if keys.len() > 0 {
        lemma_shares(entries, keys.drop_last(), now_elapsed_ms);
        let rest = persisted_all(entries, keys.drop_last(), now_elapsed_ms);
        if let Some(e) = persisted_entry(keys.last(), entries[keys.last()], now_elapsed_ms) {
            lemma_frames_push(rest, e);
        }
    }
}

proof fn lemma_shares_without(
    entries: Map<CacheKeyView, Slot<CacheItemView>>,
    keys: Seq<CacheKeyView>,
    i: int,
    now_elapsed_ms: u64,
)
    requires
        0 <= i < keys.len(),
    ensures
        shares(entries, keys, now_elapsed_ms) == shares(entries, keys.remove(i), now_elapsed_ms)
            + share(entries, keys[i], now_elapsed_ms),
    decreases keys.len(),
{
    if i == keys.len() - 1 {
        assert(keys.remove(i) =~= keys.drop_last());
    } else {
        lemma_shares_without(entries, keys.drop_last(), i, now_elapsed_ms);
        assert(keys.remove(i).drop_last() =~= keys.drop_last().remove(i));
        assert(keys.remove(i).last() == keys.last());
    }
}

/// The order of the keys does not matter to what their entries take.
proof fn lemma_shares_any_order(
    entries: Map<CacheKeyView, Slot<CacheItemView>>,
    a: Seq<CacheKeyView>,
    b: Seq<CacheKeyView>,
    now_elapsed_ms: u64,
)
    requires
        a.no_duplicates(),
        b.no_duplicates(),
        forall|k: CacheKeyView| a.contains(k) <==> b.contains(k),
    ensures
        shares(entries, a, now_elapsed_ms) == shares(entries, b, now_elapsed_ms),
    decreases a.len(),
{
    if a.len() == 0 {
        if b.len() > 0 {
            assert(b.contains(b[0]));
            assert(a.contains(b[0]));
        }
    } else {
        let k = a.last();
        assert(a.contains(k));
        assert(b.contains(k));
        let i = b.index_of(k);
        assert(0 <= i < b.len() && b[i] == k);
        let fewer = a.drop_last();
        let others = b.remove(i);
        assert(others.no_duplicates());
        assert forall|x: CacheKeyView| fewer.contains(x) <==> others.contains(x) by {
            if fewer.contains(x) {
                let j = fewer.index_of(x);
                assert(a[j] == x && j < a.len() - 1);
                assert(a.contains(x));
                assert(b.contains(x));
                let l = b.index_of(x);
                assert(b[l] == x && l != i);
                if l < i {
                    assert(others[l] == x);
                } else {
                    assert(others[l - 1] == x);
                }
            }
            if others.contains(x) {
                let l = others.index_of(x);
                assert(others[l] == x);
                let at = if l < i {
                    l
                } else {
                    l + 1
                };
                assert(b[at] == x && at != i);
                assert(b.contains(x));
                assert(a.contains(x));
                let j = a.index_of(x);
                assert(a[j] == x && j < a.len() - 1);
                assert(fewer[j] == x);
            }
        }
        lemma_shares_any_order(entries, fewer, others, now_elapsed_ms);
        lemma_shares_without(entries, b, i, now_elapsed_ms);
    }
}

/// A stored entry is that of one of the keys.
proof fn lemma_stored_has_key(
    entries: Map<CacheKeyView, Slot<CacheItemView>>,
    keys: Seq<CacheKeyView>,
    i: int,
    now_elapsed_ms: u64,
) -> (j: int)
    requires
        0 <= i < persisted_all(entries, keys, now_elapsed_ms).len(),
    ensures
        0 <= j < keys.len(),
        persisted_entry(keys[j], entries[keys[j]], now_elapsed_ms) == Some(
            persisted_all(entries, keys, now_elapsed_ms)[i],
        ),
    decreases keys.len(),
{
    let rest = persisted_all(entries, keys.drop_last(), now_elapsed_ms);
    if i < rest.len() {
        lemma_stored_has_key(entries, keys.drop_last(), i, now_elapsed_ms)
    } else {
        keys.len() - 1
    }
}

/// What is stored of a key is one of the stored entries.
proof fn lemma_key_is_stored(
    entries: Map<CacheKeyView, Slot<CacheItemView>>,
    keys: Seq<CacheKeyView>,
    j: int,
    now_elapsed_ms: u64,
) -> (i: int)
    requires
        0 <= j < keys.len(),
        persisted_entry(keys[j], entries[keys[j]], now_elapsed_ms) is Some,
    ensures
        0 <= i < persisted_all(entries, keys, now_elapsed_ms).len(),
        persisted_entry(keys[j], entries[keys[j]], now_elapsed_ms) == Some(
            persisted_all(entries, keys, now_elapsed_ms)[i],
        ),
    decreases keys.len(),
{
    let rest = persisted_all(entries, keys.drop_last(), now_elapsed_ms);
    if j < keys.len() - 1 {
        lemma_key_is_stored(entries, keys.drop_last(), j, now_elapsed_ms)
    } else {
        rest.len() as int
    }
}

/// What is stored with the keys in one order is stored with them in another.
proof fn lemma_stored_any_order(
    entries: Map<CacheKeyView, Slot<CacheItemView>>,
    a: Seq<CacheKeyView>,
    b: Seq<CacheKeyView>,
    i: int,
    now_elapsed_ms: u64,
) -> (j: int)
    requires
        lists_keys(entries, a),
        lists_keys(entries, b),
        0 <= i < persisted_all(entries, a, now_elapsed_ms).len(),
    ensures
        0 <= j < persisted_all(entries, b, now_elapsed_ms).len(),
        persisted_all(entries, b, now_elapsed_ms)[j] == persisted_all(
            entries,
            a,
            now_elapsed_ms,
        )[i],
{
    let x = lemma_stored_has_key(entries, a, i, now_elapsed_ms);
    assert(a.contains(a[x]));
    assert(b.contains(a[x]));
    let y = b.index_of(a[x]);
    lemma_key_is_stored(entries, b, y, now_elapsed_ms)
}

proof fn lemma_entry_within(entries: Seq<PersistedView>, i: int)
    requires
        0 <= i < entries.len(),
    ensures
        entry_wire(entries[i]).len() < framed_len(entries),
{
    assert(entries.take(i + 1) =~= entries.take(i).push(entries[i]));
    lemma_frames_push(entries.take(i), entries[i]);
    lemma_frames_grow(entries, i + 1, entries.len() as int);
    assert(entries.take(entries.len() as int) =~= entries);
}

proof fn lemma_dump_bound(
    full: Seq<PersistedView>,
    stored: Seq<PersistedView>,
    bytes: Vec<u8>,
    full_limit: usize,
    full_max: usize,
    full_at: u64,
    r: Result<CacheDumpOutcome, DumpError>,
    limit: usize,
    max_bytes: usize,
    at: u64,
)
    requires
        dump_outcome(full, Ok(CacheDumpOutcome::Complete(bytes)), full_limit, full_max, full_at),
        dump_outcome(stored, r, limit, max_bytes, at),
        framed_len(full) == framed_len(stored),
        forall|i: int| 0 <= i < stored.len() ==> full.contains(#[trigger] stored[i]),
    ensures
        full_limit <= limit && bytes@.len() <= max_bytes ==> completes(r, bytes@.len()),
        bytes@.len() > max_bytes ==> refuses(r, max_bytes, bytes@.len()),
{
    assert(stored.take(stored.len() as int) =~= stored);
    match r {
        Ok(CacheDumpOutcome::Complete(_)) => {},
        Ok(CacheDumpOutcome::TooLarge { .. }) => {
            let n = choose|n: int| #[trigger]
                first_too_large(stored, n, max_bytes) && r->Ok_0->minimum_size == capped(
                    framed_len(stored.take(n)),
                );
            lemma_frames_grow(stored, n, stored.len() as int);
        },
        Err(_) => {
            assert forall|i: int| 0 <= i < stored.len() implies entry_wire(
                #[trigger] stored[i],
            ).len() <= usize::MAX by {
                lemma_entry_within(stored, i);
            }
            assert forall|i: int| 0 <= i < stored.len() && full_limit <= limit implies entry_fits(
                #[trigger] stored[i],
                limit,
            ) by {
                assert(full.contains(stored[i]));
                let j = full.index_of(stored[i]);
                assert(entry_fits(full[j], full_limit));
            }
        },
    }
}

/// Whether a dump is complete, with that many octets.
pub open spec fn completes(r: Result<CacheDumpOutcome, DumpError>, size: nat) -> bool {
    match r {
        Ok(CacheDumpOutcome::Complete(b)) => b@.len() == size,
        _ => false,
    }
}

/// Whether a dump is refused: it takes more than the limit, and no less is told than
/// the limit and no more than it takes.
pub open spec fn refuses(
    r: Result<CacheDumpOutcome, DumpError>,
    max_bytes: usize,
    size: nat,
) -> bool {
    match r {
        Ok(CacheDumpOutcome::TooLarge { limit, minimum_size }) => limit == max_bytes && max_bytes
            < minimum_size <= size,
        _ => false,
    }
}

/// A limit of exactly the size of a dump is enough, and one octet less is not: where the
/// entries at a time give a dump of some size, they give a dump of that size under every
/// limit that is no smaller, and none under a smaller one.
pub proof fn law_dump_bound_exact(
    entries: Map<CacheKeyView, Slot<CacheItemView>>,
    now_elapsed_ms: u64,
    bytes: Vec<u8>,
    full_limit: usize,
    full_max: usize,
    full_at: u64,
    r: Result<CacheDumpOutcome, DumpError>,
    limit: usize,
    max_bytes: usize,
    at: u64,
)
    requires
        dumped(
            entries,
            now_elapsed_ms,
            Ok(CacheDumpOutcome::Complete(bytes)),
            full_limit,
            full_max,
            full_at,
        ),
        dumped(entries, now_elapsed_ms, r, limit, max_bytes, at),
    ensures
        full_limit <= limit && bytes@.len() <= max_bytes ==> completes(r, bytes@.len()),
        bytes@.len() > max_bytes ==> refuses(r, max_bytes, bytes@.len()),
{
    let complete: Result<CacheDumpOutcome, DumpError> = Ok(CacheDumpOutcome::Complete(bytes));
    let a = choose|keys: Seq<CacheKeyView>|
        lists_keys(entries, keys) && dump_outcome(
            #[trigger] persisted_all(entries, keys, now_elapsed_ms),
            complete,
            full_limit,
            full_max,
            full_at,
        );
    let b = choose|keys: Seq<CacheKeyView>|
        lists_keys(entries, keys) && dump_outcome(
            #[trigger] persisted_all(entries, keys, now_elapsed_ms),
            r,
            limit,
            max_bytes,
            at,
        );
    let full = persisted_all(entries, a, now_elapsed_ms);
    let stored = persisted_all(entries, b, now_elapsed_ms);
    lemma_shares(entries, a, now_elapsed_ms);
    lemma_shares(entries, b, now_elapsed_ms);
    lemma_shares_any_order(entries, a, b, now_elapsed_ms);
    assert forall|i: int| 0 <= i < stored.len() implies full.contains(#[trigger] stored[i]) by {
        let j = lemma_stored_any_order(entries, b, a, i, now_elapsed_ms);
        assert(full[j] == stored[i]);
    }
    lemma_dump_bound(
        full,
        stored,
        bytes,
        full_limit,
        full_max,
        full_at,
        r,
        limit,
        max_bytes,
        at,
    );
}

/// What stands before the end of a dump is the same where more follows.
proof fn lemma_numbers_longer(d: Seq<u8>, s: Seq<u8>, pos: int)
    requires
        0 <= pos,
    ensures
        pos + 8 <= d.len() ==> u64_at(d + s, pos) == u64_at(d, pos),
        pos + 4 <= d.len() ==> u32_at(d + s, pos) == u32_at(d, pos),
{
    if pos + 8 <= d.len() {
        assert((d + s).subrange(pos, pos + 8) =~= d.subrange(pos, pos + 8));
    }
    if pos + 4 <= d.len() {
        assert((d + s).subrange(pos, pos + 4) =~= d.subrange(pos, pos + 4));
    }
}

proof fn lemma_frame_longer(d: Seq<u8>, s: Seq<u8>, pos: int, limit: usize)
    requires
        0 <= pos,
        frame_at(d, pos, limit) is Ok,
    ensures
        frame_at(d + s, pos, limit) == frame_at(d, pos, limit),
        pos + 8 <= (frame_at(d, pos, limit)->Ok_0).1 <= d.len(),
{
    lemma_numbers_longer(d, s, pos);
    let n = u64_at(d, pos);
    assert((d + s).subrange(pos + 8, pos + 8 + n) =~= d.subrange(pos + 8, pos + 8 + n));
}

proof fn lemma_frames_longer(d: Seq<u8>, s: Seq<u8>, pos: int, count: nat, limit: usize)
    requires
        0 <= pos <= d.len(),
        s.len() > 0,
        frames_at(d, pos, count, limit) is Ok,
    ensures
        frames_at(d + s, pos, count, limit) is Err,
    decreases count,
{
    if count > 0 {
        lemma_frame_longer(d, s, pos, limit);
        let next = (frame_at(d, pos, limit)->Ok_0).1;
        lemma_frames_longer(d, s, next, (count - 1) as nat, limit);
    }
}

proof fn lemma_collected_longer(
    c: CollectorView,
    d: Seq<u8>,
    s: Seq<u8>,
    pos: int,
    count: nat,
    limit: usize,
)
    requires
        0 <= pos <= d.len(),
        s.len() > 0,
        collected_frames(c, d, pos, count, limit) is Ok,
    ensures
        collected_frames(c, d + s, pos, count, limit) is Err,
    decreases count,
{
    if count > 0 {
        lemma_frame_longer(d, s, pos, limit);
        let (entry, next) = frame_at(d, pos, limit)->Ok_0;
        let more = collected(c, entry)->Ok_0;
        lemma_collected_longer(more, d, s, next, (count - 1) as nat, limit);
    }
}

proof fn lemma_legacy_longer(d: Seq<u8>, s: Seq<u8>, limit: usize)
    requires
        s.len() > 0,
        legacy_dump(d, limit) is Ok,
    ensures
        legacy_dump(d + s, limit) is Err,
{
    if is_legacy(d + s, limit) {
        let a = the_legacy(d, limit);
        let b = the_legacy(d + s, limit);
        assert(legacy_octets(b) + Seq::<u8>::empty() =~= legacy_octets(b));
        lemma_legacy_split(a, b, s, Seq::empty(), limit);
    }
}

/// No octet is tolerated after a dump, of whichever version: where a dump can be read, the
/// dump with more octets behind it can not, and where its entries can be loaded, nothing
/// can be loaded from the longer one.
pub proof fn law_no_octet_after_dump(d: Seq<u8>, s: Seq<u8>, limit: usize, setting: LoadSetting)
    requires
        s.len() > 0,
    ensures
        parsed_dump(d, limit) is Ok ==> parsed_dump(d + s, limit) is Err,
        loadable(d, limit, setting) is Ok ==> loadable(d + s, limit, setting) is Err,
{
    if dump_version(d) is Ok {
        lemma_numbers_longer(d, s, 0);
        lemma_numbers_longer(d, s, 8);
        assert(dump_version(d + s) == dump_version(d));
        if legacy_dump(d, limit) is Ok {
            lemma_legacy_longer(d, s, limit);
        }
        if framed_header(d) is Ok {
            lemma_numbers_longer(d, s, 12);
            lemma_numbers_longer(d, s, 20);
            let h = framed_header(d)->Ok_0;
            assert(framed_header(d + s) == framed_header(d));
            if frames_at(d, 28, h.3 as nat, limit) is Ok {
                lemma_frames_longer(d, s, 28, h.3 as nat, limit);
            }
            let c = empty_collector(load_context(setting, CACHE_DUMP_VERSION, h.2));
            if collected_frames(c, d, 28, h.3 as nat, limit) is Ok {
                lemma_collected_longer(c, d, s, 28, h.3 as nat, limit);
            }
        }
    }
}

} // verus!
