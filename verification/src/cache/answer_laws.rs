//! What holds of the answers from the cache and of the entries that they come from.

use vstd::prelude::*;

use crate::cache::ecs_index::law_candidates_without_subnet;
use crate::cache::executor::{answer_of, stale_ttl, CacheView};
use crate::cache::item::{CacheEntryValidation, CacheItemView};
use crate::cache::key::CacheKeyView;
use crate::cache::policy::cache_disposition;
use crate::cache::restore::{age_in_secs, fresh_answer, stale_answer};
use crate::cache::store::{
    holds, looked_up, moved, probe_all, with_entry, without, LookupView, StoreView,
    TtlCacheConditionalMoveResult, TtlCacheMoveMetadata,
};
use crate::proto::message::{
    message_subnet, with_aged_ttls, EdnsOptionView, MessageType, MessageView, Opcode, RecordView,
};
use crate::proto::response::ResponseDisposition;

verus! {

/// Records age one by one: those of two lists together are those of the one and then
/// those of the other.
pub proof fn law_records_age_one_by_one(
    a: Seq<RecordView>,
    b: Seq<RecordView>,
    age: u32,
    cap: u32,
)
    ensures
        with_aged_ttls(a + b, age, cap) == with_aged_ttls(a, age, cap) + with_aged_ttls(
            b,
            age,
            cap,
        ),
    decreases b.len(),
{
    if b.len() == 0 {
        assert(a + b =~= a);
        assert(with_aged_ttls(a, age, cap) + with_aged_ttls(b, age, cap) =~= with_aged_ttls(
            a,
            age,
            cap,
        ));
    } else {
        let init = b.drop_last();
        law_records_age_one_by_one(a, init, age, cap);
        assert((a + b).drop_last() =~= a + init);
        assert((a + b).last() == b.last());
        assert(with_aged_ttls(a + b, age, cap) =~= with_aged_ttls(a, age, cap) + with_aged_ttls(
            b,
            age,
            cap,
        ));
    }
}

/// A record that has not run out stays, with the TTL that is left of it or the cap, the
/// smaller of the two; one that has run out is gone. Nothing else of it changes.
pub proof fn law_record_ages(r: RecordView, age: u32, cap: u32)
    ensures
        r.ttl <= age ==> with_aged_ttls(seq![r], age, cap) == Seq::<RecordView>::empty(),
        r.ttl > age ==> ({
            let left = with_aged_ttls(seq![r], age, cap);
            &&& left.len() == 1
            &&& left[0] == (RecordView { ttl: left[0].ttl, ..r })
            &&& left[0].ttl <= cap && left[0].ttl + age <= r.ttl
            &&& left[0].ttl == cap || left[0].ttl + age == r.ttl
        }),
{
    let one = seq![r];
    assert(one.drop_last() =~= Seq::empty());
    assert(with_aged_ttls(one.drop_last(), age, cap) =~= Seq::empty());
}

/// The age of a response is told in whole seconds, as far as it can be.
pub proof fn law_age_in_whole_seconds(ms: u64)
    ensures
        ms < 0x1_0000_0000 * 1000 ==> age_in_secs(ms) * 1000 <= ms < (age_in_secs(ms) + 1) * 1000,
        ms >= 0x1_0000_0000 * 1000 ==> age_in_secs(ms) == u32::MAX,
{
}

/// The age of an entry is the age that it had when it was cached and the time since then.
pub proof fn law_entries_age(item: CacheItemView, cached_at: u64, now: u64)
    requires
        cached_at <= now,
    ensures
        item.cache_age_offset_ms + (now - cached_at) <= u64::MAX ==> item.age(cached_at, now)
            == item.cache_age_offset_ms + (now - cached_at),
        item.cache_age_offset_ms + (now - cached_at) > u64::MAX ==> item.age(cached_at, now)
            == u64::MAX,
{
}

/// Whether a message answers a request, as to what is not in its records.
pub open spec fn fits_request(r: MessageView, request: MessageView, cached: MessageView) -> bool {
    &&& r.id == request.id
    &&& r.questions == request.questions
    &&& r.message_type == MessageType::Response
    &&& r.opcode == Opcode::Query
    &&& r.recursion_desired == request.recursion_desired
    &&& r.checking_disabled == request.checking_disabled
    &&& r.rcode == cached.rcode
    &&& r.authoritative == cached.authoritative
    &&& r.truncated == cached.truncated
    &&& r.recursion_available == cached.recursion_available
    &&& r.signature.len() == 0
    &&& r.edns is Some <==> request.edns is Some
    &&& r.edns is Some ==> r.edns->0.dnssec_ok == request.edns->0.dnssec_ok
        && r.edns->0.udp_payload_size == request.edns->0.udp_payload_size && r.edns->0.version
        == request.edns->0.version && r.edns->0.z == request.edns->0.z && r.edns->0.ext_rcode == 0
    &&& match (message_subnet(request), message_subnet(cached)) {
        (Some(asked), Some(told)) => r.edns is Some ==> r.edns->0.options.len() == 1 && (
        r.edns->0.options[0] matches EdnsOptionView::Subnet(s) && s.addr == asked.addr
            && s.source_prefix == asked.source_prefix && s.scope_prefix == told.scope_prefix),
        _ => r.edns is Some ==> r.edns->0.options.len() == 0,
    }
}

/// An answer from a fresh entry has the identifier, question, flags and EDNS of the request,
/// the code and the other flags of the response, and its records as they have aged.
pub proof fn law_fresh_answer(
    cached: MessageView,
    request: MessageView,
    cache_age_ms: u64,
    remaining_ttl: u32,
)
    requires
        request.questions.len() == 1,
    ensures
        ({
            let r = fresh_answer(cached, request, cache_age_ms, remaining_ttl);
            let secs = age_in_secs(cache_age_ms);
            &&& fits_request(r, request, cached)
            &&& r.authentic_data == cached.authentic_data
            &&& r.answers == with_aged_ttls(cached.answers, secs, remaining_ttl)
            &&& r.authorities == with_aged_ttls(cached.authorities, secs, remaining_ttl)
            &&& r.additionals == with_aged_ttls(cached.additionals, secs, remaining_ttl)
        }),
{
    assert(seq![request.questions[0]] =~= request.questions);
}

/// Whether records are those of another list, in the same order, but with this TTL.
pub open spec fn same_but_ttl(r: Seq<RecordView>, cached: Seq<RecordView>, ttl: u32) -> bool {
    r.len() == cached.len() && forall|i: int|
        0 <= i < r.len() ==> #[trigger] r[i] == (RecordView { ttl, ..cached[i] })
}

/// An answer from a stale entry has all records of the response with one short TTL, and is
/// not vouched for as authentic.
pub proof fn law_stale_answer(cached: MessageView, request: MessageView, ttl: u32)
    requires
        request.questions.len() == 1,
    ensures
        ({
            let r = stale_answer(cached, request, ttl);
            &&& fits_request(r, request, cached)
            &&& !r.authentic_data
            &&& same_but_ttl(r.answers, cached.answers, ttl)
            &&& same_but_ttl(r.authorities, cached.authorities, ttl)
            &&& same_but_ttl(r.additionals, cached.additionals, ttl)
        }),
{
    assert(seq![request.questions[0]] =~= request.questions);
}

/// The TTL of a stale answer is the configured one, but never more than the response was
/// cached with.
pub proof fn law_stale_ttl(c: CacheView, item: CacheItemView)
    ensures
        stale_ttl(c, item) <= item.ttl,
        c.config.lazy_cache_ttl matches Some(lazy) ==> stale_ttl(c, item) <= lazy && (stale_ttl(
            c,
            item,
        ) == lazy || stale_ttl(c, item) == item.ttl),
        c.config.lazy_cache_ttl is None ==> stale_ttl(c, item) == item.ttl,
{
}

/// A hit is answered and a miss is not.
pub proof fn law_hits_are_answered(
    c: CacheView,
    request: MessageView,
    found: LookupView,
    now: u64,
)
    requires
        request.questions.len() == 1,
    ensures
        match (found, answer_of(c, request, found, now)) {
            (LookupView::Miss { .. }, None) => true,
            (LookupView::Fresh { entry, .. }, Some(r)) => fits_request(r, request, entry.item.resp)
                && r.authentic_data == entry.item.resp.authentic_data,
            (LookupView::Stale { entry, .. }, Some(r)) => fits_request(r, request, entry.item.resp)
                && !r.authentic_data && same_but_ttl(
                r.answers,
                entry.item.resp.answers,
                stale_ttl(c, entry.item),
            ),
            _ => false,
        },
{
    match found {
        LookupView::Fresh { entry, remaining_ttl } => law_fresh_answer(
            entry.item.resp,
            request,
            entry.item.age(entry.cache_time_ms, now),
            remaining_ttl,
        ),
        LookupView::Stale { entry, .. } => law_stale_answer(
            entry.item.resp,
            request,
            stale_ttl(c, entry.item),
        ),
        LookupView::Miss { .. } => {},
    }
}

/// Whether a response may be served for a key: it was checked when it was cached, or it is a
/// complete answer to the key or a denial.
pub open spec fn fit_to_serve(item: CacheItemView, k: CacheKeyView) -> bool {
    item.validation == CacheEntryValidation::Validated || match cache_disposition(item.resp, k) {
        ResponseDisposition::CompletePositive => true,
        ResponseDisposition::DefinitiveNegative(_) => true,
        _ => false,
    }
}

/// A request without a subnet is served its own entry: fresh while it is fresh, for the whole
/// seconds that are left of that; stale from then on until it expires, where that is
/// wanted; and not at all once it has expired, which also removes it. Hits and misses are
/// counted.
pub proof fn law_lookup_without_subnet(
    s: StoreView,
    k: CacheKeyView,
    now: u64,
    touch: u64,
    allow_stale: bool,
)
    requires
        k.ecs_scope is None,
    ensures
        ({
            let (t, r) = looked_up(s, k, now, touch, allow_stale);
            let e = s.entries[k];
            let there = s.entries.dom().contains(k) && now < e.expire_at_ms && fit_to_serve(
                e.value,
                k,
            );
            &&& r is Fresh <==> there && now < e.value.fresh_until_ms
            &&& r is Stale <==> there && now >= e.value.fresh_until_ms && allow_stale
            &&& r matches LookupView::Fresh { entry, remaining_ttl } ==> entry.item == e.value
                && entry.generation == e.generation && entry.cache_time_ms == e.cache_time_ms && (
            e.value.fresh_until_ms - now < 0x1_0000_0000 * 1000 ==> remaining_ttl * 1000
                <= e.value.fresh_until_ms - now < (remaining_ttl + 1) * 1000)
            &&& r matches LookupView::Stale { key, request_key, entry } ==> key == k && request_key
                == k && entry.item == e.value && entry.generation == e.generation
            &&& t.entries.dom().contains(k) <==> there
            &&& there ==> t.entries[k].value == e.value && t.entries[k].expire_at_ms
                == e.expire_at_ms && t.entries[k].generation == e.generation
            &&& forall|o: CacheKeyView| o != k ==> (#[trigger] t.entries.dom().contains(o)
                <==> s.entries.dom().contains(o)) && t.entries[o] == s.entries[o]
            &&& t.metrics.lookup_total == s.metrics.lookup_total.wrapping_add(1)
            &&& t.metrics.fresh_hit_total == (if r is Fresh {
                s.metrics.fresh_hit_total.wrapping_add(1)
            } else {
                s.metrics.fresh_hit_total
            })
            &&& t.metrics.stale_hit_total == (if r is Stale {
                s.metrics.stale_hit_total.wrapping_add(1)
            } else {
                s.metrics.stale_hit_total
            })
            &&& t.metrics.expired_total == (if s.entries.dom().contains(k) && now
                >= e.expire_at_ms {
                s.metrics.expired_total.wrapping_add(1)
            } else {
                s.metrics.expired_total
            })
            &&& t.metrics.miss_total == (if r is Miss && !(s.entries.dom().contains(k) && now
                >= e.expire_at_ms) {
                s.metrics.miss_total.wrapping_add(1)
            } else {
                s.metrics.miss_total
            })
        }),
{
    law_candidates_without_subnet(s.index.hints, k);
    reveal_with_fuel(probe_all, 3);
    let keys = seq![k];
    assert(keys.skip(1).len() == 0);
}

/// A use of an entry is noted exactly where uses are noted at all and the last one is at least
/// as long ago as they say.
pub proof fn law_use_of_entry_is_noted(
    s: StoreView,
    k: CacheKeyView,
    now: u64,
    touch: u64,
    allow_stale: bool,
)
    requires
        k.ecs_scope is None,
        s.entries.dom().contains(k),
        now < s.entries[k].expire_at_ms,
        fit_to_serve(s.entries[k].value, k),
        s.entries[k].last_access_ms <= now,
    ensures
        looked_up(s, k, now, touch, allow_stale).0.entries[k].last_access_ms == (if touch > 0
            && now >= s.entries[k].last_access_ms + touch {
            now
        } else {
            s.entries[k].last_access_ms
        }),
{
    law_candidates_without_subnet(s.index.hints, k);
    reveal_with_fuel(probe_all, 3);
    let keys = seq![k];
    assert(keys.skip(1).len() == 0);
}

/// An entry is written with its item and times under its key, and leaves all others as they
/// are. Each entry has a generation of its own, and each write is a change.
pub proof fn law_entry_is_written(
    s: StoreView,
    k: CacheKeyView,
    item: CacheItemView,
    t: TtlCacheMoveMetadata,
    now: u64,
    other: CacheKeyView,
)
    requires
        other != k,
    ensures
        ({
            let w = with_entry(s, k, item, t, now);
            &&& w.entries.dom().contains(k)
            &&& w.entries[k].value == item
            &&& w.entries[k].cache_time_ms == t.cache_time_ms
            &&& w.entries[k].expire_at_ms == t.expire_at_ms
            &&& w.entries[k].last_access_ms == t.last_access_ms
            &&& w.entries[k].generation == s.next_generation
            &&& s.next_generation < u64::MAX ==> w.next_generation == s.next_generation + 1
            &&& w.entries.dom().contains(other) <==> s.entries.dom().contains(other)
            &&& w.entries[other] == s.entries[other]
            &&& s.mutations.updated_keys < u64::MAX ==> w.mutations.updated_keys
                == s.mutations.updated_keys + 1
            &&& w.mutations.dirty_since_ms != 0
            &&& w.metrics.insert_total == s.metrics.insert_total.wrapping_add(1)
        }),
{
}

/// A removed entry is gone, all others stay, and that is a change.
pub proof fn law_entry_is_removed(s: StoreView, k: CacheKeyView, now: u64, other: CacheKeyView)
    requires
        other != k,
    ensures
        ({
            let w = without(s, k, now);
            &&& !w.entries.dom().contains(k)
            &&& w.entries.dom().contains(other) <==> s.entries.dom().contains(other)
            &&& w.entries[other] == s.entries[other]
            &&& s.mutations.updated_keys < u64::MAX ==> w.mutations.updated_keys
                == s.mutations.updated_keys + 1
            &&& w.mutations.dirty_since_ms != 0
        }),
{
}

/// A move from an entry that has been replaced meanwhile changes no entry. Otherwise the
/// source is gone; an entry under the target that is still fresh stays, and one that is not,
/// or none, makes place for the new one.
pub proof fn law_entry_is_moved(
    s: StoreView,
    source: CacheKeyView,
    target: CacheKeyView,
    generation: u64,
    item: CacheItemView,
    t: TtlCacheMoveMetadata,
    now: u64,
)
    requires
        source != target,
    ensures
        ({
            let (w, r) = moved(s, source, target, generation, item, t, now);
            let held = s.entries.dom().contains(source) && s.entries[source].generation
                == generation;
            let there = s.entries.dom().contains(target);
            let fresh = there && s.entries[target].value.fresh_until_ms > t.cache_time_ms;
            &&& !held ==> r == TtlCacheConditionalMoveResult::SourceChanged && w.entries
                == s.entries && w.mutations == s.mutations
            &&& held ==> !w.entries.dom().contains(source) && w.entries.dom().contains(target)
            &&& held && fresh ==> r == TtlCacheConditionalMoveResult::Consolidated
                && w.entries[target] == s.entries[target]
            &&& held && there && !fresh ==> r == TtlCacheConditionalMoveResult::ReplacedTarget
                && w.entries[target].value == item && w.entries[target].expire_at_ms
                == t.expire_at_ms
            &&& held && !there ==> r == TtlCacheConditionalMoveResult::Moved
                && w.entries[target].value == item && w.entries[target].expire_at_ms
                == t.expire_at_ms
            &&& holds(s, source, generation) <==> held
        }),
{
}

} // verus!
