//! What holds of the cache over several calls.

use vstd::prelude::*;

use crate::cache::ecs_index::{candidates, gives_hint, hint_of, law_candidates_complete};
use crate::cache::executor::{
    admission, admitted, begun, cooldown_ms, flown, led, policy_of, refreshed, schedule,
    touch_refreshed, tried, CacheView, RefreshAdmission, RefreshOutcomeView,
};
use crate::cache::flights::flight_id;
use crate::cache::item::{CacheEntryValidation, CacheItemView};
use crate::cache::key::{request_key, response_key, CacheKeyView};
use crate::cache::policy::{
    cache_disposition, expires_at, fresh_until, law_fresh_within_retention, ttl_decision,
    CacheTtlDecision,
};
use crate::cache::restore::fresh_answer;
use crate::cache::store::{
    first_usable, holds, kept_entries, law_lookup_keeps_entries, law_no_expired_or_unwanted_stale,
    law_written_entry_is_probed, law_written_entry_is_served, remaining_secs, with_entry,
    TtlCacheMoveMetadata,
};
use crate::proto::message::MessageView;

verus! {

/// A response that a flight has cached answers the same question until it turns stale,
/// with TTLs that have aged since.
pub proof fn law_cached_response_is_answered(
    c: CacheView,
    request: MessageView,
    response: MessageView,
    flight: u64,
    now: u64,
    ttl: u32,
    at: u64,
)
    requires
        request_key(request, c.ecs_in_key) is Some,
        request_key(request, c.ecs_in_key)->0.ecs_scope is None,
        flown(c, request_key(request, c.ecs_in_key)->0, flight, Some(response), now).1,
        ttl_decision(
            response,
            request_key(request, c.ecs_in_key)->0.dns_class,
            cache_disposition(response, request_key(request, c.ecs_in_key)->0),
            policy_of(c),
        ) == CacheTtlDecision::Cache(ttl),
        now <= at < fresh_until(now, ttl),
    ensures
        ({
            let key = request_key(request, c.ecs_in_key)->0;
            let d = flown(c, key, flight, Some(response), now).0;
            let r = tried(d, request, at).1;
            &&& r is Some
            &&& (r->0).0 is Fresh
            &&& (r->0).1 == Some(
                fresh_answer(
                    response,
                    request,
                    (at - now) as u64,
                    remaining_secs(fresh_until(now, ttl), at),
                ),
            )
        }),
{
    let key = request_key(request, c.ecs_in_key)->0;
    let disposition = cache_disposition(response, key);
    let item = CacheItemView::fresh(
        response,
        ttl,
        fresh_until(now, ttl),
        0,
        CacheEntryValidation::Validated,
    );
    let enable_lazy = c.config.lazy_cache_ttl is Some && disposition.spec_is_complete_positive();
    let times = TtlCacheMoveMetadata {
        cache_time_ms: now,
        expire_at_ms: expires_at(
            now,
            ttl,
            c.config.lazy_cache_ttl,
            enable_lazy,
        ),
        last_access_ms: now,
    };
    law_fresh_within_retention(now, ttl, c.config.lazy_cache_ttl, enable_lazy);
    let d = flown(c, key, flight, Some(response), now).0;
    let t = touch_refreshed(d, at);
    law_written_entry_is_served(
        c.store,
        key,
        item,
        times,
        now,
        at,
        t.touch_interval_ms,
        c.config.lazy_cache_ttl is Some,
    );
}

/// Whether an entry with the key `stored` is there for requests with the key `key`: it
/// is their own key, or that of their subnet cut to `prefix`.
pub open spec fn answers_key(stored: CacheKeyView, key: CacheKeyView, prefix: u8) -> bool {
    stored == key || (key.ecs_scope is Some && prefix <= key.ecs_scope->0.source_prefix && stored
        == key.scoped(prefix))
}

/// A response that a flight has cached for clients of a subnet answers each of them until
/// it turns stale: the client whose request it was, and every other whose subnet cut to
/// the prefix of the response is the same. A response that was cached for a longer prefix
/// comes first.
pub proof fn law_cached_subnet_response_is_answered(
    c: CacheView,
    request: MessageView,
    response: MessageView,
    flight: u64,
    now: u64,
    ttl: u32,
    at: u64,
    other: MessageView,
    prefix: u8,
)
    requires
        request_key(request, c.ecs_in_key) is Some,
        flown(c, request_key(request, c.ecs_in_key)->0, flight, Some(response), now).1,
        ttl_decision(
            response,
            request_key(request, c.ecs_in_key)->0.dns_class,
            cache_disposition(response, request_key(request, c.ecs_in_key)->0),
            policy_of(c),
        ) == CacheTtlDecision::Cache(ttl),
        now <= at < fresh_until(now, ttl),
        request_key(other, c.ecs_in_key) is Some,
        answers_key(
            response_key(request_key(request, c.ecs_in_key)->0, response)->0,
            request_key(other, c.ecs_in_key)->0,
            prefix,
        ),
    ensures
        ({
            let stored = response_key(request_key(request, c.ecs_in_key)->0, response)->0;
            let d = flown(
                c,
                request_key(request, c.ecs_in_key)->0,
                flight,
                Some(response),
                now,
            ).0;
            let keys = candidates(d.store.index.hints, request_key(other, c.ecs_in_key)->0);
            let lazy = c.config.lazy_cache_ttl is Some;
            let r = tried(d, other, at).1;
            &&& r is Some && !((r->0).0 is Miss) && (r->0).1 is Some
            &&& forall|i: int|
                #![trigger keys[i]]
                first_usable(d.store, keys, i, at, lazy) && keys[i] == stored ==> (r->0).1 == Some(
                    fresh_answer(
                        response,
                        other,
                        (at - now) as u64,
                        remaining_secs(fresh_until(now, ttl), at),
                    ),
                )
        }),
{
    let key = request_key(request, c.ecs_in_key)->0;
    let okey = request_key(other, c.ecs_in_key)->0;
    let stored = response_key(key, response)->0;
    let disposition = cache_disposition(response, key);
    let item = CacheItemView::fresh(
        response,
        ttl,
        fresh_until(now, ttl),
        0,
        CacheEntryValidation::Validated,
    );
    let lazy = c.config.lazy_cache_ttl is Some;
    let enable_lazy = lazy && disposition.spec_is_complete_positive();
    let times = TtlCacheMoveMetadata {
        cache_time_ms: now,
        expire_at_ms: expires_at(now, ttl, c.config.lazy_cache_ttl, enable_lazy),
        last_access_ms: now,
    };
    law_fresh_within_retention(now, ttl, c.config.lazy_cache_ttl, enable_lazy);
    let d = flown(c, key, flight, Some(response), now).0;
    let t = touch_refreshed(d, at);
    let w = with_entry(c.store, stored, item, times, now);
    assert(d.store == w && t.store == w);
    let hints = w.index.hints;
    if stored == okey {
        law_candidates_complete(hints, okey, 0);
    } else {
        assert(gives_hint(stored));
        assert(hints.contains(hint_of(stored)));
        law_candidates_complete(hints, okey, prefix);
    }
    law_written_entry_is_probed(
        c.store,
        stored,
        item,
        times,
        now,
        okey,
        at,
        t.touch_interval_ms,
        lazy,
    );
}

/// A stale answer is never called authentic.
pub proof fn law_stale_answer_is_not_authentic(c: CacheView, request: MessageView, now: u64)
    ensures
        ({
            let r = tried(c, request, now).1;
            r is Some && (r->0).0 is Stale ==> (r->0).1 is Some && !((r->0).1->0).authentic_data
        }),
{
}

/// A request rewrites no cached response, whether it is a hit or a miss.
pub proof fn law_request_keeps_entries(
    c: CacheView,
    request: MessageView,
    ancestors: Seq<u64>,
    has_next: bool,
    now: u64,
)
    ensures
        kept_entries(c.store, begun(c, request, ancestors, has_next, now).0.store, now),
{
    if request_key(request, c.ecs_in_key) is Some {
        let t = touch_refreshed(c, now);
        law_lookup_keeps_entries(
            t.store,
            request_key(request, c.ecs_in_key)->0,
            now,
            t.touch_interval_ms,
            c.config.lazy_cache_ttl is Some,
        );
    }
}

/// Periodic dumps keep their distance: the age at which unsaved changes are written is
/// never below the interval, and the interval is the configured one, in whole seconds
/// and at least one.
pub proof fn law_dumps_keep_interval(dump_interval: u64)
    ensures
        schedule(dump_interval).0 >= dump_interval,
        schedule(dump_interval).0 >= 1,
        schedule(dump_interval).2 >= schedule(dump_interval).1,
        schedule(dump_interval).1 == schedule(dump_interval).0 * 1000 || schedule(
            dump_interval,
        ).1 == u64::MAX,
{
}

/// A truncated response is not cached, and neither is one that may not be.
pub proof fn law_unfit_response_is_not_cached(
    c: CacheView,
    key: CacheKeyView,
    response: MessageView,
    now: u64,
)
    requires
        response.truncated || ttl_decision(
            response,
            key.dns_class,
            cache_disposition(response, key),
            policy_of(c),
        ) is Skip,
    ensures
        !led(c, key, Some(response), now).1,
        led(c, key, Some(response), now).0.store.entries == c.store.entries,
{
}

/// A cache without a lazy TTL answers with fresh responses only.
pub proof fn law_no_stale_answer_without_lazy_ttl(c: CacheView, request: MessageView, now: u64)
    requires
        c.config.lazy_cache_ttl is None,
    ensures
        ({
            let r = tried(c, request, now).1;
            r is Some ==> !((r->0).0 is Stale)
        }),
{
    if request_key(request, c.ecs_in_key) is Some {
        let t = touch_refreshed(c, now);
        law_no_expired_or_unwanted_stale(
            t.store,
            request_key(request, c.ecs_in_key)->0,
            now,
            t.touch_interval_ms,
            false,
        );
    }
}

/// There are never more refreshes under way than there may be, and none begins while
/// the same entry is being refreshed or after the cache has been closed.
pub proof fn law_refreshes_are_bounded(
    c: CacheView,
    key: CacheKeyView,
    item: CacheItemView,
    has_next: bool,
    now: u64,
)
    requires
        c.refreshes <= c.refresh_limit,
    ensures
        ({
            let a = admission(c, key, item, has_next, now);
            &&& admitted(c, key, a).refreshes <= c.refresh_limit
            &&& a == RefreshAdmission::Started ==> c.accepting && !c.refreshing.contains(
                flight_id(key),
            )
        }),
{
}

/// A refresh that has ended, however it ended, gives its place back.
pub proof fn law_ended_refresh_gives_place_back(
    c: CacheView,
    key: CacheKeyView,
    item: CacheItemView,
    request: CacheKeyView,
    generation: u64,
    outcome: RefreshOutcomeView,
    started: u64,
    ended: u64,
)
    requires
        admission(c, key, item, true, started) == RefreshAdmission::Started,
        c.refreshes < usize::MAX,
    ensures
        ({
            let d = refreshed(
                admitted(c, key, RefreshAdmission::Started),
                key,
                request,
                generation,
                outcome,
                ended,
            );
            &&& d.refreshes == c.refreshes
            &&& d.refreshing == c.refreshing
        }),
{
    assert(c.refreshing.insert(flight_id(key)).remove(flight_id(key)) =~= c.refreshing);
}

/// A failed refresh keeps the stale entry, and none begins for it until the cooldown
/// is over.
pub proof fn law_failed_refresh_waits(
    c: CacheView,
    key: CacheKeyView,
    request: CacheKeyView,
    generation: u64,
    now: u64,
    at: u64,
)
    requires
        holds(c.store, key, generation),
        at < now + cooldown_ms(c) <= u64::MAX,
    ensures
        ({
            let d = refreshed(c, key, request, generation, RefreshOutcomeView::Failed, now);
            let item = d.store.entries[key].value;
            &&& d.store.entries.dom().contains(key)
            &&& item.resp == c.store.entries[key].value.resp
            &&& admission(d, key, item, true, at) == RefreshAdmission::Cooldown
        }),
{
}

/// Where a request leads a flight, it goes on through the chain, and nothing has been
/// answered yet.
pub proof fn law_leader_has_no_answer(
    c: CacheView,
    request: MessageView,
    ancestors: Seq<u64>,
    has_next: bool,
    now: u64,
)
    ensures
        ({
            let step = begun(c, request, ancestors, has_next, now).1;
            &&& step.action is Lead ==> step.response is None
            &&& step.action is Stop ==> step.response is Some && c.short_circuit
            &&& step.refresh is Some ==> step.response is Some
        }),
{
}

} // verus!
