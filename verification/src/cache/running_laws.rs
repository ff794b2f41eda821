//! What holds of a running cache: its settings, its cleanups, dumps, refreshes and flights.

use vstd::prelude::*;

use crate::cache::api::MAX_CACHE_DUMP_BODY;
use crate::cache::config::CacheConfig;
use crate::cache::executor::{
    admission, admitted, begun, built, capacity_for, cleanup_mode, cleanup_wanted, cooldown_ms,
    occupancy, policy_of, refresh_result, refreshed, schedule, touch_interval, touch_refreshed,
    tried, updated, waited, CacheView, CleanupState, ExecuteView, RefreshAdmission,
    RefreshOutcomeView, DEFAULT_DUMP_INTERVAL, MINIMUM_CHANGES_TO_DUMP,
};
use crate::cache::flights::{flight_id, landed, registered, CoalescerView, MissRole};
use crate::cache::item::{CacheEntryValidation, CacheItemView};
use crate::cache::key::{response_key, CacheKeyView};
use crate::cache::mutation::{
    age_due, dump_begun, dump_due, handoff_of, rolled_back, with_changes, CacheMutationState,
};
use crate::cache::policy::{cache_disposition, ttl_decision, CacheSkipReason, CacheTtlDecision};
use crate::cache::store::{prune_outcome, replaced_count, LookupView, StoreView};
use crate::proto::message::MessageView;
use crate::proto::response::ResponseDisposition;
use crate::ttl_cache::{TtlCachePruneMode, PRUNE_SAMPLE};

verus! {

/// Dumps come at the interval that is configured, at least every second, and changes wait
/// for one for no less than that and for no less than two minutes.
pub proof fn law_dump_schedule(interval: u64)
    ensures
        ({
            let (secs, millis, age) = schedule(interval);
            &&& interval >= 1 ==> secs == interval
            &&& interval == 0 ==> secs == 1
            &&& secs * 1000 <= u64::MAX ==> millis == secs * 1000
            &&& age >= millis && age >= 120000
            &&& age == millis || age == 120000
        }),
{
}

/// A cache begins with room for as many entries as it may hold, for one at least, and for no
/// more than a bound.
pub proof fn law_initial_capacity(size: usize)
    ensures
        1 <= size <= 16384 ==> capacity_for(size) == size,
        size == 0 ==> capacity_for(size) == 1,
        size > 16384 ==> capacity_for(size) == 16384,
{
}

/// The share of a cache that is in use is told in whole percents.
pub proof fn law_share_in_use(len: usize, size: usize)
    requires
        size > 0,
        len * 100 <= usize::MAX,
    ensures
        occupancy(len, size) * size <= len * 100 < (occupancy(len, size) + 1) * size,
{
    let p = occupancy(len, size);
    vstd::arithmetic::div_mod::lemma_fundamental_div_mod(len * 100, size as int);
    vstd::arithmetic::div_mod::lemma_mod_bound(len * 100, size as int);
    assert(p * size == size * p) by (nonlinear_arith);
    assert((p + 1) * size == size * p + size) by (nonlinear_arith);
}

/// The interval at which uses are noted in a large cache by the share that is in use: not at
/// all below a half, and the more often the fuller the cache is.
pub open spec fn full_interval(len: int, size: int) -> int {
    if len * 100 < 50 * size {
        0
    } else if len * 100 < 75 * size {
        30000
    } else if len * 100 < 90 * size {
        5000
    } else {
        1000
    }
}

/// Uses are noted the more often the fuller a cache is. In a cache of middle size they are
/// noted twice as often and in a small one four times as often, but not more often than
/// every second.
pub proof fn law_uses_are_noted(len: usize, size: usize)
    requires
        size > 0,
        len * 100 <= usize::MAX,
    ensures
        ({
            let full = full_interval(len as int, size as int);
            let t = touch_interval(len, size);
            &&& full == 0 ==> t == 0
            &&& full > 0 ==> t >= 1000
            &&& size > 32768 ==> t == full
            &&& 4096 < size <= 32768 && full > 0 ==> t == (if full >= 2000 {
                full / 2
            } else {
                1000
            })
            &&& size <= 4096 && full > 0 ==> t == (if full >= 4000 {
                full / 4
            } else {
                1000
            })
        }),
{
    let p = occupancy(len, size);
    law_share_in_use(len, size);
    assert forall|k: int| #![trigger k * size] (p < k <==> len * 100 < k * size) by {
        assert(p < k ==> (p + 1) * size <= k * size) by (nonlinear_arith)
            requires
                size > 0,
        ;
        assert(p >= k ==> p * size >= k * size) by (nonlinear_arith)
            requires
                size > 0,
        ;
    }
    assert(p < 50 <==> len * 100 < 50 * size);
    assert(p < 75 <==> len * 100 < 75 * size);
    assert(p < 90 <==> len * 100 < 90 * size);
}

/// The interval at which uses are noted is found anew every second, by what the cache then
/// holds.
pub proof fn law_interval_is_found_anew(c: CacheView, now: u64)
    ensures
        ({
            let d = touch_refreshed(c, now);
            &&& now < c.next_touch_interval_refresh_ms ==> d == c
            &&& now >= c.next_touch_interval_refresh_ms ==> d.touch_interval_ms == touch_interval(
                c.store.entries.dom().len() as usize,
                c.store.cache_size,
            )
            &&& now >= c.next_touch_interval_refresh_ms && now + 1000 <= u64::MAX
                ==> d.next_touch_interval_refresh_ms == now + 1000
            &&& d.store == c.store
        }),
{
}

/// A cleanup begins where room is asked for or a minute has passed since the last, but
/// never while another is under way.
pub proof fn law_cleanup_begins(s: CleanupState, pressure: bool, now: u64)
    ensures
        s.in_progress ==> !cleanup_wanted(s, pressure, now),
        !s.in_progress && pressure ==> cleanup_wanted(s, pressure, now),
        !s.in_progress && !pressure ==> (cleanup_wanted(s, pressure, now) <==> now
            >= s.last_cleanup_ms + 60000),
{
}

/// A cleanup that looks at all entries takes out all that have expired, and no other as long
/// as no more than ninety-five of a hundred places are taken; where more are, it leaves
/// eighty-five of a hundred, and takes out those that have not been used for longest.
pub proof fn law_cleanup(s: StoreView, t: StoreView, now: u64, r: (usize, usize, usize))
    requires
        prune_outcome(s, t, cleanup_mode(s.cache_size), now, r),
        s.entries.dom().finite(),
        s.entries.dom().len() <= 4096,
    ensures
        forall|k: CacheKeyView| #[trigger]
            t.entries.dom().contains(k) ==> s.entries.dom().contains(k) && t.entries[k]
                == s.entries[k] && s.entries[k].expire_at_ms > now,
        ({
            let left = s.entries.dom().len() - r.0;
            &&& left <= s.cache_size * 95 / 100 ==> r.1 == 0 && t.entries.dom().len() == left
            &&& left > s.cache_size * 95 / 100 ==> t.entries.dom().len() == s.cache_size * 85 / 100
        }),
        forall|gone: CacheKeyView, stays: CacheKeyView|
            s.entries.dom().contains(gone) && s.entries[gone].expire_at_ms > now && !(
            #[trigger] t.entries.dom().contains(gone)) && #[trigger] t.entries.dom().contains(stays)
                ==> s.entries[gone].last_access_ms <= s.entries[stays].last_access_ms,
{
    let mode = cleanup_mode(s.cache_size);
    let bounds = crate::ttl_cache::prune_bounds(mode);
    let sample = choose|sample: Set<CacheKeyView>| #[trigger]
        crate::ttl_cache::pruned(
            s.entries,
            t.entries,
            now,
            bounds.0,
            bounds.1,
            bounds.2,
            sample,
            r,
        );
    vstd::set_lib::lemma_subset_equality(sample, s.entries.dom());
    assert forall|k: CacheKeyView| #[trigger] t.entries.dom().contains(k) implies s.entries.dom().contains(
        k,
    ) && t.entries[k] == s.entries[k] && s.entries[k].expire_at_ms > now by {
        assert(sample.contains(k));
    }
}

/// A cache that is cut to its size holds no more entries than it may, and none that has
/// expired.
pub proof fn law_cut_to_size(
    s: StoreView,
    t: StoreView,
    size: usize,
    now: u64,
    r: (usize, usize, usize),
)
    requires
        prune_outcome(s, t, TtlCachePruneMode::Exact { max_size: size }, now, r),
        s.entries.dom().finite(),
        s.entries.dom().len() <= usize::MAX,
    ensures
        t.entries.dom().len() <= size,
        forall|k: CacheKeyView| #[trigger]
            t.entries.dom().contains(k) ==> s.entries.dom().contains(k) && t.entries[k]
                == s.entries[k] && s.entries[k].expire_at_ms > now,
        s.entries.dom().len() - r.0 <= size ==> r.1 == 0,
        s.entries.dom().len() - r.0 > size ==> t.entries.dom().len() == size,
{
    let sample = choose|sample: Set<CacheKeyView>| #[trigger]
        crate::ttl_cache::pruned(
            s.entries,
            t.entries,
            now,
            usize::MAX,
            size as int,
            size as int,
            sample,
            r,
        );
    vstd::set_lib::lemma_subset_equality(sample, s.entries.dom());
    assert forall|k: CacheKeyView| #[trigger] t.entries.dom().contains(k) implies s.entries.dom().contains(
        k,
    ) && t.entries[k] == s.entries[k] && s.entries[k].expire_at_ms > now by {
        assert(sample.contains(k));
    }
}

/// A dump is due where enough has changed, or where a change that is not saved has waited
/// long enough, or will have before the next look.
pub proof fn law_dump_is_due(
    s: CacheMutationState,
    now: u64,
    minimum: u64,
    max_age: u64,
    interval: u64,
)
    requires
        s.dirty_since_ms <= now,
    ensures
        dump_due(s, now, minimum, max_age, interval) <==> s.updated_keys >= minimum || (
        s.dirty_generation != s.persisted_generation && s.dirty_since_ms != 0 && (now
            - s.dirty_since_ms) + interval >= max_age),
        age_due(now, s.dirty_since_ms, max_age, interval) <==> s.dirty_since_ms != 0 && (now
            - s.dirty_since_ms) + interval >= max_age,
{
}

/// Changes are counted, and the time of the oldest one that is not saved is kept. A dump takes
/// both over, and gives them back where it fails.
pub proof fn law_changes_are_noted(s: CacheMutationState, changes: u64, now: u64)
    requires
        changes > 0,
        now > 0,
    ensures
        ({
            let t = with_changes(s, changes, now);
            &&& s.updated_keys + changes <= u64::MAX ==> t.updated_keys == s.updated_keys + changes
            &&& s.dirty_since_ms == 0 ==> t.dirty_since_ms == now
            &&& s.dirty_since_ms != 0 ==> t.dirty_since_ms == s.dirty_since_ms
            &&& s.dirty_generation < u64::MAX ==> t.dirty_generation == s.dirty_generation + 1
            &&& t.persisted_generation == s.persisted_generation
            &&& dump_begun(t).updated_keys == 0 && dump_begun(t).dirty_since_ms == 0
            &&& handoff_of(t).changed == t.updated_keys
            &&& handoff_of(t).previous_dirty_since_ms == t.dirty_since_ms
            &&& handoff_of(t).generation == t.dirty_generation
            &&& rolled_back(dump_begun(t), handoff_of(t)) == t
        }),
        with_changes(s, 0, now) == s,
        s.dirty_since_ms == 0 ==> with_changes(s, changes, 0).dirty_since_ms == 1,
{
}

/// A cache that is emptied or replaced counts as many changes as entries left and came.
pub proof fn law_replacing_counts(retired: nat, published: usize)
    ensures
        retired + published <= u64::MAX ==> replaced_count(retired, published) == retired
            + published,
        retired + published > u64::MAX ==> replaced_count(retired, published) == u64::MAX,
{
}

/// A refresh begins exactly where something can fetch, none failed a short while ago, there is
/// a place for it, the entry is not being refreshed, and the cache is not shutting down.
pub proof fn law_refresh_begins(
    c: CacheView,
    key: CacheKeyView,
    item: CacheItemView,
    has_next: bool,
    now: u64,
)
    requires
        c.refreshes < usize::MAX,
    ensures
        ({
            let a = admission(c, key, item, has_next, now);
            let d = admitted(c, key, a);
            &&& a == RefreshAdmission::Started <==> has_next && now
                >= item.lazy_refresh_retry_after_ms && c.refreshes < c.refresh_limit
                && !c.refreshing.contains(flight_id(key)) && c.accepting
            &&& a == RefreshAdmission::Cooldown <==> has_next && now
                < item.lazy_refresh_retry_after_ms
            &&& a == RefreshAdmission::Duplicate <==> has_next && now
                >= item.lazy_refresh_retry_after_ms && c.refreshing.contains(flight_id(key))
            &&& a == RefreshAdmission::Busy <==> has_next && now >= item.lazy_refresh_retry_after_ms
                && c.refreshes >= c.refresh_limit && !c.refreshing.contains(flight_id(key))
            &&& a == RefreshAdmission::Started ==> d.refreshes == c.refreshes + 1
                && d.refreshing.contains(flight_id(key)) && d.store.metrics.lazy_refresh_started_total
                == c.store.metrics.lazy_refresh_started_total.wrapping_add(1)
            &&& a != RefreshAdmission::Started ==> d.refreshes == c.refreshes && d.refreshing
                == c.refreshing && d.store.metrics.lazy_refresh_started_total
                == c.store.metrics.lazy_refresh_started_total
            &&& d.store.entries == c.store.entries
            &&& d.store.metrics.lazy_refresh_skipped_busy_total == (if a == RefreshAdmission::Busy {
                c.store.metrics.lazy_refresh_skipped_busy_total.wrapping_add(1)
            } else {
                c.store.metrics.lazy_refresh_skipped_busy_total
            })
            &&& d.store.metrics.lazy_refresh_skipped_cooldown_total == (if a
                == RefreshAdmission::Cooldown {
                c.store.metrics.lazy_refresh_skipped_cooldown_total.wrapping_add(1)
            } else {
                c.store.metrics.lazy_refresh_skipped_cooldown_total
            })
        }),
{
}

/// A refresh that fails, or comes back cut, leaves the entry and puts the next try off; one
/// that is cancelled leaves everything. Either way its place is free again.
pub proof fn law_failed_refresh(
    c: CacheView,
    key: CacheKeyView,
    request: CacheKeyView,
    generation: u64,
    outcome: RefreshOutcomeView,
    now: u64,
)
    requires
        outcome is Response ==> outcome->Response_0.truncated,
    ensures
        ({
            let s = refresh_result(c, key, request, generation, outcome, now);
            let d = refreshed(c, key, request, generation, outcome, now);
            let held = c.store.entries.dom().contains(key) && c.store.entries[key].generation
                == generation;
            &&& outcome is Cancelled ==> s == c.store
            &&& !(outcome is Cancelled) ==> s.metrics.lazy_refresh_failed_total
                == c.store.metrics.lazy_refresh_failed_total.wrapping_add(1)
            &&& s.entries.dom() == c.store.entries.dom()
            &&& held ==> s.entries[key].value.resp == c.store.entries[key].value.resp
                && s.entries[key].expire_at_ms == c.store.entries[key].expire_at_ms
                && s.entries[key].value.fresh_until_ms == c.store.entries[key].value.fresh_until_ms
            &&& held && !(outcome is Cancelled) && now + cooldown_ms(c) <= u64::MAX
                ==> s.entries[key].value.lazy_refresh_retry_after_ms == now + cooldown_ms(c)
            &&& forall|o: CacheKeyView| o != key ==> #[trigger] s.entries[o] == c.store.entries[o]
            &&& c.refreshes > 0 ==> d.refreshes == c.refreshes - 1
            &&& !d.refreshing.contains(flight_id(key))
        }),
{
    let s = refresh_result(c, key, request, generation, outcome, now);
    assert(s.entries.dom() =~= c.store.entries.dom());
}

/// The time for which a failed refresh is not tried again is what is configured, and half a
/// minute where nothing is.
pub proof fn law_refresh_cooldown(c: CacheView)
    ensures
        c.config.lazy_refresh_failure_cooldown is None ==> cooldown_ms(c) == 30000,
        c.config.lazy_refresh_failure_cooldown matches Some(secs) ==> (secs * 1000 <= u64::MAX
            ==> cooldown_ms(c) == secs * 1000),
{
}

/// A response is written with its TTL from now on, where there is room for it: an entry with
/// its key is there already, or fewer are there than there may be. Without room nothing
/// is written, and room is asked for.
pub proof fn law_response_is_written(
    c: CacheView,
    key: CacheKeyView,
    response: MessageView,
    ttl: u32,
    d: ResponseDisposition,
    now: u64,
)
    ensures
        ({
            let (e, written) = updated(c, key, response, ttl, d, now);
            match response_key(key, response) {
                None => !written && e == c,
                Some(k) => {
                    &&& written <==> c.store.entries.dom().contains(k)
                        || c.store.entries.dom().len() < c.store.cache_size
                    &&& !written ==> e.store.entries == c.store.entries && e.store.pressure
                    &&& written ==> ({
                        let slot = e.store.entries[k];
                        &&& e.store.entries.dom().contains(k)
                        &&& slot.value.resp == response
                        &&& slot.value.ttl == ttl
                        &&& slot.value.cache_age_offset_ms == 0
                        &&& slot.value.validation == CacheEntryValidation::Validated
                        &&& slot.value.lazy_refresh_retry_after_ms == 0
                        &&& slot.cache_time_ms == now && slot.last_access_ms == now
                        &&& now + ttl * 1000 <= u64::MAX ==> slot.value.fresh_until_ms == now + ttl
                            * 1000 && slot.expire_at_ms >= now + ttl * 1000
                        &&& c.config.lazy_cache_ttl is None || d
                            != ResponseDisposition::CompletePositive ==> slot.expire_at_ms
                            == slot.value.fresh_until_ms
                        &&& (c.config.lazy_cache_ttl matches Some(lazy) && d
                            == ResponseDisposition::CompletePositive && lazy >= ttl && now + lazy
                            * 1000 <= u64::MAX) ==> slot.expire_at_ms == now
                            + c.config.lazy_cache_ttl->0 * 1000
                    })
                    &&& forall|o: CacheKeyView|
                        o != k ==> #[trigger] e.store.entries[o] == c.store.entries[o]
                },
            }
        }),
{
}

/// What a configuration leaves open has a default.
pub proof fn law_defaults(tag: String, config: CacheConfig)
    ensures
        ({
            let c = built(tag, config);
            &&& c.store.entries.dom().len() == 0
            &&& c.config == config
            &&& c.store.cache_size == (match config.size {
                Some(n) => n,
                None => 1024,
            })
            &&& c.cache_negative == (config.cache_negative != Some(false))
            &&& c.short_circuit == (config.short_circuit == Some(true))
            &&& c.ecs_in_key == (config.ecs_in_key == Some(true))
            &&& c.max_negative_ttl == (match config.max_negative_ttl {
                Some(n) => n,
                None => 300,
            })
            &&& c.negative_ttl_without_soa == (match config.negative_ttl_without_soa {
                Some(n) => n,
                None => 60,
            })
            &&& c.refresh_limit == (match config.lazy_refresh_concurrency {
                Some(n) => n,
                None => 64,
            })
            &&& c.accepting && c.refreshes == 0
        }),
{
}

/// Misses are the same exactly where their keys agree in the name, the numbers of type and
/// class, the flags and the subnet.
pub proof fn law_misses_are_told_apart(a: CacheKeyView, b: CacheKeyView)
    ensures
        flight_id(a) == flight_id(b) <==> a.domain == b.domain && a.record_type.number()
            == b.record_type.number() && a.dns_class.number() == b.dns_class.number() && a.do_bit
            == b.do_bit && a.cd_bit == b.cd_bit && a.ecs_scope == b.ecs_scope,
{
}

/// The first miss of a key leads, and those that come while it is under way follow it, unless
/// they are part of it. Another key is not touched by any of this.
pub proof fn law_first_miss_leads(
    c: CoalescerView,
    key: CacheKeyView,
    ancestors: Seq<u64>,
    flight: u64,
    other: CacheKeyView,
)
    requires
        flight_id(other) != flight_id(key),
    ensures
        ({
            let (d, role) = registered(c, key, ancestors);
            let under_way = c.flights.dom().contains(flight_id(key));
            &&& role is Leader <==> !under_way
            &&& role matches MissRole::Leader(n) ==> n == c.next_id && d.flights.dom().contains(
                flight_id(key),
            ) && d.flights[flight_id(key)] == n && d.next_id == c.next_id.wrapping_add(1)
            &&& role is Reentrant <==> under_way && ancestors.contains(c.flights[flight_id(key)])
            &&& role matches MissRole::Follower(n) ==> n == c.flights[flight_id(key)]
            &&& under_way ==> d == c
            &&& d.flights.dom().contains(flight_id(other)) <==> c.flights.dom().contains(
                flight_id(other),
            )
        }),
        ({
            let d = landed(c, key, flight);
            &&& d.flights.dom().contains(flight_id(other)) <==> c.flights.dom().contains(
                flight_id(other),
            )
            &&& d.flights.dom().contains(flight_id(key)) <==> c.flights.dom().contains(
                flight_id(key),
            ) && c.flights[flight_id(key)] != flight
            &&& d.next_id == c.next_id
        }),
{
}

/// What a request is told: an answer and the end of the chain, where that is wanted, for a hit;
/// to fetch or to wait, and no answer, for a miss; to go on where it cannot be cached. A
/// refresh goes with nothing but a stale answer.
pub proof fn law_first_step(
    c: CacheView,
    request: MessageView,
    ancestors: Seq<u64>,
    has_next: bool,
    now: u64,
)
    ensures
        ({
            let (d, step) = begun(c, request, ancestors, has_next, now);
            match tried(c, request, now).1 {
                None => step.action is Continue && step.response is None && step.refresh is None,
                Some((LookupView::Miss { key }, _)) => {
                    &&& step.response is None && step.refresh is None
                    &&& !(step.action is Stop)
                    &&& step.action matches ExecuteView::Lead(_, k) ==> k == key
                    &&& step.action is Lead <==> !c.coalescer.flights.dom().contains(flight_id(key))
                },
                Some((LookupView::Fresh { .. }, answer)) => {
                    &&& step.response == answer && answer is Some && step.refresh is None
                    &&& step.action is Stop <==> c.short_circuit
                    &&& step.action is Continue <==> !c.short_circuit
                },
                Some((LookupView::Stale { key, request_key, entry }, answer)) => {
                    &&& step.response == answer && answer is Some
                    &&& step.action is Stop <==> c.short_circuit
                    &&& step.action is Continue <==> !c.short_circuit
                    &&& step.refresh matches Some(r) ==> r.key == key && r.request_key
                        == request_key && r.generation == entry.generation && has_next
                },
            }
        }),
{
}

/// A request that has waited goes on by itself, unless the other has cached its response; then
/// it is looked up again and told as any hit. A wait that took too long is counted.
pub proof fn law_after_the_wait(
    c: CacheView,
    request: MessageView,
    timed_out: bool,
    ready: bool,
    now: u64,
)
    ensures
        ({
            let (d, step) = waited(c, request, timed_out, ready, now);
            &&& !ready ==> step.action is Continue && step.response is None && d.store.entries
                == c.store.entries
            &&& step.refresh is None
            &&& step.response is None ==> step.action is Continue
            &&& step.response is Some ==> ready && (step.action is Stop <==> c.short_circuit)
            &&& !ready ==> d.store.metrics.miss_coalesce_timeout_total == (if timed_out {
                c.store.metrics.miss_coalesce_timeout_total.wrapping_add(1)
            } else {
                c.store.metrics.miss_coalesce_timeout_total
            })
        }),
{
}

/// The numbers by which a cache runs where nothing else is said.
pub proof fn law_numbers_of_caches()
    ensures
        DEFAULT_DUMP_INTERVAL == 600,
        MINIMUM_CHANGES_TO_DUMP == 1024,
        MAX_CACHE_DUMP_BODY == 16 * 1024 * 1024,
        PRUNE_SAMPLE == 4096,
{
}

/// A refreshed response takes the place of the entry that was refreshed, where that is still
/// there and it belongs under the same key; where the entry has been replaced meanwhile,
/// nothing is written, and that counts as a failure.
pub proof fn law_successful_refresh(
    c: CacheView,
    key: CacheKeyView,
    request: CacheKeyView,
    generation: u64,
    m: MessageView,
    ttl: u32,
    now: u64,
)
    requires
        !m.truncated,
        ttl_decision(m, request.dns_class, cache_disposition(m, request), policy_of(c))
            == CacheTtlDecision::Cache(ttl),
        response_key(request, m) == Some(key),
    ensures
        ({
            let s = refresh_result(
                c,
                key,
                request,
                generation,
                RefreshOutcomeView::Response(m),
                now,
            );
            let held = c.store.entries.dom().contains(key) && c.store.entries[key].generation
                == generation;
            &&& held ==> {
                &&& s.entries.dom().contains(key)
                &&& s.entries[key].value.resp == m
                &&& s.entries[key].value.ttl == ttl
                &&& s.entries[key].cache_time_ms == now
                &&& s.entries[key].last_access_ms == now
                &&& s.entries[key].value.lazy_refresh_retry_after_ms == 0
                &&& now + ttl * 1000 <= u64::MAX ==> s.entries[key].value.fresh_until_ms == now
                    + ttl * 1000
                &&& s.metrics.lazy_refresh_success_total
                    == c.store.metrics.lazy_refresh_success_total.wrapping_add(1)
                &&& s.metrics.lazy_refresh_failed_total
                    == c.store.metrics.lazy_refresh_failed_total
            }
            &&& !held ==> s.entries == c.store.entries && s.metrics.lazy_refresh_failed_total
                == c.store.metrics.lazy_refresh_failed_total.wrapping_add(1)
                && s.metrics.lazy_refresh_success_total
                == c.store.metrics.lazy_refresh_success_total
            &&& forall|o: CacheKeyView| o != key ==> #[trigger] s.entries[o] == c.store.entries[o]
        }),
{
}

/// A refreshed response that lasts too short a time takes the entry out, where that is still
/// there; one that may not be cached for another reason leaves it, and puts the next try
/// off. Both count as failures.
pub proof fn law_refresh_that_is_not_cached(
    c: CacheView,
    key: CacheKeyView,
    request: CacheKeyView,
    generation: u64,
    m: MessageView,
    reason: CacheSkipReason,
    now: u64,
)
    requires
        !m.truncated,
        ttl_decision(m, request.dns_class, cache_disposition(m, request), policy_of(c))
            == CacheTtlDecision::Skip(reason),
    ensures
        ({
            let s = refresh_result(
                c,
                key,
                request,
                generation,
                RefreshOutcomeView::Response(m),
                now,
            );
            let held = c.store.entries.dom().contains(key) && c.store.entries[key].generation
                == generation;
            let low = reason == CacheSkipReason::LowPositiveTtl;
            &&& s.metrics.lazy_refresh_failed_total
                == c.store.metrics.lazy_refresh_failed_total.wrapping_add(1)
            &&& held && low ==> !s.entries.dom().contains(key)
            &&& held && !low ==> s.entries.dom().contains(key) && s.entries[key].value.resp
                == c.store.entries[key].value.resp
            &&& held && !low && now + cooldown_ms(c) <= u64::MAX
                ==> s.entries[key].value.lazy_refresh_retry_after_ms == now + cooldown_ms(c)
            &&& !held ==> s.entries == c.store.entries
            &&& forall|o: CacheKeyView| o != key ==> #[trigger] s.entries[o] == c.store.entries[o]
        }),
{
}

} // verus!
