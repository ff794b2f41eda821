//! The cache as an executor of DNS requests.

use vstd::prelude::*;

use crate::cache::config::{
    config_problem, parse_cache_quick_setup, quick_tokens, validate_cache_config, CacheConfig,
};
use crate::cache::ecs_index::{EcsIndexView, EcsLookupIndex};
use crate::cache::flights::{
    flight_id, landed, no_flights, registered, CoalescerView, FlightIdView, MissCoalescer, MissRole,
    RefreshSet,
};
use crate::cache::item::{CacheEntryValidation, CacheItem, CacheItemView};
use crate::cache::key::{
    build_cache_key, cache_key_for_response_ecs_scope, request_key, response_key, CacheKey,
    CacheKeyView,
};
use crate::cache::metrics::{
    collect, metric_samples, sample_views, with_skip, zero_metrics, CacheMetrics, MetricSample,
};
use crate::cache::mutation::{
    dump_begun, dump_due, handoff_of, CacheDumpHandoff, CacheMutationState,
};
use crate::cache::persistence::collect::{selected, PreparedView, RankedView};
use crate::cache::persistence::error::{DumpError, DumpErrorView, MAX_PERSISTED_CACHE_DUMP_BYTES};
use crate::cache::persistence::load::{load_outcome, loadable, LoadSetting};
use crate::cache::policy::{
    cache_disposition, compute_cache_ttl_with_policy, compute_expire_time, compute_fresh_until_ms,
    compute_negative_ttl_with_policy, compute_positive_ttl_with_policy, expires_at, fresh_until,
    negative_decision, positive_decision, response_disposition_for_cache, ttl_decision,
    CacheLoadPolicy, CacheSkipReason, CacheTtlDecision, DEFAULT_MAX_NEGATIVE_TTL,
    DEFAULT_NEGATIVE_TTL_WITHOUT_SOA,
};
use crate::cache::restore::{
    fresh_answer, restore_fresh_cached_message, restore_stale_cached_message, stale_answer,
};
use crate::cache::store::{
    deferred, entries_of, holds, load_state, looked_up, moved, prune_outcome, with_entry, without,
    CacheMap, DnsCacheLookup, DnsCacheStore, LookupView, StoreView, TtlCacheConditionalMoveResult,
    TtlCacheMoveMetadata,
};
use crate::error::{DnsError, DnsErrorView};
use crate::proto::message::{min_ttl, Message, MessageView};
use crate::proto::response::ResponseDisposition;
use crate::text::words;
use crate::ttl_cache::{TtlCache, TtlCachePruneMode};

verus! {

/// The number of entries where none is configured.
pub const DEFAULT_CACHE_SIZE: usize = 1024;

/// The seconds between periodic cleanups.
pub const DEFAULT_CLEANUP_INTERVAL: u64 = 60;

/// The seconds between dumps where none is configured.
pub const DEFAULT_DUMP_INTERVAL: u64 = 600;

/// The changes after which a dump is due in any case.
pub const MINIMUM_CHANGES_TO_DUMP: u64 = 1024;

/// How long unsaved changes may wait, unless dumps are less frequent, in milliseconds.
pub const DIRTY_DUMP_TARGET_MS: u64 = 120000;

/// For how long a touch interval holds, in milliseconds.
pub const TOUCH_INTERVAL_REFRESH_MS: u64 = 1000;

/// The occupancy from which hits are noted, in percent.
pub const TOUCH_LOW_OCCUPANCY_PERCENT: usize = 50;

/// The occupancy from which hits are noted more often, in percent.
pub const TOUCH_MEDIUM_OCCUPANCY_PERCENT: usize = 75;

/// The occupancy from which hits are noted most often, in percent.
pub const TOUCH_HIGH_OCCUPANCY_PERCENT: usize = 90;

/// The touch interval from the low occupancy on, in milliseconds.
pub const TOUCH_MEDIUM_INTERVAL_MS: u64 = 30000;

/// The touch interval from the medium occupancy on, in milliseconds.
pub const TOUCH_HIGH_INTERVAL_MS: u64 = 5000;

/// The touch interval from the high occupancy on, and the shortest there is, in milliseconds.
pub const TOUCH_CRITICAL_INTERVAL_MS: u64 = 1000;

/// Up to this size, a cache is small.
pub const SMALL_CACHE_TOUCH_SIZE: usize = 4096;

/// Up to this size, a cache is of medium size.
pub const MEDIUM_CACHE_TOUCH_SIZE: usize = 32768;

/// The largest capacity with which a cache begins.
pub const MAX_INITIAL_CACHE_CAPACITY: usize = 16384;

/// The occupancy from which entries have to make room, in percent.
pub const EVICT_HIGH_WATERMARK_PERCENT: usize = 95;

/// The occupancy at which enough room has been made, in percent.
pub const EVICT_LOW_WATERMARK_PERCENT: usize = 85;

/// The refreshes at the same time where no number is configured.
pub const DEFAULT_LAZY_REFRESH_CONCURRENCY: usize = 64;

/// The seconds after a failed refresh where no number is configured.
pub const DEFAULT_LAZY_REFRESH_FAILURE_COOLDOWN_SECS: u64 = 30;

/// Seconds in milliseconds, as far as they can be told.
pub open spec fn in_millis(secs: u64) -> u64 {
    if secs * 1000 > u64::MAX {
        u64::MAX
    } else {
        (secs * 1000) as u64
    }
}

fn to_millis(secs: u64) -> (r: u64)
    ensures
        r == in_millis(secs),
{
    match secs.checked_mul(1000) {
        Some(ms) => ms,
        None => u64::MAX,
    }
}

/// The times of periodic dumps: the interval in seconds and milliseconds, and the age
/// of unsaved changes at which a dump is due. The interval is never undercut.
pub open spec fn schedule(dump_interval: u64) -> (u64, u64, u64) {
    let interval = if dump_interval >= 1 {
        dump_interval
    } else {
        1
    };
    let check = in_millis(interval);
    let age = if check > DIRTY_DUMP_TARGET_MS {
        check
    } else {
        DIRTY_DUMP_TARGET_MS
    };
    (interval, check, age)
}

/// The times of periodic dumps.
pub fn dump_schedule(dump_interval: u64) -> (r: (u64, u64, u64))
    ensures
        r == schedule(dump_interval),
{
    let interval: u64 = if dump_interval >= 1 {
        dump_interval
    } else {
        1
    };
    let check_interval_ms: u64 = to_millis(interval);
    let dirty_age_target_ms: u64 = if check_interval_ms > DIRTY_DUMP_TARGET_MS {
        check_interval_ms
    } else {
        DIRTY_DUMP_TARGET_MS
    };
    (interval, check_interval_ms, dirty_age_target_ms)
}

/// The capacity with which a cache begins.
pub open spec fn capacity_for(cache_size: usize) -> usize {
    if cache_size < 1 {
        1
    } else if cache_size > MAX_INITIAL_CACHE_CAPACITY {
        MAX_INITIAL_CACHE_CAPACITY
    } else {
        cache_size
    }
}

/// The number of entries for which room is made at first.
pub fn initial_cache_capacity(cache_size: usize) -> (r: usize)
    ensures
        r == capacity_for(cache_size),
{
    if cache_size < 1 {
        1
    } else if cache_size > MAX_INITIAL_CACHE_CAPACITY {
        MAX_INITIAL_CACHE_CAPACITY
    } else {
        cache_size
    }
}

/// The share of the cache that is in use, in percent.
pub open spec fn occupancy(cache_len: usize, cache_size: usize) -> int {
    let hundredfold = if cache_len * 100 > usize::MAX {
        usize::MAX as int
    } else {
        cache_len * 100
    };
    hundredfold / (if cache_size < 1 {
        1
    } else {
        cache_size as int
    })
}

/// A touch interval for the size of the cache: small caches touch more often.
pub open spec fn scaled_touch(interval_ms: u64, cache_size: usize) -> u64 {
    let scaled = if cache_size <= SMALL_CACHE_TOUCH_SIZE {
        interval_ms / 4
    } else {
        interval_ms / 2
    };
    if interval_ms == 0 {
        0
    } else if cache_size > MEDIUM_CACHE_TOUCH_SIZE {
        interval_ms
    } else if scaled < TOUCH_CRITICAL_INTERVAL_MS {
        TOUCH_CRITICAL_INTERVAL_MS
    } else {
        scaled
    }
}

/// How long an entry must not have been used before a hit is noted: the fuller the
/// cache, the shorter. Zero means that hits are not noted.
pub open spec fn touch_interval(cache_len: usize, cache_size: usize) -> u64 {
    let percent = occupancy(cache_len, cache_size);
    scaled_touch(
        if percent < TOUCH_LOW_OCCUPANCY_PERCENT {
            0
        } else if percent < TOUCH_MEDIUM_OCCUPANCY_PERCENT {
            TOUCH_MEDIUM_INTERVAL_MS
        } else if percent < TOUCH_HIGH_OCCUPANCY_PERCENT {
            TOUCH_HIGH_INTERVAL_MS
        } else {
            TOUCH_CRITICAL_INTERVAL_MS
        },
        cache_size,
    )
}

/// An interval as it is used in a cache of this size.
pub fn scale_touch_interval_ms(interval_ms: u64, cache_size: usize) -> (r: u64)
    ensures
        r == scaled_touch(interval_ms, cache_size),
{
    if interval_ms == 0 {
        return 0;
    }
    if cache_size > MEDIUM_CACHE_TOUCH_SIZE {
        return interval_ms;
    }
    let scaled: u64 = if cache_size <= SMALL_CACHE_TOUCH_SIZE {
        interval_ms / 4
    } else {
        interval_ms / 2
    };
    if scaled < TOUCH_CRITICAL_INTERVAL_MS {
        TOUCH_CRITICAL_INTERVAL_MS
    } else {
        scaled
    }
}

/// How long an entry must not have been used before a hit is noted.
pub fn adaptive_touch_interval_ms(cache_len: usize, cache_size: usize) -> (r: u64)
    ensures
        r == touch_interval(cache_len, cache_size),
{
    let size: usize = if cache_size < 1 {
        1
    } else {
        cache_size
    };
    let hundredfold: usize = match cache_len.checked_mul(100) {
        Some(n) => n,
        None => usize::MAX,
    };
    let occupancy_percent: usize = hundredfold / size;
    let interval: u64 = if occupancy_percent < TOUCH_LOW_OCCUPANCY_PERCENT {
        0
    } else if occupancy_percent < TOUCH_MEDIUM_OCCUPANCY_PERCENT {
        TOUCH_MEDIUM_INTERVAL_MS
    } else if occupancy_percent < TOUCH_HIGH_OCCUPANCY_PERCENT {
        TOUCH_HIGH_INTERVAL_MS
    } else {
        TOUCH_CRITICAL_INTERVAL_MS
    };
    scale_touch_interval_ms(interval, cache_size)
}

/// When the cache was last cleaned up, and whether it is being cleaned up.
#[derive(Debug, Clone, Copy, PartialEq, Eq, Structural)]
pub struct CleanupState {
    pub last_cleanup_ms: u64,
    pub in_progress: bool,
}

/// Whether a cleanup is to begin: room has been asked for or the last one is long ago,
/// and none is under way.
pub open spec fn cleanup_wanted(s: CleanupState, pressure: bool, now_ms: u64) -> bool {
    (pressure || now_ms - s.last_cleanup_ms >= DEFAULT_CLEANUP_INTERVAL * 1000) && !s.in_progress
}

impl CleanupState {
    pub fn new() -> (r: CleanupState)
        ensures
            r == (CleanupState { last_cleanup_ms: 0, in_progress: false }),
    {
        CleanupState { last_cleanup_ms: 0, in_progress: false }
    }

    /// Begins a cleanup where one is wanted.
    pub fn begin(&mut self, pressure: bool, now_ms: u64) -> (r: bool)
        ensures
            r == cleanup_wanted(*old(self), pressure, now_ms),
            *final(self) == (if r {
                CleanupState { last_cleanup_ms: now_ms, in_progress: true }
            } else {
                *old(self)
            }),
    {
        let periodic_due = now_ms.saturating_sub(self.last_cleanup_ms) >= DEFAULT_CLEANUP_INTERVAL
            * 1000;
        if !pressure && !periodic_due {
            return false;
        }
        if self.in_progress {
            return false;
        }
        self.last_cleanup_ms = now_ms;
        self.in_progress = true;
        true
    }

    /// Ends a cleanup.
    pub fn end(&mut self)
        ensures
            *final(self) == (CleanupState { in_progress: false, ..*old(self) }),
    {
        self.in_progress = false;
    }
}

/// How a cache of a given size is cleaned up.
pub open spec fn cleanup_mode(cache_size: usize) -> TtlCachePruneMode {
    TtlCachePruneMode::Periodic {
        max_size: cache_size,
        high_watermark_pct: EVICT_HIGH_WATERMARK_PERCENT,
        low_watermark_pct: EVICT_LOW_WATERMARK_PERCENT,
    }
}

/// Cleans a cache up.
pub fn cleanup(store: &mut DnsCacheStore, now_ms: u64) -> (r: (usize, usize, usize))
    requires
        old(store).wf(),
    ensures
        final(store).wf(),
        prune_outcome(
            old(store)@,
            final(store)@,
            cleanup_mode(old(store)@.cache_size),
            now_ms,
            r,
        ),
{
    let max_size: usize = store.cache_size();
    store.prune(
        TtlCachePruneMode::Periodic {
            max_size,
            high_watermark_pct: EVICT_HIGH_WATERMARK_PERCENT,
            low_watermark_pct: EVICT_LOW_WATERMARK_PERCENT,
        },
        now_ms,
    )
}

/// The mathematical content of a [`Cache`].
pub struct CacheView {
    pub store: StoreView,
    pub cache_negative: bool,
    pub max_negative_ttl: u32,
    pub negative_ttl_without_soa: u32,
    pub config: CacheConfig,
    pub short_circuit: bool,
    pub ecs_in_key: bool,
    /// The keys whose entries are being refreshed.
    pub refreshing: Set<FlightIdView>,
    /// The number of refreshes under way, and how many there may be.
    pub refreshes: usize,
    pub refresh_limit: usize,
    /// Whether refreshes may begin.
    pub accepting: bool,
    pub coalescer: CoalescerView,
    pub touch_interval_ms: u64,
    pub next_touch_interval_refresh_ms: u64,
}

/// The response cache.
pub struct Cache {
    store: DnsCacheStore,
    cache_negative: bool,
    max_negative_ttl: u32,
    negative_ttl_without_soa: u32,
    config: CacheConfig,
    short_circuit: bool,
    ecs_in_key: bool,
    lazy_refresh_inflight: RefreshSet,
    lazy_refreshes: usize,
    lazy_refresh_limit: usize,
    lazy_refresh_accepting: bool,
    miss_coalescer: MissCoalescer,
    touch_interval_ms: u64,
    next_touch_interval_refresh_ms: u64,
}

/// The limits of a cache.
pub open spec fn policy_of(c: CacheView) -> CacheLoadPolicy {
    CacheLoadPolicy {
        lazy_cache_ttl: c.config.lazy_cache_ttl,
        cache_negative: c.cache_negative,
        max_negative_ttl: c.max_negative_ttl,
        negative_ttl_without_soa: c.negative_ttl_without_soa,
        max_positive_ttl: c.config.max_positive_ttl,
        min_positive_ttl: c.config.min_positive_ttl,
    }
}

/// An empty store.
pub open spec fn empty_store(tag: String, cache_size: usize) -> StoreView {
    StoreView {
        entries: Map::empty(),
        next_generation: 1,
        cache_size,
        index: EcsIndexView {
            hints: Set::empty(),
            rebuild: None,
            stale_revision: 0,
            rebuilt_revision: 0,
        },
        pressure: false,
        mutations: CacheMutationState {
            updated_keys: 0,
            dirty_since_ms: 0,
            dirty_generation: 0,
            persisted_generation: 0,
        },
        metrics: zero_metrics(tag),
    }
}

/// A configured value or its default.
pub open spec fn value_or<T>(v: Option<T>, default: T) -> T {
    match v {
        Some(x) => x,
        None => default,
    }
}

/// The cache that a configuration gives.
pub open spec fn built(tag: String, config: CacheConfig) -> CacheView {
    CacheView {
        store: empty_store(tag, value_or(config.size, DEFAULT_CACHE_SIZE)),
        cache_negative: value_or(config.cache_negative, true),
        max_negative_ttl: value_or(config.max_negative_ttl, DEFAULT_MAX_NEGATIVE_TTL),
        negative_ttl_without_soa: value_or(
            config.negative_ttl_without_soa,
            DEFAULT_NEGATIVE_TTL_WITHOUT_SOA,
        ),
        config,
        short_circuit: value_or(config.short_circuit, false),
        ecs_in_key: value_or(config.ecs_in_key, false),
        refreshing: Set::empty(),
        refreshes: 0,
        refresh_limit: value_or(config.lazy_refresh_concurrency, DEFAULT_LAZY_REFRESH_CONCURRENCY),
        accepting: true,
        coalescer: CoalescerView { flights: no_flights(), next_id: 1 },
        touch_interval_ms: 0,
        next_touch_interval_refresh_ms: 0,
    }
}

/// The touch interval in use at `now`, which is found anew once in a while.
pub open spec fn touch_refreshed(c: CacheView, now: u64) -> CacheView {
    if now < c.next_touch_interval_refresh_ms {
        c
    } else {
        CacheView {
            touch_interval_ms: touch_interval(
                c.store.entries.dom().len() as usize,
                c.store.cache_size,
            ),
            next_touch_interval_refresh_ms: crate::cache::item::later(
                now,
                TOUCH_INTERVAL_REFRESH_MS as int,
            ),
            ..c
        }
    }
}

/// The TTL of a stale answer.
pub open spec fn stale_ttl(c: CacheView, item: CacheItemView) -> u32 {
    match c.config.lazy_cache_ttl {
        Some(lazy) => if lazy <= item.ttl {
            lazy
        } else {
            item.ttl
        },
        None => item.ttl,
    }
}

/// The answer to a request that a lookup gives.
pub open spec fn answer_of(c: CacheView, request: MessageView, found: LookupView, now: u64) -> Option<
    MessageView,
> {
    match found {
        LookupView::Fresh { entry, remaining_ttl } => Some(
            fresh_answer(
                entry.item.resp,
                request,
                entry.item.age(entry.cache_time_ms, now),
                remaining_ttl,
            ),
        ),
        LookupView::Stale { entry, .. } => Some(
            stale_answer(entry.item.resp, request, stale_ttl(c, entry.item)),
        ),
        LookupView::Miss { .. } => None,
    }
}

/// Looking a request up. A request without a key is not looked up.
pub open spec fn tried(c: CacheView, request: MessageView, now: u64) -> (
    CacheView,
    Option<(LookupView, Option<MessageView>)>,
) {
    match request_key(request, c.ecs_in_key) {
        None => (c, None),
        Some(key) => {
            let d = touch_refreshed(c, now);
            let (store, found) = looked_up(
                d.store,
                key,
                now,
                d.touch_interval_ms,
                c.config.lazy_cache_ttl is Some,
            );
            (CacheView { store, ..d }, Some((found, answer_of(c, request, found, now))))
        },
    }
}

/// The view of an optional message.
pub open spec fn message_view(m: Option<Message>) -> Option<MessageView> {
    match m {
        Some(m) => Some(m@),
        None => None,
    }
}

/// Writing a response with the TTL that it has been given.
pub open spec fn updated(
    c: CacheView,
    key: CacheKeyView,
    response: MessageView,
    ttl: u32,
    d: ResponseDisposition,
    now: u64,
) -> (CacheView, bool) {
    match response_key(key, response) {
        None => (c, false),
        Some(k) => {
            let enable_lazy = c.config.lazy_cache_ttl is Some && d.spec_is_complete_positive();
            let room = c.store.entries.dom().contains(k) || c.store.entries.dom().len()
                < c.store.cache_size;
            let item = CacheItemView::fresh(
                response,
                ttl,
                fresh_until(now, ttl),
                0,
                CacheEntryValidation::Validated,
            );
            let times = TtlCacheMoveMetadata {
                cache_time_ms: now,
                expire_at_ms: expires_at(now, ttl, c.config.lazy_cache_ttl, enable_lazy),
                last_access_ms: now,
            };
            (
                CacheView {
                    store: if room {
                        with_entry(c.store, k, item, times, now)
                    } else {
                        StoreView { pressure: true, ..c.store }
                    },
                    ..c
                },
                room,
            )
        },
    }
}

/// Loading a dump: the entries are taken, then the cache is cut to its size.
pub open spec fn persisted_load(
    all: Seq<RankedView>,
    s: StoreView,
    t: StoreView,
    loaded: usize,
    counts: (usize, usize, usize),
    now_ms: u64,
) -> bool {
    exists|prepared: Seq<PreparedView>, mid: StoreView|
        #![trigger selected(all, s.cache_size, prepared), load_state(mid)]
        selected(all, s.cache_size, prepared) && load_outcome(
            load_state(s),
            load_state(mid),
            false,
            prepared,
            loaded,
        ) && mid == (StoreView {
            entries: mid.entries,
            next_generation: mid.next_generation,
            index: mid.index,
            ..s
        }) && prune_outcome(
            mid,
            t,
            TtlCachePruneMode::Exact { max_size: s.cache_size },
            now_ms,
            counts,
        )
}

/// A cache with other counters.
pub open spec fn counted(c: CacheView, metrics: CacheMetrics) -> CacheView {
    CacheView { store: StoreView { metrics, ..c.store }, ..c }
}

/// What the leader of a miss does with the response that came back.
pub open spec fn led(c: CacheView, key: CacheKeyView, response: Option<MessageView>, now: u64) -> (
    CacheView,
    bool,
) {
    match response {
        None => (c, false),
        Some(m) => {
            let d = cache_disposition(m, key);
            let metrics = c.store.metrics;
            if m.truncated {
                (
                    counted(
                        c,
                        CacheMetrics {
                            skip_truncated_total: metrics.skip_truncated_total.wrapping_add(1),
                            ..metrics
                        },
                    ),
                    false,
                )
            } else {
                match ttl_decision(m, key.dns_class, d, policy_of(c)) {
                    CacheTtlDecision::Cache(ttl) => updated(c, key, m, ttl, d, now),
                    CacheTtlDecision::Skip(reason) => (
                        counted(c, with_skip(metrics, reason)),
                        false,
                    ),
                }
            }
        },
    }
}

/// What became of the wish to refresh a stale entry.
#[derive(Debug, Clone, Copy, PartialEq, Eq, Structural)]
pub enum RefreshAdmission {
    /// There is nothing that could fetch.
    NoNext,
    /// A refresh failed a short while ago.
    Cooldown,
    /// As many refreshes are under way as may be.
    Busy,
    /// The entry is being refreshed already.
    Duplicate,
    /// The cache is shutting down.
    Closed,
    /// The refresh has begun.
    Started,
}

/// Whether a refresh may begin.
pub open spec fn admission(
    c: CacheView,
    key: CacheKeyView,
    item: CacheItemView,
    has_next: bool,
    now: u64,
) -> RefreshAdmission {
    let running = c.refreshing.contains(flight_id(key));
    if !has_next {
        RefreshAdmission::NoNext
    } else if now < item.lazy_refresh_retry_after_ms {
        RefreshAdmission::Cooldown
    } else if c.refreshes >= c.refresh_limit {
        if running {
            RefreshAdmission::Duplicate
        } else {
            RefreshAdmission::Busy
        }
    } else if running {
        RefreshAdmission::Duplicate
    } else if !c.accepting {
        RefreshAdmission::Closed
    } else {
        RefreshAdmission::Started
    }
}

/// The cache after an admission.
pub open spec fn admitted(c: CacheView, key: CacheKeyView, a: RefreshAdmission) -> CacheView {
    let m = c.store.metrics;
    match a {
        RefreshAdmission::Cooldown => counted(
            c,
            CacheMetrics {
                lazy_refresh_skipped_cooldown_total: m.lazy_refresh_skipped_cooldown_total.wrapping_add(
                    1,
                ),
                ..m
            },
        ),
        RefreshAdmission::Busy => counted(
            c,
            CacheMetrics {
                lazy_refresh_skipped_busy_total: m.lazy_refresh_skipped_busy_total.wrapping_add(1),
                ..m
            },
        ),
        RefreshAdmission::Started => CacheView {
            refreshing: c.refreshing.insert(flight_id(key)),
            refreshes: (c.refreshes + 1) as usize,
            ..counted(
                c,
                CacheMetrics {
                    lazy_refresh_started_total: m.lazy_refresh_started_total.wrapping_add(1),
                    ..m
                },
            )
        },
        _ => c,
    }
}

/// What a refresh brought.
#[derive(Debug, PartialEq, Eq)]
pub enum RefreshOutcome {
    /// A response.
    Response(Message),
    /// The chain ended without a response, with an error, or not in time.
    Failed,
    /// The cache is shutting down.
    Cancelled,
}

/// The mathematical content of a [`RefreshOutcome`].
pub enum RefreshOutcomeView {
    Response(MessageView),
    Failed,
    Cancelled,
}

impl View for RefreshOutcome {
    type V = RefreshOutcomeView;

    open spec fn view(&self) -> RefreshOutcomeView {
        match self {
            RefreshOutcome::Response(m) => RefreshOutcomeView::Response(m@),
            RefreshOutcome::Failed => RefreshOutcomeView::Failed,
            RefreshOutcome::Cancelled => RefreshOutcomeView::Cancelled,
        }
    }
}

/// The milliseconds after a failed refresh.
pub open spec fn cooldown_ms(c: CacheView) -> u64 {
    in_millis(
        value_or(
            c.config.lazy_refresh_failure_cooldown,
            DEFAULT_LAZY_REFRESH_FAILURE_COOLDOWN_SECS,
        ),
    )
}

/// The store after a failed refresh: the counter, and, where `defer` says so, the next
/// try put off.
pub open spec fn refresh_failed(
    c: CacheView,
    s: StoreView,
    key: CacheKeyView,
    generation: u64,
    defer: bool,
    now: u64,
) -> StoreView {
    let t = if defer {
        deferred(s, key, generation, now, cooldown_ms(c))
    } else {
        s
    };
    StoreView {
        metrics: CacheMetrics {
            lazy_refresh_failed_total: t.metrics.lazy_refresh_failed_total.wrapping_add(1),
            ..t.metrics
        },
        ..t
    }
}

/// The store after a refreshed response has been written in place of the entry of this
/// generation, or moved to the key that it belongs under.
pub open spec fn refresh_written(
    c: CacheView,
    key: CacheKeyView,
    target: CacheKeyView,
    generation: u64,
    response: MessageView,
    ttl: u32,
    d: ResponseDisposition,
    now: u64,
) -> (StoreView, bool) {
    let enable_lazy = c.config.lazy_cache_ttl is Some && d.spec_is_complete_positive();
    let item = CacheItemView::fresh(
        response,
        ttl,
        fresh_until(now, ttl),
        0,
        CacheEntryValidation::Validated,
    );
    let times = TtlCacheMoveMetadata {
        cache_time_ms: now,
        expire_at_ms: expires_at(now, ttl, c.config.lazy_cache_ttl, enable_lazy),
        last_access_ms: now,
    };
    if target == key {
        if holds(c.store, key, generation) {
            (with_entry(c.store, key, item, times, now), true)
        } else {
            (
                StoreView {
                    index: crate::cache::store::index_stale(
                        crate::cache::store::index_with(c.store.index, key),
                        key,
                    ),
                    ..c.store
                },
                false,
            )
        }
    } else {
        let m = moved(c.store, key, target, generation, item, times, now);
        (m.0, m.1 == TtlCacheConditionalMoveResult::Moved)
    }
}

/// The store after a refresh.
pub open spec fn refresh_result(
    c: CacheView,
    key: CacheKeyView,
    request: CacheKeyView,
    generation: u64,
    outcome: RefreshOutcomeView,
    now: u64,
) -> StoreView {
    match outcome {
        RefreshOutcomeView::Cancelled => c.store,
        RefreshOutcomeView::Failed => refresh_failed(c, c.store, key, generation, true, now),
        RefreshOutcomeView::Response(m) => {
            let d = cache_disposition(m, request);
            if m.truncated {
                refresh_failed(c, c.store, key, generation, true, now)
            } else {
                match ttl_decision(m, request.dns_class, d, policy_of(c)) {
                    CacheTtlDecision::Cache(ttl) => match response_key(request, m) {
                        None => refresh_failed(c, c.store, key, generation, true, now),
                        Some(target) => {
                            let (s, inserted) = refresh_written(
                                c,
                                key,
                                target,
                                generation,
                                m,
                                ttl,
                                d,
                                now,
                            );
                            if inserted {
                                StoreView {
                                    metrics: CacheMetrics {
                                        lazy_refresh_success_total:
                                            s.metrics.lazy_refresh_success_total.wrapping_add(1),
                                        ..s.metrics
                                    },
                                    ..s
                                }
                            } else {
                                refresh_failed(c, s, key, generation, false, now)
                            }
                        },
                    },
                    CacheTtlDecision::Skip(reason) => {
                        let low = reason == CacheSkipReason::LowPositiveTtl;
                        let s = if low && holds(c.store, key, generation) {
                            without(c.store, key, now)
                        } else {
                            c.store
                        };
                        let t = refresh_failed(c, s, key, generation, !low, now);
                        StoreView { metrics: with_skip(t.metrics, reason), ..t }
                    },
                }
            }
        },
    }
}

/// The cache after a refresh: another may begin.
pub open spec fn refreshed(
    c: CacheView,
    key: CacheKeyView,
    request: CacheKeyView,
    generation: u64,
    outcome: RefreshOutcomeView,
    now: u64,
) -> CacheView {
    CacheView {
        store: refresh_result(c, key, request, generation, outcome, now),
        refreshing: c.refreshing.remove(flight_id(key)),
        refreshes: if c.refreshes > 0 {
            (c.refreshes - 1) as usize
        } else {
            0
        },
        ..c
    }
}

/// What to do with a request.
#[derive(Debug, PartialEq, Eq)]
pub enum ExecuteAction {
    /// The chain ends here.
    Stop,
    /// The chain goes on.
    Continue,
    /// Wait for the flight with this number.
    Wait(u64),
    /// The chain goes on as the flight with this number, for this key.
    Lead(u64, CacheKey),
}

/// The mathematical content of an [`ExecuteAction`].
pub enum ExecuteView {
    Stop,
    Continue,
    Wait(u64),
    Lead(u64, CacheKeyView),
}

impl View for ExecuteAction {
    type V = ExecuteView;

    open spec fn view(&self) -> ExecuteView {
        match self {
            ExecuteAction::Stop => ExecuteView::Stop,
            ExecuteAction::Continue => ExecuteView::Continue,
            ExecuteAction::Wait(f) => ExecuteView::Wait(*f),
            ExecuteAction::Lead(f, k) => ExecuteView::Lead(*f, k@),
        }
    }
}

/// A refresh that has begun: the key of the stale entry, that of the request and the
/// generation of the entry.
#[derive(Debug, PartialEq, Eq)]
pub struct LazyRefresh {
    pub key: CacheKey,
    pub request_key: CacheKey,
    pub generation: u64,
}

/// The mathematical content of a [`LazyRefresh`].
pub struct LazyRefreshView {
    pub key: CacheKeyView,
    pub request_key: CacheKeyView,
    pub generation: u64,
}

/// The first step of a request.
#[derive(Debug, PartialEq, Eq)]
pub struct ExecuteStep {
    pub action: ExecuteAction,
    /// The answer from the cache.
    pub response: Option<Message>,
    /// A refresh to run in the background.
    pub refresh: Option<LazyRefresh>,
}

/// The mathematical content of an [`ExecuteStep`].
pub struct ExecuteStepView {
    pub action: ExecuteView,
    pub response: Option<MessageView>,
    pub refresh: Option<LazyRefreshView>,
}

impl View for ExecuteStep {
    type V = ExecuteStepView;

    open spec fn view(&self) -> ExecuteStepView {
        ExecuteStepView {
            action: self.action@,
            response: message_view(self.response),
            refresh: match self.refresh {
                Some(r) => Some(
                    LazyRefreshView {
                        key: r.key@,
                        request_key: r.request_key@,
                        generation: r.generation,
                    },
                ),
                None => None,
            },
        }
    }
}

/// A hit: the chain ends here or goes on, as configured.
pub open spec fn hit_action(c: CacheView) -> ExecuteView {
    if c.short_circuit {
        ExecuteView::Stop
    } else {
        ExecuteView::Continue
    }
}

/// The part that a miss takes.
pub open spec fn missed(c: CacheView, key: CacheKeyView, ancestors: Seq<u64>) -> (
    CacheView,
    ExecuteView,
) {
    let (coalescer, role) = registered(c.coalescer, key, ancestors);
    let d = CacheView { coalescer, ..c };
    let m = c.store.metrics;
    match role {
        MissRole::Follower(flight) => (
            counted(
                d,
                CacheMetrics {
                    miss_coalesced_total: m.miss_coalesced_total.wrapping_add(1),
                    ..m
                },
            ),
            ExecuteView::Wait(flight),
        ),
        MissRole::Reentrant => (
            counted(
                d,
                CacheMetrics {
                    miss_coalesce_reentrant_total: m.miss_coalesce_reentrant_total.wrapping_add(1),
                    ..m
                },
            ),
            ExecuteView::Continue,
        ),
        MissRole::Leader(flight) => (d, ExecuteView::Lead(flight, key)),
    }
}

/// The first step of a request.
pub open spec fn begun(
    c: CacheView,
    request: MessageView,
    ancestors: Seq<u64>,
    has_next: bool,
    now: u64,
) -> (CacheView, ExecuteStepView) {
    let (d, found) = tried(c, request, now);
    match found {
        None => (
            d,
            ExecuteStepView { action: ExecuteView::Continue, response: None, refresh: None },
        ),
        Some((LookupView::Miss { key }, _)) => {
            let (e, action) = missed(d, key, ancestors);
            (e, ExecuteStepView { action, response: None, refresh: None })
        },
        Some((LookupView::Fresh { .. }, answer)) => (
            d,
            ExecuteStepView { action: hit_action(d), response: answer, refresh: None },
        ),
        Some((LookupView::Stale { key, request_key, entry }, answer)) => {
            let a = admission(d, key, entry.item, has_next, now);
            (
                admitted(d, key, a),
                ExecuteStepView {
                    action: hit_action(d),
                    response: answer,
                    refresh: if a == RefreshAdmission::Started {
                        Some(
                            LazyRefreshView { key, request_key, generation: entry.generation },
                        )
                    } else {
                        None
                    },
                },
            )
        },
    }
}

/// The step of a request that has waited for another's flight. `ready` tells whether
/// that flight cached its response.
pub open spec fn waited(
    c: CacheView,
    request: MessageView,
    timed_out: bool,
    ready: bool,
    now: u64,
) -> (CacheView, ExecuteStepView) {
    let m = c.store.metrics;
    let d = if timed_out {
        counted(
            c,
            CacheMetrics {
                miss_coalesce_timeout_total: m.miss_coalesce_timeout_total.wrapping_add(1),
                ..m
            },
        )
    } else {
        c
    };
    let go_on = ExecuteStepView { action: ExecuteView::Continue, response: None, refresh: None };
    if !ready {
        (d, go_on)
    } else {
        let (e, found) = tried(d, request, now);
        match found {
            Some((lookup, answer)) if !(lookup is Miss) => (
                e,
                ExecuteStepView { action: hit_action(e), response: answer, refresh: None },
            ),
            _ => (e, go_on),
        }
    }
}

/// The end of a flight: what came back is cached, where it may be, and the key is free
/// again.
pub open spec fn flown(
    c: CacheView,
    key: CacheKeyView,
    flight: u64,
    response: Option<MessageView>,
    now: u64,
) -> (CacheView, bool) {
    let (d, cached) = led(c, key, response, now);
    (CacheView { coalescer: landed(d.coalescer, key, flight), ..d }, cached)
}

impl Cache {
    pub closed spec fn view(&self) -> CacheView {
        CacheView {
            store: self.store@,
            cache_negative: self.cache_negative,
            max_negative_ttl: self.max_negative_ttl,
            negative_ttl_without_soa: self.negative_ttl_without_soa,
            config: self.config,
            short_circuit: self.short_circuit,
            ecs_in_key: self.ecs_in_key,
            refreshing: self.lazy_refresh_inflight@,
            refreshes: self.lazy_refreshes,
            refresh_limit: self.lazy_refresh_limit,
            accepting: self.lazy_refresh_accepting,
            coalescer: self.miss_coalescer@,
            touch_interval_ms: self.touch_interval_ms,
            next_touch_interval_refresh_ms: self.next_touch_interval_refresh_ms,
        }
    }

    pub closed spec fn wf(&self) -> bool {
        self.store.wf()
    }

    /// An empty store.
    pub fn new_store(tag: String, cache_size: usize) -> (r: DnsCacheStore)
        ensures
            r.wf(),
            r@ == empty_store(tag, cache_size),
    {
        let cache_map: CacheMap = TtlCache::with_capacity(initial_cache_capacity(cache_size));
        assert(entries_of(cache_map@) =~= Map::empty());
        DnsCacheStore::new(
            cache_map,
            cache_size,
            EcsLookupIndex::new(),
            CacheMetrics::new(tag),
        )
    }

    /// The entries and their bookkeeping.
    pub fn store(&self) -> (r: &DnsCacheStore)
        requires
            self.wf(),
        ensures
            r.wf(),
            r@ == self@.store,
    {
        &self.store
    }

    /// The store, for changes.
    pub fn store_mut(&mut self) -> (r: &mut DnsCacheStore)
        requires
            old(self).wf(),
        ensures
            r.wf(),
            r@ == old(self)@.store,
            final(r).wf() ==> final(self).wf(),
            final(self)@ == (CacheView { store: final(r)@, ..old(self)@ }),
    {
        &mut self.store
    }

    /// Takes the entries of a dump that was kept, and cuts the cache to its size.
    pub fn load_persisted(&mut self, data: &[u8], now_elapsed_ms: u64, now_unix_ms: u64) -> (r:
        Result<(usize, (usize, usize, usize)), DumpError>)
        requires
            old(self).wf(),
        ensures
            final(self).wf(),
            final(self)@ == (CacheView { store: final(self)@.store, ..old(self)@ }),
            ({
                let all = loadable(
                    data@,
                    MAX_PERSISTED_CACHE_DUMP_BYTES,
                    (LoadSetting {
                        ecs_in_key: old(self)@.ecs_in_key,
                        policy: policy_of(old(self)@),
                        now_elapsed_ms,
                        now_unix_ms,
                    }),
                );
                match r {
                    Ok((n, counts)) => {
                        &&& all is Ok
                        &&& persisted_load(
                            all->Ok_0,
                            old(self)@.store,
                            final(self)@.store,
                            n,
                            counts,
                            now_elapsed_ms,
                        )
                    },
                    Err(e) => {
                        &&& all == Err::<Seq<RankedView>, DumpErrorView>(e@)
                        &&& final(self)@ == old(self)@
                    },
                }
            }),
    {
        let policy = self.cache_load_policy();
        let max_size: usize = self.store.cache_size();
        let ghost before = self.store@;
        let loaded: usize = match self.store.load_dump::<MAX_PERSISTED_CACHE_DUMP_BYTES>(
            data,
            self.ecs_in_key,
            policy,
            max_size,
            now_elapsed_ms,
            now_unix_ms,
        ) {
            Ok(n) => n,
            Err(e) => return Err(e),
        };
        let ghost mid = self.store@;
        let counts = self.store.prune(TtlCachePruneMode::Exact { max_size }, now_elapsed_ms);
        assert(prune_outcome(
            mid,
            self.store@,
            TtlCachePruneMode::Exact { max_size: before.cache_size },
            now_elapsed_ms,
            counts,
        ));
        Ok((loaded, counts))
    }

    /// Begins a dump of the unsaved changes, where one is due.
    pub fn begin_dump(&mut self, now_ms: u64) -> (r: Option<CacheDumpHandoff>)
        requires
            old(self).wf(),
        ensures
            final(self).wf(),
            ({
                let times = schedule(
                    value_or(old(self)@.config.dump_interval, DEFAULT_DUMP_INTERVAL),
                );
                let state = old(self)@.store.mutations;
                let due = dump_due(state, now_ms, MINIMUM_CHANGES_TO_DUMP, times.2, times.1);
                &&& r is Some <==> due
                &&& r is Some ==> r->0 == handoff_of(state)
                &&& final(self)@ == (CacheView {
                    store: StoreView {
                        mutations: if due {
                            dump_begun(state)
                        } else {
                            state
                        },
                        ..old(self)@.store
                    },
                    ..old(self)@
                })
            }),
    {
        let interval: u64 = match self.config.dump_interval {
            Some(n) => n,
            None => DEFAULT_DUMP_INTERVAL,
        };
        let (_, check_interval_ms, dirty_age_target_ms) = dump_schedule(interval);
        self.store.begin_dump_if_due(
            now_ms,
            MINIMUM_CHANGES_TO_DUMP,
            dirty_age_target_ms,
            check_interval_ms,
        )
    }

    /// The limits that apply to cached responses.
    pub fn cache_load_policy(&self) -> (r: CacheLoadPolicy)
        ensures
            r == policy_of(self@),
    {
        CacheLoadPolicy {
            lazy_cache_ttl: self.config.lazy_cache_ttl,
            cache_negative: self.cache_negative,
            max_negative_ttl: self.max_negative_ttl,
            negative_ttl_without_soa: self.negative_ttl_without_soa,
            max_positive_ttl: self.config.max_positive_ttl,
            min_positive_ttl: self.config.min_positive_ttl,
        }
    }

    /// All samples of the cache.
    pub fn collect(&self) -> (r: Vec<MetricSample>)
        requires
            self.wf(),
        ensures
            sample_views(r@) == metric_samples(
                self@.store.metrics,
                (crate::cache::ecs_index::family_hints(self@.store.index.hints, 1).len()
                    % crate::cache::ecs_index::counter_range()) as u64,
                (crate::cache::ecs_index::family_hints(self@.store.index.hints, 2).len()
                    % crate::cache::ecs_index::counter_range()) as u64,
                self@.store.entries.dom().len() as u64,
            ),
    {
        collect(
            self.store.metrics(),
            self.store.ecs_lookup_index().observed_ipv4_prefixes(),
            self.store.ecs_lookup_index().observed_ipv6_prefixes(),
            self.store.entry_count() as u64,
        )
    }

    /// The touch interval in use.
    pub fn current_touch_interval_ms(&mut self, now: u64) -> (r: u64)
        requires
            old(self).wf(),
        ensures
            final(self).wf(),
            final(self)@ == touch_refreshed(old(self)@, now),
            r == final(self)@.touch_interval_ms,
    {
        if now < self.next_touch_interval_refresh_ms {
            return self.touch_interval_ms;
        }
        self.next_touch_interval_refresh_ms = now.saturating_add(TOUCH_INTERVAL_REFRESH_MS);
        let interval: u64 = adaptive_touch_interval_ms(
            self.store.entry_count(),
            self.store.cache_size(),
        );
        self.touch_interval_ms = interval;
        interval
    }

    /// The TTL of a stale answer.
    pub fn stale_reply_ttl(&self, item: &CacheItem) -> (r: u32)
        ensures
            r == stale_ttl(self@, item@),
    {
        match self.config.lazy_cache_ttl {
            Some(lazy) => if lazy <= item.ttl {
                lazy
            } else {
                item.ttl
            },
            None => item.ttl,
        }
    }

    /// The answer to a request that a lookup gives.
    fn answer_from(&self, lookup: &DnsCacheLookup, request: &Message, now: u64) -> (r: Option<
        Message,
    >)
        requires
            request.questions@.len() > 0,
        ensures
            message_view(r) == answer_of(self@, request@, lookup@, now),
    {
        match lookup {
            DnsCacheLookup::Fresh { entry, remaining_ttl } => {
                let age: u64 = entry.item.total_cache_age_ms(entry.cache_time_ms, now);
                Some(restore_fresh_cached_message(&entry.item, request, age, *remaining_ttl))
            },
            DnsCacheLookup::Stale { entry, .. } => {
                let ttl: u32 = self.stale_reply_ttl(&entry.item);
                let mut response = restore_stale_cached_message(&entry.item, request, ttl);
                response.authentic_data = false;
                Some(response)
            },
            DnsCacheLookup::Miss { .. } => None,
        }
    }

    /// Looks a request up. Returns what was found and the answer that it gives.
    pub fn try_cache_hit(&mut self, request: &Message, now: u64) -> (r: Option<
        (DnsCacheLookup, Option<Message>),
    >)
        requires
            old(self).wf(),
        ensures
            final(self).wf(),
            ({
                let t = tried(old(self)@, request@, now);
                &&& final(self)@ == t.0
                &&& match r {
                    None => t.1 is None,
                    Some((found, answer)) => t.1 == Some((found@, message_view(answer))),
                }
            }),
    {
        let ghost c = self@;
        let key = match build_cache_key(request, self.ecs_in_key) {
            Some(k) => k,
            None => return None,
        };
        assert(request@.questions.len() == 1);
        let touch_interval_ms: u64 = self.current_touch_interval_ms(now);
        let lookup = self.store.lookup(
            key,
            now,
            touch_interval_ms,
            self.config.lazy_cache_ttl.is_some(),
        );
        let answer = self.answer_from(&lookup, request, now);
        assert(self.config.lazy_cache_ttl == c.config.lazy_cache_ttl);
        Some((lookup, answer))
    }

    /// Whether a hit ends the chain.
    pub fn should_short_circuit(&self, cache_hit: bool) -> (r: bool)
        ensures
            r == (cache_hit && self@.short_circuit),
    {
        cache_hit && self.short_circuit
    }

    /// The decision on a positive response with a known disposition.
    pub fn compute_positive_ttl_for_disposition(
        &self,
        response: &Message,
        disposition: ResponseDisposition,
    ) -> (r: CacheTtlDecision)
        ensures
            r == (if disposition is CompletePositive {
                positive_decision(
                    min_ttl(response@.answers),
                    self@.config.max_positive_ttl,
                    self@.config.min_positive_ttl,
                )
            } else {
                CacheTtlDecision::Skip(CacheSkipReason::NoTtl)
            }),
    {
        if !disposition.is_complete_positive() {
            return CacheTtlDecision::Skip(CacheSkipReason::NoTtl);
        }
        compute_positive_ttl_with_policy(
            response,
            self.config.max_positive_ttl,
            self.config.min_positive_ttl,
        )
    }

    /// The TTL of a negative response with a known disposition.
    pub fn compute_negative_ttl_for_disposition(
        &self,
        response: &Message,
        key: &CacheKey,
        disposition: ResponseDisposition,
    ) -> (r: Option<u32>)
        ensures
            r == (if disposition is DefinitiveNegative {
                negative_decision(
                    response@,
                    key@.dns_class,
                    self@.cache_negative,
                    self@.max_negative_ttl,
                    self@.negative_ttl_without_soa,
                )
            } else {
                None
            }),
    {
        if disposition.negative_kind().is_none() {
            return None;
        }
        compute_negative_ttl_with_policy(
            response,
            key,
            self.cache_negative,
            self.max_negative_ttl,
            self.negative_ttl_without_soa,
        )
    }

    /// The decision on a response with a known disposition.
    pub fn compute_cache_ttl_for_disposition(
        &self,
        response: &Message,
        key: &CacheKey,
        disposition: ResponseDisposition,
    ) -> (r: CacheTtlDecision)
        ensures
            r == ttl_decision(response@, key@.dns_class, disposition, policy_of(self@)),
    {
        match disposition {
            ResponseDisposition::CompletePositive => self.compute_positive_ttl_for_disposition(
                response,
                disposition,
            ),
            ResponseDisposition::DefinitiveNegative(_) => {
                match self.compute_negative_ttl_for_disposition(response, key, disposition) {
                    Some(ttl) => CacheTtlDecision::Cache(ttl),
                    None => CacheTtlDecision::Skip(CacheSkipReason::NoTtl),
                }
            },
            ResponseDisposition::IncompleteAlias => CacheTtlDecision::Skip(
                CacheSkipReason::IncompleteAnswer,
            ),
            ResponseDisposition::Other => CacheTtlDecision::Skip(CacheSkipReason::NoTtl),
        }
    }

    /// The TTL of a negative response.
    pub fn compute_negative_ttl(&self, response: &Message, key: &CacheKey) -> (r: Option<u32>)
        ensures
            r == (if cache_disposition(response@, key@) is DefinitiveNegative {
                negative_decision(
                    response@,
                    key@.dns_class,
                    self@.cache_negative,
                    self@.max_negative_ttl,
                    self@.negative_ttl_without_soa,
                )
            } else {
                None
            }),
    {
        let disposition = response_disposition_for_cache(response, key);
        self.compute_negative_ttl_for_disposition(response, key, disposition)
    }

    /// The decision on a response.
    pub fn compute_cache_ttl(&self, response: &Message, key: &CacheKey) -> (r: CacheTtlDecision)
        ensures
            r == ttl_decision(
                response@,
                key@.dns_class,
                cache_disposition(response@, key@),
                policy_of(self@),
            ),
    {
        let disposition = response_disposition_for_cache(response, key);
        self.compute_cache_ttl_for_disposition(response, key, disposition)
    }

    /// Writes a response with the TTL that it has been given.
    pub fn update_cache_entry(
        &mut self,
        key: &CacheKey,
        response: Message,
        ttl: u32,
        disposition: ResponseDisposition,
        now: u64,
    ) -> (r: bool)
        requires
            old(self).wf(),
            key@.wf(),
        ensures
            final(self).wf(),
            (final(self)@, r) == updated(old(self)@, key@, response@, ttl, disposition, now),
    {
        let key = match cache_key_for_response_ecs_scope(key, &response) {
            Some(k) => k,
            None => return false,
        };
        let fresh_until_ms: u64 = compute_fresh_until_ms(now, ttl);
        let enable_lazy = self.config.lazy_cache_ttl.is_some() && disposition.is_complete_positive();
        let expire_time: u64 = compute_expire_time(
            now,
            ttl,
            self.config.lazy_cache_ttl,
            enable_lazy,
        );
        let item = CacheItem::new_validated(response, ttl, fresh_until_ms);
        self.store.insert_or_update(key, item, now, expire_time, now, now)
    }

    /// Begins to refresh a stale entry, where that may be.
    pub fn try_start_lazy_refresh(
        &mut self,
        cache_key: &CacheKey,
        item: &CacheItem,
        has_next: bool,
        now: u64,
    ) -> (r: RefreshAdmission)
        requires
            old(self).wf(),
        ensures
            final(self).wf(),
            r == admission(old(self)@, cache_key@, item@, has_next, now),
            final(self)@ == admitted(old(self)@, cache_key@, r),
    {
        if !has_next {
            return RefreshAdmission::NoNext;
        }
        if !item.lazy_refresh_retry_allowed(now) {
            let mut metrics = copy_metrics(self.store.metrics());
            metrics.lazy_refresh_skipped_cooldown_total =
                metrics.lazy_refresh_skipped_cooldown_total.wrapping_add(1);
            self.store.set_metrics(metrics);
            return RefreshAdmission::Cooldown;
        }
        if self.lazy_refreshes >= self.lazy_refresh_limit {
            if self.lazy_refresh_inflight.contains(cache_key) {
                return RefreshAdmission::Duplicate;
            }
            let mut metrics = copy_metrics(self.store.metrics());
            metrics.lazy_refresh_skipped_busy_total =
                metrics.lazy_refresh_skipped_busy_total.wrapping_add(1);
            self.store.set_metrics(metrics);
            return RefreshAdmission::Busy;
        }
        if self.lazy_refresh_inflight.contains(cache_key) {
            return RefreshAdmission::Duplicate;
        }
        if !self.lazy_refresh_accepting {
            return RefreshAdmission::Closed;
        }
        self.lazy_refresh_inflight.insert(cache_key);
        self.lazy_refreshes = self.lazy_refreshes + 1;
        let mut metrics = copy_metrics(self.store.metrics());
        metrics.lazy_refresh_started_total = metrics.lazy_refresh_started_total.wrapping_add(1);
        self.store.set_metrics(metrics);
        RefreshAdmission::Started
    }

    /// No refresh begins any more.
    pub fn close_lazy_refresh(&mut self)
        requires
            old(self).wf(),
        ensures
            final(self).wf(),
            final(self)@ == (CacheView { accepting: false, ..old(self)@ }),
    {
        self.lazy_refresh_accepting = false;
    }

    fn count_refresh_failed(&mut self)
        requires
            old(self).wf(),
        ensures
            final(self).wf(),
            final(self)@ == (CacheView {
                store: StoreView {
                    metrics: CacheMetrics {
                        lazy_refresh_failed_total:
                            old(self)@.store.metrics.lazy_refresh_failed_total.wrapping_add(1),
                        ..old(self)@.store.metrics
                    },
                    ..old(self)@.store
                },
                ..old(self)@
            }),
    {
        let mut metrics = copy_metrics(self.store.metrics());
        metrics.lazy_refresh_failed_total = metrics.lazy_refresh_failed_total.wrapping_add(1);
        self.store.set_metrics(metrics);
    }

    fn fail_refresh(&mut self, key: &CacheKey, generation: u64, now: u64)
        requires
            old(self).wf(),
        ensures
            final(self).wf(),
            final(self)@ == (CacheView {
                store: refresh_failed(
                    old(self)@,
                    old(self)@.store,
                    key@,
                    generation,
                    true,
                    now,
                ),
                ..old(self)@
            }),
    {
        let secs: u64 = match self.config.lazy_refresh_failure_cooldown {
            Some(s) => s,
            None => DEFAULT_LAZY_REFRESH_FAILURE_COOLDOWN_SECS,
        };
        self.store.defer_lazy_refresh(key, generation, now, to_millis(secs));
        self.count_refresh_failed();
    }

    /// Writes a refreshed response.
    fn write_refreshed(
        &mut self,
        key: &CacheKey,
        target: CacheKey,
        generation: u64,
        response: Message,
        ttl: u32,
        disposition: ResponseDisposition,
        now: u64,
    ) -> (r: bool)
        requires
            old(self).wf(),
        ensures
            final(self).wf(),
            ({
                let w = refresh_written(
                    old(self)@,
                    key@,
                    target@,
                    generation,
                    response@,
                    ttl,
                    disposition,
                    now,
                );
                final(self)@ == (CacheView { store: w.0, ..old(self)@ }) && r == w.1
            }),
    {
        let fresh_until_ms: u64 = compute_fresh_until_ms(now, ttl);
        let enable_lazy = self.config.lazy_cache_ttl.is_some() && disposition.is_complete_positive();
        let expire_at_ms: u64 = compute_expire_time(
            now,
            ttl,
            self.config.lazy_cache_ttl,
            enable_lazy,
        );
        let new_item = CacheItem::new_validated(response, ttl, fresh_until_ms);
        if target.same(key) {
            self.store.replace_handle(target, generation, new_item, now, expire_at_ms, now, now)
        } else {
            match self.store.conditional_move_handle(
                key,
                target,
                generation,
                new_item,
                TtlCacheMoveMetadata { cache_time_ms: now, expire_at_ms, last_access_ms: now },
                now,
            ) {
                TtlCacheConditionalMoveResult::Moved => true,
                _ => false,
            }
        }
    }

    /// The part of ending a refresh that changes entries and counters.
    fn apply_refresh(
        &mut self,
        key: &CacheKey,
        request_key: &CacheKey,
        generation: u64,
        outcome: RefreshOutcome,
        now: u64,
    )
        requires
            old(self).wf(),
            request_key@.wf(),
        ensures
            final(self).wf(),
            final(self)@ == (CacheView {
                store: refresh_result(
                    old(self)@,
                    key@,
                    request_key@,
                    generation,
                    outcome@,
                    now,
                ),
                ..old(self)@
            }),
    {
        let response = match outcome {
            RefreshOutcome::Cancelled => return,
            RefreshOutcome::Failed => {
                self.fail_refresh(key, generation, now);
                return;
            },
            RefreshOutcome::Response(m) => m,
        };
        if response.truncated {
            self.fail_refresh(key, generation, now);
            return;
        }
        let (decision, disposition) = compute_cache_ttl_with_policy(
            &response,
            request_key,
            self.config.max_positive_ttl,
            self.config.min_positive_ttl,
            self.cache_negative,
            self.max_negative_ttl,
            self.negative_ttl_without_soa,
        );
        match decision {
            CacheTtlDecision::Cache(ttl) => {
                match cache_key_for_response_ecs_scope(request_key, &response) {
                    None => {
                        self.fail_refresh(key, generation, now);
                    },
                    Some(target) => {
                        if self.write_refreshed(
                            key,
                            target,
                            generation,
                            response,
                            ttl,
                            disposition,
                            now,
                        ) {
                            let mut metrics = copy_metrics(self.store.metrics());
                            metrics.lazy_refresh_success_total =
                                metrics.lazy_refresh_success_total.wrapping_add(1);
                            self.store.set_metrics(metrics);
                        } else {
                            self.count_refresh_failed();
                        }
                    },
                }
            },
            CacheTtlDecision::Skip(reason) => {
                if reason == CacheSkipReason::LowPositiveTtl {
                    let _ = self.store.remove_handle(key, generation, now);
                    self.count_refresh_failed();
                } else {
                    self.fail_refresh(key, generation, now);
                }
                let mut metrics = copy_metrics(self.store.metrics());
                metrics.record_skip(reason);
                self.store.set_metrics(metrics);
            },
        }
    }

    /// Ends a refresh.
    pub fn finish_lazy_refresh(
        &mut self,
        key: &CacheKey,
        request_key: &CacheKey,
        generation: u64,
        outcome: RefreshOutcome,
        now: u64,
    )
        requires
            old(self).wf(),
            request_key@.wf(),
        ensures
            final(self).wf(),
            final(self)@ == refreshed(
                old(self)@,
                key@,
                request_key@,
                generation,
                outcome@,
                now,
            ),
    {
        self.apply_refresh(key, request_key, generation, outcome, now);
        self.lazy_refresh_inflight.remove(key);
        if self.lazy_refreshes > 0 {
            self.lazy_refreshes = self.lazy_refreshes - 1;
        }
    }

    fn hit_step(&self, response: Option<Message>, refresh: Option<LazyRefresh>) -> (r: ExecuteStep)
        ensures
            r.action@ == hit_action(self@),
            r.response == response,
            r.refresh == refresh,
    {
        let action = if self.should_short_circuit(true) {
            ExecuteAction::Stop
        } else {
            ExecuteAction::Continue
        };
        ExecuteStep { action, response, refresh }
    }

    /// Takes a request: an answer from the cache, or a part in fetching one.
    /// `ancestors` are the flights that the request is part of.
    pub fn begin_execute(
        &mut self,
        request: &Message,
        ancestors: &Vec<u64>,
        has_next: bool,
        now: u64,
    ) -> (r: ExecuteStep)
        requires
            old(self).wf(),
        ensures
            final(self).wf(),
            (final(self)@, r@) == begun(old(self)@, request@, ancestors@, has_next, now),
    {
        match self.try_cache_hit(request, now) {
            None => ExecuteStep { action: ExecuteAction::Continue, response: None, refresh: None },
            Some((DnsCacheLookup::Fresh { .. }, answer)) => self.hit_step(answer, None),
            Some((DnsCacheLookup::Stale { key, request_key, entry }, answer)) => {
                let admission = self.try_start_lazy_refresh(&key, &entry.item, has_next, now);
                let refresh = match admission {
                    RefreshAdmission::Started => Some(
                        LazyRefresh { key, request_key, generation: entry.generation },
                    ),
                    _ => None,
                };
                self.hit_step(answer, refresh)
            },
            Some((DnsCacheLookup::Miss { key }, _)) => {
                let action = match self.miss_coalescer.register(&key, ancestors) {
                    MissRole::Follower(flight) => {
                        let mut metrics = copy_metrics(self.store.metrics());
                        metrics.miss_coalesced_total = metrics.miss_coalesced_total.wrapping_add(1);
                        self.store.set_metrics(metrics);
                        ExecuteAction::Wait(flight)
                    },
                    MissRole::Reentrant => {
                        let mut metrics = copy_metrics(self.store.metrics());
                        metrics.miss_coalesce_reentrant_total =
                            metrics.miss_coalesce_reentrant_total.wrapping_add(1);
                        self.store.set_metrics(metrics);
                        ExecuteAction::Continue
                    },
                    MissRole::Leader(flight) => ExecuteAction::Lead(flight, key),
                };
                ExecuteStep { action, response: None, refresh: None }
            },
        }
    }

    /// Goes on after a wait for another's flight.
    pub fn after_wait(&mut self, request: &Message, timed_out: bool, ready: bool, now: u64) -> (r:
        ExecuteStep)
        requires
            old(self).wf(),
        ensures
            final(self).wf(),
            (final(self)@, r@) == waited(old(self)@, request@, timed_out, ready, now),
    {
        if timed_out {
            let mut metrics = copy_metrics(self.store.metrics());
            metrics.miss_coalesce_timeout_total = metrics.miss_coalesce_timeout_total.wrapping_add(1);
            self.store.set_metrics(metrics);
        }
        if ready {
            if let Some((lookup, answer)) = self.try_cache_hit(request, now) {
                if lookup.is_hit() {
                    return self.hit_step(answer, None);
                }
            }
        }
        ExecuteStep { action: ExecuteAction::Continue, response: None, refresh: None }
    }

    /// Ends a flight with what came back. Returns whether it has been cached.
    pub fn finish_lead(
        &mut self,
        key: &CacheKey,
        flight: u64,
        response: Option<Message>,
        now: u64,
    ) -> (r: bool)
        requires
            old(self).wf(),
            key@.wf(),
        ensures
            final(self).wf(),
            (final(self)@, r) == flown(old(self)@, key@, flight, message_view(response), now),
    {
        let cached = match response {
            None => false,
            Some(message) => {
                if message.truncated {
                    let mut metrics = copy_metrics(self.store.metrics());
                    metrics.skip_truncated_total = metrics.skip_truncated_total.wrapping_add(1);
                    self.store.set_metrics(metrics);
                    false
                } else {
                    let disposition = response_disposition_for_cache(&message, key);
                    match self.compute_cache_ttl_for_disposition(&message, key, disposition) {
                        CacheTtlDecision::Cache(ttl) => self.update_cache_entry(
                            key,
                            message,
                            ttl,
                            disposition,
                            now,
                        ),
                        CacheTtlDecision::Skip(reason) => {
                            let mut metrics = copy_metrics(self.store.metrics());
                            metrics.record_skip(reason);
                            self.store.set_metrics(metrics);
                            false
                        },
                    }
                }
            },
        };
        self.miss_coalescer.complete(key, flight);
        cached
    }
}

/// A copy of counters.
fn copy_metrics(m: &CacheMetrics) -> (r: CacheMetrics)
    ensures
        r == *m,
{
    CacheMetrics {
        tag: m.tag.clone(),
        lookup_total: m.lookup_total,
        ecs_lookup_requests_total: m.ecs_lookup_requests_total,
        ecs_lookup_candidates_total: m.ecs_lookup_candidates_total,
        ecs_lookup_exact_fallback_total: m.ecs_lookup_exact_fallback_total,
        fresh_hit_total: m.fresh_hit_total,
        stale_hit_total: m.stale_hit_total,
        miss_total: m.miss_total,
        miss_coalesced_total: m.miss_coalesced_total,
        miss_coalesce_timeout_total: m.miss_coalesce_timeout_total,
        miss_coalesce_reentrant_total: m.miss_coalesce_reentrant_total,
        expired_total: m.expired_total,
        insert_total: m.insert_total,
        skip_truncated_total: m.skip_truncated_total,
        skip_no_ttl_total: m.skip_no_ttl_total,
        skip_incomplete_answer_total: m.skip_incomplete_answer_total,
        skip_low_positive_ttl_total: m.skip_low_positive_ttl_total,
        lazy_refresh_started_total: m.lazy_refresh_started_total,
        lazy_refresh_success_total: m.lazy_refresh_success_total,
        lazy_refresh_failed_total: m.lazy_refresh_failed_total,
        lazy_refresh_skipped_busy_total: m.lazy_refresh_skipped_busy_total,
        lazy_refresh_skipped_cooldown_total: m.lazy_refresh_skipped_cooldown_total,
    }
}

/// Makes caches.
#[derive(Debug, Clone, Copy, PartialEq, Eq)]
pub struct CacheFactory;

impl CacheFactory {
    /// The cache that a configuration gives.
    pub fn build_cache(&self, tag: String, config: CacheConfig) -> (r: Cache)
        ensures
            r.wf(),
            r@ == built(tag, config),
    {
        let cache_size: usize = match config.size {
            Some(n) => n,
            None => DEFAULT_CACHE_SIZE,
        };
        let lazy_refresh_limit: usize = match config.lazy_refresh_concurrency {
            Some(n) => n,
            None => DEFAULT_LAZY_REFRESH_CONCURRENCY,
        };
        let max_negative_ttl: u32 = match config.max_negative_ttl {
            Some(n) => n,
            None => DEFAULT_MAX_NEGATIVE_TTL,
        };
        let negative_ttl_without_soa: u32 = match config.negative_ttl_without_soa {
            Some(n) => n,
            None => DEFAULT_NEGATIVE_TTL_WITHOUT_SOA,
        };
        let cache_negative = match config.cache_negative {
            Some(b) => b,
            None => true,
        };
        let short_circuit = match config.short_circuit {
            Some(b) => b,
            None => false,
        };
        let ecs_in_key = match config.ecs_in_key {
            Some(b) => b,
            None => false,
        };
        Cache {
            store: Cache::new_store(tag, cache_size),
            cache_negative,
            max_negative_ttl,
            negative_ttl_without_soa,
            config,
            short_circuit,
            ecs_in_key,
            lazy_refresh_inflight: RefreshSet::new(),
            lazy_refreshes: 0,
            lazy_refresh_limit,
            lazy_refresh_accepting: true,
            miss_coalescer: MissCoalescer::new(),
            touch_interval_ms: 0,
            next_touch_interval_refresh_ms: 0,
        }
    }

    /// The cache of a configuration that has been read, where it is valid.
    pub fn create(&self, tag: String, config: CacheConfig) -> (r: Result<Cache, DnsError>)
        ensures
            match r {
                Ok(c) => config_problem(config) is None && c.wf() && c@ == built(tag, config),
                Err(e) => config_problem(config) is Some && e@ == DnsErrorView::Plugin(
                    config_problem(config)->0,
                ),
            },
    {
        match validate_cache_config(&config) {
            Ok(_) => Ok(self.build_cache(tag, config)),
            Err(e) => Err(e),
        }
    }

    /// The cache of a quick setup.
    pub fn quick_setup(&self, tag: String, param: &str) -> (r: Result<Cache, DnsError>)
        ensures
            match r {
                Ok(c) => {
                    &&& quick_tokens(words(param@), None) is Ok
                    &&& c.wf()
                    &&& c@ == built(
                        tag,
                        (CacheConfig {
                            short_circuit: quick_tokens(words(param@), None)->Ok_0,
                            ..crate::cache::config::default_config()
                        }),
                    )
                },
                Err(e) => quick_tokens(words(param@), None) is Err && e@ == DnsErrorView::Plugin(
                    quick_tokens(words(param@), None)->Err_0,
                ),
            },
    {
        match parse_cache_quick_setup(param) {
            Ok(config) => self.create(tag, config),
            Err(e) => Err(e),
        }
    }
}

} // verus!
