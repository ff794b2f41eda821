//! What the cache does with requests and responses.

use resolver_plugins::cache::config::{
    parse_cache_quick_setup, validate_cache_config, CacheConfig,
};
use resolver_plugins::cache::executor::{
    adaptive_touch_interval_ms, cleanup, dump_schedule, initial_cache_capacity, Cache,
    CacheFactory, CleanupState, ExecuteAction, ExecuteStep, LazyRefresh, RefreshAdmission,
    RefreshOutcome, DIRTY_DUMP_TARGET_MS, EVICT_HIGH_WATERMARK_PERCENT,
    EVICT_LOW_WATERMARK_PERCENT, MAX_INITIAL_CACHE_CAPACITY, TOUCH_CRITICAL_INTERVAL_MS,
    TOUCH_HIGH_INTERVAL_MS, TOUCH_MEDIUM_INTERVAL_MS,
};
use resolver_plugins::cache::flights::{MissCoalescer, MissRole};
use resolver_plugins::cache::item::CacheItem;
use resolver_plugins::cache::key::{
    build_cache_key, cache_key_for_response_ecs_scope, CacheKey,
};
use resolver_plugins::cache::metrics::{CacheMetrics, MetricKind};
use resolver_plugins::cache::policy::{
    response_disposition_for_cache, CacheSkipReason, CacheTtlDecision, DEFAULT_MAX_NEGATIVE_TTL,
    DEFAULT_NEGATIVE_TTL_WITHOUT_SOA,
};
use resolver_plugins::cache::restore::{restore_cached_message, restore_stale_cached_message};
use resolver_plugins::cache::store::{CacheMap, DnsCacheLookup};
use resolver_plugins::proto::message::{
    ClientSubnet, DNSClass, Edns, EdnsOption, IpAddr, Message, Question, RData, Rcode, Record,
    RecordType, Soa,
};
use resolver_plugins::proto::name::Name;
use resolver_plugins::ttl_cache::TtlCachePruneMode;

const NOW: u64 = 1_000_000;

fn v4(a: u8, b: u8, c: u8, d: u8) -> u32 {
    u32::from_be_bytes([a, b, c, d])
}

fn default_test_config() -> CacheConfig {
    CacheConfig {
        size: Some(128),
        lazy_cache_ttl: None,
        lazy_refresh_concurrency: None,
        lazy_refresh_failure_cooldown: None,
        dump_file: None,
        dump_interval: None,
        short_circuit: Some(false),
        cache_negative: Some(true),
        max_negative_ttl: Some(DEFAULT_MAX_NEGATIVE_TTL),
        negative_ttl_without_soa: Some(DEFAULT_NEGATIVE_TTL_WITHOUT_SOA),
        max_positive_ttl: None,
        min_positive_ttl: None,
        ecs_in_key: None,
    }
}

fn test_cache(config: CacheConfig) -> Cache {
    CacheFactory.build_cache("test".to_string(), config)
}

fn make_request_with_query(name: &str, do_bit: bool, cd_bit: bool) -> Message {
    make_request_with_qtype(name, RecordType::A, do_bit, cd_bit)
}

fn make_request_with_qtype(name: &str, qtype: RecordType, do_bit: bool, cd_bit: bool) -> Message {
    let mut request = Message::new();
    request.questions.push(Question::new(
        Name::from_ascii(name).unwrap(),
        qtype,
        DNSClass::IN,
    ));
    request.checking_disabled = cd_bit;

    let mut edns = Edns::new();
    edns.dnssec_ok = do_bit;
    request.edns = Some(edns);

    request
}

fn add_ecs(message: &mut Message, addr: u32, source_prefix: u8, scope_prefix: u8) {
    let mut edns = message.edns.take().unwrap_or_else(Edns::new);
    edns.options.push(EdnsOption::Subnet(ClientSubnet::new(
        IpAddr::V4(addr),
        source_prefix,
        scope_prefix,
    )));
    message.edns = Some(edns);
}

fn cache_key_for_domain(domain: &str) -> CacheKey {
    cache_key_for_domain_and_type(domain, RecordType::A)
}

fn cache_key_for_domain_and_type(domain: &str, record_type: RecordType) -> CacheKey {
    CacheKey {
        domain: domain.to_string(),
        record_type,
        dns_class: DNSClass::IN,
        do_bit: false,
        cd_bit: false,
        ecs_scope: None,
    }
}

fn insert_test_cache_entry(cache_map: &mut CacheMap, domain: &str, expire_at: u64, last: u64) {
    cache_map.insert_or_update(
        cache_key_for_domain(domain),
        CacheItem::new(Message::new(), 60, expire_at),
        last,
        expire_at,
        last,
    );
}

fn answer(name: &str, ttl: u32, addr: u32) -> Record {
    Record::from_rdata(Name::from_ascii(name).unwrap(), ttl, RData::A(addr))
}

fn response_for(domain: &str, record_type: RecordType) -> Message {
    let mut response = Message::new();
    response.rcode = Rcode::NoError;
    response.questions.push(Question::new(
        Name::from_ascii(domain).unwrap(),
        record_type,
        DNSClass::IN,
    ));
    response
}

fn cacheable_response_for_domain(domain: &str, ttl: u32) -> Message {
    let mut response = response_for(domain, RecordType::A);
    response.answers.push(answer(domain, ttl, v4(1, 1, 1, 1)));
    response
}

fn refreshed_response_for_domain(domain: &str, ttl: u32) -> Message {
    let mut response = response_for(domain, RecordType::A);
    response.answers.push(answer(domain, ttl, v4(9, 9, 9, 9)));
    response
}

fn cname_only_response_for_domain(domain: &str, ttl: u32) -> Message {
    cname_only_response_for_domain_and_type(domain, ttl, RecordType::A)
}

fn cname_only_response_for_domain_and_type(
    domain: &str,
    ttl: u32,
    record_type: RecordType,
) -> Message {
    let mut response = response_for(domain, record_type);
    response.answers.push(Record::from_rdata(
        Name::from_ascii(domain).unwrap(),
        ttl,
        RData::CNAME(Name::from_ascii("target.example.com.").unwrap()),
    ));
    response
}

fn cname_with_a_response_for_domain(domain: &str, cname_ttl: u32, a_ttl: u32) -> Message {
    let mut response = cname_only_response_for_domain(domain, cname_ttl);
    response
        .answers
        .push(answer("target.example.com.", a_ttl, v4(1, 1, 1, 1)));
    response
}

fn soa_record(negative_ttl: u32) -> Record {
    Record::from_rdata(
        Name::from_ascii("example.com.").unwrap(),
        120,
        RData::SOA(Soa {
            mname: Name::from_ascii("ns1.example.com.").unwrap(),
            rname: Name::from_ascii("hostmaster.example.com.").unwrap(),
            serial: 1,
            refresh: 3600,
            retry: 600,
            expire: 86400,
            minimum: negative_ttl,
        }),
    )
}

/// Puts an entry into the cache without counting it.
fn seed(cache: &mut Cache, key: &CacheKey, item: CacheItem, at: u64, until: u64, last: u64) {
    let store = cache.store_mut();
    assert!(store.insert_or_update(key.copy(), item, at, until, last, NOW));
    store.set_metrics(CacheMetrics::new("test".to_string()));
}

fn stale_entry(cache: &mut Cache, key: &CacheKey, response: Message, until: u64) {
    seed(
        cache,
        key,
        CacheItem::new(response, 120, NOW - 1_000),
        NOW - 121_000,
        until,
        NOW - 100,
    );
}

fn run_without_next(cache: &mut Cache, request: &Message, response: Message) {
    let step = cache.begin_execute(request, &Vec::new(), false, NOW);
    match step.action {
        ExecuteAction::Lead(flight, key) => {
            cache.finish_lead(&key, flight, Some(response), NOW);
        }
        other => panic!("a miss should lead a flight, not {other:?}"),
    }
}

fn started(step: ExecuteStep) -> LazyRefresh {
    step.refresh.expect("a refresh should start")
}

fn has_answer_ip(message: &Message, addr: u32) -> bool {
    message
        .answers
        .iter()
        .any(|record| record.ip_addr() == Some(IpAddr::V4(addr)))
}

#[test]
fn parse_cache_quick_setup_supports_short_circuit() {
    let cfg = parse_cache_quick_setup("short_circuit=true").expect("quick setup should parse");
    assert_eq!(cfg.short_circuit, Some(true));
}

#[test]
fn miss_coalescer_notifies_followers_and_releases_key() {
    let mut coalescer = MissCoalescer::new();
    let key = cache_key_for_domain("example.com");

    let leader = match coalescer.register(&key, &Vec::new()) {
        MissRole::Leader(leader) => leader,
        MissRole::Follower(_) | MissRole::Reentrant => {
            panic!("first request should become leader")
        }
    };
    match coalescer.register(&key, &Vec::new()) {
        MissRole::Follower(flight) => assert_eq!(flight, leader),
        MissRole::Leader(_) | MissRole::Reentrant => {
            panic!("second independent request should become follower")
        }
    }

    coalescer.complete(&key, leader);

    assert!(matches!(
        coalescer.register(&key, &Vec::new()),
        MissRole::Leader(_)
    ));
}

#[test]
fn miss_coalescer_detects_recursive_wait_on_ancestor_leader() {
    let mut coalescer = MissCoalescer::new();
    let key = cache_key_for_domain("reentrant.example");

    let leader = match coalescer.register(&key, &Vec::new()) {
        MissRole::Leader(leader) => leader,
        MissRole::Follower(_) | MissRole::Reentrant => {
            panic!("first request should become leader")
        }
    };

    assert!(matches!(
        coalescer.register(&key, &vec![leader]),
        MissRole::Reentrant
    ));

    assert!(matches!(
        coalescer.register(&key, &Vec::new()),
        MissRole::Follower(_)
    ));
}

#[test]
fn miss_coalescer_does_not_treat_sibling_branch_as_reentrant() {
    let mut coalescer = MissCoalescer::new();
    let outer_key = cache_key_for_domain("outer.example");
    let sibling_key = cache_key_for_domain("sibling.example");

    let outer = match coalescer.register(&outer_key, &Vec::new()) {
        MissRole::Leader(leader) => leader,
        MissRole::Follower(_) | MissRole::Reentrant => {
            panic!("outer request should become leader")
        }
    };

    match coalescer.register(&sibling_key, &vec![outer]) {
        MissRole::Leader(_) => {}
        MissRole::Follower(_) | MissRole::Reentrant => {
            panic!("primary sibling should become leader")
        }
    }

    // The second sibling has the same ancestors, without the first sibling.
    assert!(matches!(
        coalescer.register(&sibling_key, &vec![outer]),
        MissRole::Follower(_)
    ));
}

#[test]
fn recursive_cache_miss_bypasses_ancestor_wait_and_caches_once() {
    let mut cache = test_cache(default_test_config());
    let request = make_request_with_query("example.com.", false, false);

    let outer = cache.begin_execute(&request, &Vec::new(), true, NOW);
    let (flight, key) = match outer.action {
        ExecuteAction::Lead(flight, key) => (flight, key),
        other => panic!("the outer request should lead, not {other:?}"),
    };
    let inner = cache.begin_execute(&request, &vec![flight], true, NOW);
    assert_eq!(inner.action, ExecuteAction::Continue);
    assert_eq!(inner.response, None);

    assert!(cache.finish_lead(
        &key,
        flight,
        Some(refreshed_response_for_domain("example.com.", 55)),
        NOW
    ));
    assert_eq!(cache.store().entry_count(), 1);
    assert_eq!(cache.store().metrics().miss_coalesce_reentrant_total, 1);
    assert_eq!(cache.store().metrics().miss_coalesce_timeout_total, 0);
}

#[test]
fn initial_cache_capacity_is_bounded_for_large_limits() {
    assert_eq!(initial_cache_capacity(0), 1);
    assert_eq!(initial_cache_capacity(1024), 1024);
    assert_eq!(
        initial_cache_capacity(MAX_INITIAL_CACHE_CAPACITY * 10),
        MAX_INITIAL_CACHE_CAPACITY
    );
}

#[test]
fn adaptive_touch_interval_tracks_occupancy_thresholds() {
    assert_eq!(adaptive_touch_interval_ms(49_000, 100_000), 0);
    assert_eq!(
        adaptive_touch_interval_ms(50_000, 100_000),
        TOUCH_MEDIUM_INTERVAL_MS
    );
    assert_eq!(
        adaptive_touch_interval_ms(75_000, 100_000),
        TOUCH_HIGH_INTERVAL_MS
    );
    assert_eq!(
        adaptive_touch_interval_ms(90_000, 100_000),
        TOUCH_CRITICAL_INTERVAL_MS
    );
}

#[test]
fn adaptive_touch_interval_scales_for_small_caches() {
    assert_eq!(adaptive_touch_interval_ms(50, 100), 7_500);
    assert_eq!(adaptive_touch_interval_ms(75, 100), 1_250);
    assert_eq!(
        adaptive_touch_interval_ms(90, 100),
        TOUCH_CRITICAL_INTERVAL_MS
    );

    assert_eq!(adaptive_touch_interval_ms(5_000, 10_000), 15_000);
    assert_eq!(adaptive_touch_interval_ms(7_500, 10_000), 2_500);
    assert_eq!(
        adaptive_touch_interval_ms(9_000, 10_000),
        TOUCH_CRITICAL_INTERVAL_MS
    );
}

#[test]
fn current_touch_interval_recomputes_at_most_once_per_refresh_window() {
    let mut cfg = default_test_config();
    cfg.size = Some(4);
    let mut cache = test_cache(cfg);
    for idx in 0..4u64 {
        seed(
            &mut cache,
            &cache_key_for_domain(&format!("live-{idx}.example")),
            CacheItem::new(Message::new(), 60, 100_000),
            idx,
            100_000,
            idx,
        );
    }

    assert_eq!(
        cache.current_touch_interval_ms(10_000),
        TOUCH_CRITICAL_INTERVAL_MS
    );
    for domain in ["live-0.example", "live-1.example", "live-2.example"] {
        assert!(cache
            .store_mut()
            .remove(&cache_key_for_domain(domain), 10_000));
    }

    assert_eq!(
        cache.current_touch_interval_ms(10_500),
        TOUCH_CRITICAL_INTERVAL_MS
    );
    assert_eq!(cache.current_touch_interval_ms(11_000), 0);
}

#[test]
fn periodic_prune_bounds_large_expired_backlog_per_pass() {
    let mut cache_map = CacheMap::with_capacity(16);
    let now = 10_000u64;
    let expired_count = 8_704;
    for idx in 0..expired_count {
        insert_test_cache_entry(
            &mut cache_map,
            &format!("expired-{idx}.example"),
            now.saturating_sub(1),
            idx as u64,
        );
    }

    // A periodic pass looks at no more than 4096 entries, even where every entry
    // is expired.
    let (expired_removed, evicted, after_len) = cache_map.prune(
        TtlCachePruneMode::Periodic {
            max_size: expired_count,
            high_watermark_pct: 100,
            low_watermark_pct: 100,
        },
        now,
    );

    assert!(expired_removed > 0);
    assert!(expired_removed <= 4096);
    assert_eq!(evicted, 0);
    assert_eq!(after_len, expired_count - expired_removed);
    assert_eq!(cache_map.len(), after_len);
}

#[test]
fn exact_prune_removes_complete_expired_backlog() {
    let mut cache_map = CacheMap::with_capacity(16);
    let now = 10_000u64;
    let expired_count = 8_704;
    for idx in 0..expired_count {
        insert_test_cache_entry(
            &mut cache_map,
            &format!("expired-{idx}.example"),
            now.saturating_sub(1),
            idx as u64,
        );
    }

    let (expired_removed, evicted, after_len) = cache_map.prune(
        TtlCachePruneMode::Exact {
            max_size: expired_count,
        },
        now,
    );

    assert_eq!(expired_removed, expired_count);
    assert_eq!(evicted, 0);
    assert_eq!(after_len, 0);
    assert!(cache_map.is_empty());
}

#[test]
fn periodic_prune_trims_small_cache_to_low_watermark() {
    let mut cache_map = CacheMap::with_capacity(4);
    let now = 10_000u64;
    for idx in 0..32u64 {
        insert_test_cache_entry(
            &mut cache_map,
            &format!("live-{idx}.example"),
            now.saturating_add(60_000),
            idx,
        );
    }

    let (expired_removed, evicted, after_len) = cache_map.prune(
        TtlCachePruneMode::Periodic {
            max_size: 8,
            high_watermark_pct: EVICT_HIGH_WATERMARK_PERCENT,
            low_watermark_pct: EVICT_LOW_WATERMARK_PERCENT,
        },
        now,
    );

    assert_eq!(expired_removed, 0);
    assert_eq!(evicted, 26);
    assert_eq!(after_len, 6);
    assert_eq!(cache_map.len(), 6);
}

#[test]
fn periodic_prune_releases_slot_for_single_entry_cache() {
    let mut cache_map = CacheMap::with_capacity(1);
    let now = 10_000u64;
    insert_test_cache_entry(
        &mut cache_map,
        "live.example",
        now.saturating_add(60_000),
        1,
    );

    let (expired_removed, evicted, after_len) = cache_map.prune(
        TtlCachePruneMode::Periodic {
            max_size: 1,
            high_watermark_pct: EVICT_HIGH_WATERMARK_PERCENT,
            low_watermark_pct: EVICT_LOW_WATERMARK_PERCENT,
        },
        now,
    );

    assert_eq!(expired_removed, 0);
    assert_eq!(evicted, 1);
    assert_eq!(after_len, 0);
    assert!(cache_map.is_empty());
}

#[test]
fn load_prune_trims_large_cache_to_configured_limit() {
    let cache_size = 100_001;
    let excess = 65_553;
    let live_count = cache_size + excess;
    let mut cache_map = CacheMap::with_capacity(initial_cache_capacity(cache_size));
    let now = 10_000u64;
    for idx in 0..live_count {
        insert_test_cache_entry(
            &mut cache_map,
            &format!("live-{idx}.example"),
            now.saturating_add(60_000),
            idx as u64,
        );
    }

    let (expired_removed, evicted, after_len) = cache_map.prune(
        TtlCachePruneMode::Exact {
            max_size: cache_size,
        },
        now,
    );

    assert_eq!(expired_removed, 0);
    assert_eq!(evicted, excess);
    assert_eq!(after_len, cache_size);
    assert_eq!(cache_map.len(), cache_size);
}

#[test]
fn cache_key_uses_normalized_domain_from_query_view() {
    let upper = make_request_with_query("Example.COM.", false, false);
    let lower = make_request_with_query("example.com", false, false);

    let key_upper = build_cache_key(&upper, true).unwrap();
    let key_lower = build_cache_key(&lower, true).unwrap();

    assert_eq!(key_upper.domain, "example.com");
    assert_eq!(key_upper, key_lower);
}

#[test]
fn cache_key_separates_do_cd_and_ecs_when_enabled() {
    let mut req_base = make_request_with_query("example.com.", false, false);
    let req_do = make_request_with_query("example.com.", true, false);
    let req_cd = make_request_with_query("example.com.", false, true);

    add_ecs(&mut req_base, v4(192, 0, 2, 0), 24, 0);
    let mut req_ecs_other = make_request_with_query("example.com.", false, false);
    add_ecs(&mut req_ecs_other, v4(192, 0, 3, 0), 24, 0);

    let key_base = build_cache_key(&req_base, true).unwrap();
    let key_do = build_cache_key(&req_do, true).unwrap();
    let key_cd = build_cache_key(&req_cd, true).unwrap();
    let key_ecs_other = build_cache_key(&req_ecs_other, true).unwrap();

    assert_ne!(key_base, key_do);
    assert_ne!(key_base, key_cd);
    assert_ne!(key_base, key_ecs_other);
}

#[test]
fn cache_hit_reuses_response_ecs_scope_for_matching_client_prefix() {
    let mut config = default_test_config();
    config.ecs_in_key = Some(true);
    let mut cache = test_cache(config);

    let mut first_request = make_request_with_query("example.com.", false, false);
    add_ecs(&mut first_request, v4(203, 0, 113, 199), 24, 0);
    let first_key = build_cache_key(&first_request, true).unwrap();

    let mut response = cacheable_response_for_domain("example.com.", 120);
    add_ecs(&mut response, v4(203, 0, 113, 0), 24, 20);
    let disposition = response_disposition_for_cache(&response, &first_key);
    assert!(cache.update_cache_entry(&first_key, response, 120, disposition, NOW));

    let mut second_request = make_request_with_query("example.com.", false, false);
    add_ecs(&mut second_request, v4(203, 0, 127, 1), 24, 0);

    let (lookup, response) = cache
        .try_cache_hit(&second_request, NOW)
        .expect("cache lookup should exist");
    assert!(matches!(lookup, DnsCacheLookup::Fresh { .. }));
    assert_eq!(
        response.expect("cache hit should set response").subnet(),
        Some(ClientSubnet::new(IpAddr::V4(v4(203, 0, 127, 1)), 24, 20))
    );
}

#[test]
fn cache_rejects_response_with_mismatched_ecs_address() {
    let mut config = default_test_config();
    config.ecs_in_key = Some(true);
    let mut cache = test_cache(config);

    let mut request = make_request_with_query("example.com.", false, false);
    add_ecs(&mut request, v4(203, 0, 113, 199), 24, 0);
    let key = build_cache_key(&request, true).expect("cache key should exist");

    let mut response = cacheable_response_for_domain("example.com.", 120);
    add_ecs(&mut response, v4(203, 0, 114, 0), 24, 20);
    let disposition = response_disposition_for_cache(&response, &key);

    assert!(!cache.update_cache_entry(&key, response, 120, disposition, NOW));
    assert_eq!(cache.store().entry_count(), 0);
}

#[test]
fn rewrite_response_ttls_skips_opt_record() {
    let mut response = response_for("example.com.", RecordType::A);
    response
        .answers
        .push(answer("example.com.", 300, v4(1, 1, 1, 1)));
    let mut edns = Edns::new();
    edns.udp_payload_size = 1232;
    edns.dnssec_ok = true;
    response.edns = Some(edns);

    let response = response.clone_with_id_and_record_ttl(7, 42);

    assert_eq!(response.answers[0].ttl, 42);
    let edns = response.edns.as_ref().expect("edns should exist");
    assert_eq!(edns.udp_payload_size, 1232);
    assert!(edns.dnssec_ok);
}

#[test]
fn cache_hit_low_occupancy_does_not_update_last_access() {
    let mut cfg = default_test_config();
    cfg.size = Some(128);
    let mut cache = test_cache(cfg);

    let request = make_request_with_query("example.com.", false, false);
    let key = build_cache_key(&request, false).unwrap();
    let last_access_ms = NOW - 60_000;

    seed(
        &mut cache,
        &key,
        CacheItem::new(
            cacheable_response_for_domain("example.com.", 120),
            120,
            NOW + 120_000,
        ),
        NOW,
        NOW + 120_000,
        last_access_ms,
    );

    let (lookup, _) = cache
        .try_cache_hit(&request, NOW)
        .expect("cache lookup should exist");
    assert!(matches!(lookup, DnsCacheLookup::Fresh { .. }));

    let stored = cache
        .store()
        .cache_map()
        .get(&key)
        .expect("entry should remain cached");
    assert_eq!(stored.last_access_ms, last_access_ms);
}

#[test]
fn negative_ttl_uses_soa_and_applies_max_cap() {
    let mut cfg = default_test_config();
    cfg.max_negative_ttl = Some(20);
    let cache = test_cache(cfg);

    let mut response = Message::new();
    response.rcode = Rcode::NXDomain;
    response.authorities.push(soa_record(30));

    assert_eq!(
        cache.compute_negative_ttl(&response, &cache_key_for_domain("example.com")),
        Some(20)
    );
}

#[test]
fn negative_ttl_without_soa_uses_fallback() {
    let mut cfg = default_test_config();
    cfg.negative_ttl_without_soa = Some(45);
    let cache = test_cache(cfg);

    let mut response = Message::new();
    response.rcode = Rcode::NXDomain;

    assert_eq!(
        cache.compute_negative_ttl(&response, &cache_key_for_domain("example.com")),
        Some(45)
    );
}

#[test]
fn negative_ttl_without_soa_zero_disables_negative_cache() {
    let mut cfg = default_test_config();
    cfg.negative_ttl_without_soa = Some(0);
    let cache = test_cache(cfg);

    let mut response = Message::new();
    response.rcode = Rcode::NXDomain;

    assert_eq!(
        cache.compute_negative_ttl(&response, &cache_key_for_domain("example.com")),
        None
    );
}

#[test]
fn servfail_is_not_cacheable() {
    let cache = test_cache(default_test_config());

    let mut response = Message::new();
    response.rcode = Rcode::ServFail;

    assert_eq!(
        cache.compute_cache_ttl(&response, &cache_key_for_domain("example.com")),
        CacheTtlDecision::Skip(CacheSkipReason::NoTtl)
    );
}

fn bare_positive_response(ttl: u32) -> Message {
    let mut response = Message::new();
    response.rcode = Rcode::NoError;
    response
        .answers
        .push(answer("example.com.", ttl, v4(1, 1, 1, 1)));
    response
}

#[test]
fn min_positive_ttl_skips_low_ttl_positive_response() {
    let mut cfg = default_test_config();
    cfg.min_positive_ttl = Some(4);
    let cache = test_cache(cfg);

    assert_eq!(
        cache.compute_cache_ttl(
            &bare_positive_response(3),
            &cache_key_for_domain("example.com")
        ),
        CacheTtlDecision::Skip(CacheSkipReason::LowPositiveTtl)
    );
}

#[test]
fn min_positive_ttl_allows_equal_ttl_positive_response() {
    let mut cfg = default_test_config();
    cfg.min_positive_ttl = Some(4);
    let cache = test_cache(cfg);

    assert_eq!(
        cache.compute_cache_ttl(
            &bare_positive_response(4),
            &cache_key_for_domain("example.com")
        ),
        CacheTtlDecision::Cache(4)
    );
}

#[test]
fn max_positive_ttl_cap_is_checked_before_min_positive_ttl() {
    let mut cfg = default_test_config();
    cfg.max_positive_ttl = Some(10);
    cfg.min_positive_ttl = Some(20);
    let cache = test_cache(cfg);

    assert_eq!(
        cache.compute_cache_ttl(
            &bare_positive_response(30),
            &cache_key_for_domain("example.com")
        ),
        CacheTtlDecision::Skip(CacheSkipReason::LowPositiveTtl)
    );
}

#[test]
fn cname_only_response_is_not_positive_cacheable_for_address_key() {
    let cache = test_cache(default_test_config());
    let response = cname_only_response_for_domain("example.com.", 60);

    assert_eq!(
        cache.compute_cache_ttl(&response, &cache_key_for_domain("example.com")),
        CacheTtlDecision::Skip(CacheSkipReason::IncompleteAnswer)
    );
    assert_eq!(
        cache.compute_negative_ttl(&response, &cache_key_for_domain("example.com")),
        None
    );
}

#[test]
fn cname_chain_with_requested_answer_is_positive_cacheable() {
    let cache = test_cache(default_test_config());
    let response = cname_with_a_response_for_domain("example.com.", 30, 120);

    assert_eq!(
        cache.compute_cache_ttl(&response, &cache_key_for_domain("example.com")),
        CacheTtlDecision::Cache(30)
    );
}

#[test]
fn cname_with_soa_is_negative_cacheable_for_address_key() {
    let cache = test_cache(default_test_config());
    let mut response = cname_only_response_for_domain("example.com.", 60);
    response.authorities.push(soa_record(30));

    assert_eq!(
        cache.compute_cache_ttl(&response, &cache_key_for_domain("example.com")),
        CacheTtlDecision::Cache(30)
    );
}

#[test]
fn cname_nodata_ttl_does_not_exceed_cname_ttl() {
    let cache = test_cache(default_test_config());
    let mut response = cname_only_response_for_domain("example.com.", 5);
    response.authorities.push(soa_record(30));

    assert_eq!(
        cache.compute_cache_ttl(&response, &cache_key_for_domain("example.com")),
        CacheTtlDecision::Cache(5)
    );
}

#[test]
fn cache_rejects_response_question_mismatched_with_key() {
    let cache = test_cache(default_test_config());
    let response = cacheable_response_for_domain("other.example.com.", 60);

    assert_eq!(
        cache.compute_cache_ttl(&response, &cache_key_for_domain("example.com")),
        CacheTtlDecision::Skip(CacheSkipReason::NoTtl)
    );
}

#[test]
fn any_query_allows_non_empty_cname_answer() {
    let cache = test_cache(default_test_config());
    let response = cname_only_response_for_domain_and_type("example.com.", 60, RecordType::ANY);

    assert_eq!(
        cache.compute_cache_ttl(
            &response,
            &cache_key_for_domain_and_type("example.com", RecordType::ANY),
        ),
        CacheTtlDecision::Cache(60)
    );
}

#[test]
fn empty_noerror_remains_nodata_but_cname_only_does_not() {
    let cache = test_cache(default_test_config());
    let mut nodata = Message::new();
    nodata.rcode = Rcode::NoError;
    let cname_only = cname_only_response_for_domain("example.com.", 60);

    let key = cache_key_for_domain("example.com");
    assert_eq!(cache.compute_negative_ttl(&nodata, &key), Some(60));
    assert_eq!(cache.compute_negative_ttl(&cname_only, &key), None);
}

#[test]
fn truncated_response_is_not_cached() {
    let mut cache = test_cache(default_test_config());
    let request = make_request_with_query("example.com.", false, false);

    let mut response = Message::new();
    response.rcode = Rcode::NoError;
    response.truncated = true;
    run_without_next(&mut cache, &request, response);

    assert_eq!(cache.store().entry_count(), 0);
    assert_eq!(cache.store().metrics().skip_truncated_total, 1);
}

#[test]
fn cache_miss_with_short_circuit_returns_downstream_step_after_caching() {
    let mut config = default_test_config();
    config.short_circuit = Some(true);
    let mut cache = test_cache(config);
    let request = make_request_with_query("example.com.", false, false);

    let step = cache.begin_execute(&request, &Vec::new(), true, NOW);
    let (flight, key) = match step.action {
        ExecuteAction::Lead(flight, key) => (flight, key),
        other => panic!("a miss should go downstream, not {other:?}"),
    };
    assert!(cache.finish_lead(
        &key,
        flight,
        Some(refreshed_response_for_domain("example.com.", 55)),
        NOW
    ));

    assert_eq!(cache.store().entry_count(), 1);
    // The next request ends at the cache.
    let step = cache.begin_execute(&request, &Vec::new(), true, NOW);
    assert_eq!(step.action, ExecuteAction::Stop);
}

#[test]
fn cname_only_response_is_not_cached_under_address_key() {
    let mut cache = test_cache(default_test_config());
    let request = make_request_with_query("example.com.", false, false);
    run_without_next(
        &mut cache,
        &request,
        cname_only_response_for_domain("example.com.", 60),
    );

    assert_eq!(cache.store().entry_count(), 0);
    assert_eq!(cache.store().metrics().insert_total, 0);
    assert_eq!(cache.store().metrics().skip_incomplete_answer_total, 1);
}

#[test]
fn restored_cname_only_address_entry_is_evicted_before_cache_hit() {
    let mut cache = test_cache(default_test_config());
    let request = make_request_with_query("example.com.", false, false);
    let key = build_cache_key(&request, false).unwrap();
    seed(
        &mut cache,
        &key,
        CacheItem::new(
            cname_only_response_for_domain("example.com.", 60),
            60,
            NOW + 60_000,
        ),
        NOW,
        NOW + 60_000,
        NOW,
    );

    let (lookup, response) = cache
        .try_cache_hit(&request, NOW)
        .expect("cache lookup should exist");

    assert!(matches!(lookup, DnsCacheLookup::Miss { .. }));
    assert!(response.is_none());
    assert_eq!(cache.store().entry_count(), 0);
    assert_eq!(cache.store().metrics().miss_total, 1);
    assert_eq!(cache.store().metrics().skip_incomplete_answer_total, 1);
}

#[test]
fn restored_cname_only_address_entry_is_not_served_as_lazy_stale_hit() {
    let mut cfg = default_test_config();
    cfg.lazy_cache_ttl = Some(30);
    let mut cache = test_cache(cfg);
    let request = make_request_with_query("example.com.", false, false);
    let key = build_cache_key(&request, false).unwrap();
    seed(
        &mut cache,
        &key,
        CacheItem::new(
            cname_only_response_for_domain("example.com.", 60),
            60,
            NOW - 1_000,
        ),
        NOW - 61_000,
        NOW + 30_000,
        NOW,
    );

    let (lookup, response) = cache
        .try_cache_hit(&request, NOW)
        .expect("cache lookup should exist");

    assert!(matches!(lookup, DnsCacheLookup::Miss { .. }));
    assert!(response.is_none());
    assert_eq!(cache.store().entry_count(), 0);
    assert_eq!(cache.store().metrics().miss_total, 1);
    assert_eq!(cache.store().metrics().stale_hit_total, 0);
    assert_eq!(cache.store().metrics().skip_incomplete_answer_total, 1);
}

#[test]
fn any_query_caches_non_empty_cname_answer() {
    let mut cache = test_cache(default_test_config());
    let request = make_request_with_qtype("example.com.", RecordType::ANY, false, false);
    let key = build_cache_key(&request, false).unwrap();
    run_without_next(
        &mut cache,
        &request,
        cname_only_response_for_domain_and_type("example.com.", 60, RecordType::ANY),
    );

    assert_eq!(cache.store().metrics().insert_total, 1);
    assert!(cache.store().entry(&key).is_some());
}

#[test]
fn cache_hit_sets_outbound_message_response() {
    let mut cache = test_cache(default_test_config());

    let mut request = make_request_with_query("example.com.", true, true);
    request.id = 7;
    request.recursion_desired = true;
    request.questions[0].name = Name::from_ascii("WWW.Example.COM.").unwrap();
    let mut request_edns = Edns::new();
    request_edns.udp_payload_size = 4096;
    request_edns.dnssec_ok = true;
    request.edns = Some(request_edns);
    let key = build_cache_key(&request, false).unwrap();

    let mut response = cacheable_response_for_domain("example.com.", 120);
    response.authentic_data = true;

    let disposition = response_disposition_for_cache(&response, &key);
    cache.update_cache_entry(&key, response, 120, disposition, NOW);

    let (lookup, response) = cache
        .try_cache_hit(&request, NOW)
        .expect("cache lookup should exist");
    assert!(matches!(lookup, DnsCacheLookup::Fresh { .. }));
    let response = response.expect("cache hit should set response");
    assert!(has_answer_ip(&response, v4(1, 1, 1, 1)));
    assert_eq!(response.id, 7);
    assert_eq!(response.questions.first(), request.questions.first());
    assert!(response.recursion_desired);
    assert!(response.checking_disabled);
    assert!(
        response.authentic_data,
        "fresh cache hit should preserve AD"
    );
    let edns = response.edns.as_ref().unwrap();
    assert!(edns.dnssec_ok);
    assert_eq!(edns.udp_payload_size, 4096);
    assert!(edns.options.is_empty());
    assert!(
        (119..=120).contains(&response.answers[0].ttl),
        "fresh cache hit should preserve the original TTL or decrement by at most one second"
    );
    assert_eq!(cache.store().metrics().lookup_total, 1);
    assert_eq!(cache.store().metrics().fresh_hit_total, 1);
    assert_eq!(cache.store().metrics().insert_total, 1);
}

#[test]
fn fresh_cache_hit_ages_record_ttls_independently() {
    let mut cache = test_cache(default_test_config());
    let request = make_request_with_query("example.com.", false, false);
    let key = build_cache_key(&request, false).unwrap();

    let mut response = response_for("example.com.", RecordType::A);
    response
        .answers
        .push(answer("example.com.", 300, v4(1, 1, 1, 1)));
    response
        .authorities
        .push(answer("ns.example.com.", 120, v4(2, 2, 2, 2)));
    response
        .additionals
        .push(answer("glue.example.com.", 30, v4(3, 3, 3, 3)));

    seed(
        &mut cache,
        &key,
        CacheItem::new_validated_with_age_offset(response, 300, NOW + 240_000, 60_000),
        NOW,
        NOW + 240_000,
        NOW,
    );

    let (lookup, restored) = cache
        .try_cache_hit(&request, NOW)
        .expect("cache lookup should exist");
    assert!(matches!(lookup, DnsCacheLookup::Fresh { .. }));

    let restored = restored.expect("fresh hit should populate response");
    assert_eq!(restored.answers.len(), 1);
    assert!(
        (239..=240).contains(&restored.answers[0].ttl),
        "answer TTL should reflect both record age and the fresh-entry TTL cap"
    );
    assert_eq!(restored.authorities.len(), 1);
    assert!(
        (59..=60).contains(&restored.authorities[0].ttl),
        "authority TTL should age from its own original TTL"
    );
    assert!(
        restored.additionals.is_empty(),
        "expired additional data must not survive a fresh cache hit"
    );
}

#[test]
fn restore_cached_message_preserves_response_ecs_scope_only() {
    let mut request = make_request_with_query("example.com.", false, false);
    let mut request_edns = Edns::new();
    request_edns.udp_payload_size = 4096;
    request.edns = Some(request_edns);
    add_ecs(&mut request, v4(203, 0, 113, 99), 24, 0);

    let mut cached_response = cacheable_response_for_domain("example.com.", 120);
    add_ecs(&mut cached_response, v4(203, 0, 113, 0), 24, 20);
    cached_response
        .edns
        .as_mut()
        .unwrap()
        .options
        .push(EdnsOption::Other(10, vec![1, 2]));
    let item = CacheItem::new(cached_response, 120, 120_000);

    let response = item.resp.clone_with_id_and_record_ttl(request.id, 60);
    let restored = restore_cached_message(&item, &request, response);
    let edns = restored.edns.as_ref().expect("response should retain EDNS");

    assert_eq!(edns.udp_payload_size, 4096);
    assert_eq!(
        edns.subnet(),
        Some(ClientSubnet::new(IpAddr::V4(v4(203, 0, 113, 99)), 24, 20))
    );
    assert_eq!(edns.options.len(), 1);
}

#[test]
fn lazy_cache_hit_returns_stale_response_with_lazy_ttl() {
    let mut cfg = default_test_config();
    cfg.lazy_cache_ttl = Some(30);
    let mut cache = test_cache(cfg);

    let mut request = make_request_with_query("example.com.", false, false);
    request.id = 9;
    let key = build_cache_key(&request, false).unwrap();

    let mut response = cacheable_response_for_domain("example.com.", 120);
    response.authentic_data = true;
    stale_entry(&mut cache, &key, response, NOW + 10_000);

    let (lookup, response) = cache
        .try_cache_hit(&request, NOW)
        .expect("cache lookup should exist");
    assert!(matches!(lookup, DnsCacheLookup::Stale { .. }));
    let response = response.expect("stale cache hit should populate response");
    assert_eq!(response.id, 9);
    assert_eq!(response.answers[0].ttl, 30);
    assert!(
        !response.authentic_data,
        "stale cache hit must clear AD because cached validation state may no longer be valid"
    );
    assert_eq!(cache.store().metrics().lookup_total, 1);
    assert_eq!(cache.store().metrics().stale_hit_total, 1);
}

#[test]
fn ecs_lazy_cache_hit_returns_stale_response() {
    let mut cfg = default_test_config();
    cfg.lazy_cache_ttl = Some(3_600);
    cfg.ecs_in_key = Some(true);
    let mut cache = test_cache(cfg);

    let mut request = make_request_with_query("example.com.", false, false);
    add_ecs(&mut request, v4(203, 0, 113, 199), 24, 0);
    let key = build_cache_key(&request, true).unwrap();
    let mut response = cacheable_response_for_domain("example.com.", 120);
    add_ecs(&mut response, v4(203, 0, 113, 0), 24, 20);
    let stored_key = cache_key_for_response_ecs_scope(&key, &response)
        .expect("initial ECS response should produce a scoped cache key");

    seed(
        &mut cache,
        &stored_key,
        CacheItem::new_validated(response, 120, NOW - 1),
        NOW - 121_000,
        NOW + 3_000_000,
        NOW,
    );

    let (lookup, _) = cache
        .try_cache_hit(&request, NOW)
        .expect("cache lookup should exist");
    assert!(matches!(lookup, DnsCacheLookup::Stale { .. }));
    assert_eq!(cache.store().metrics().stale_hit_total, 1);

    let refresh = started(cache.begin_execute(&request, &Vec::new(), true, NOW));
    assert_eq!(refresh.key, stored_key);
    assert_eq!(refresh.request_key, key);
    let mut fetched = refreshed_response_for_domain("example.com.", 55);
    add_ecs(&mut fetched, v4(203, 0, 113, 199), 24, 16);
    cache.finish_lazy_refresh(
        &refresh.key,
        &refresh.request_key,
        refresh.generation,
        RefreshOutcome::Response(fetched),
        NOW,
    );

    assert_eq!(cache.store().metrics().lazy_refresh_success_total, 1);
    assert!(cache.store().entry(&stored_key).is_none());
    assert_eq!(cache.store().entry_count(), 1);
}

#[test]
fn cache_metrics_distinguish_miss_and_expired_lookup() {
    let mut cache = test_cache(default_test_config());

    let miss = make_request_with_query("missing.example.", false, false);
    let (lookup, _) = cache
        .try_cache_hit(&miss, NOW)
        .expect("cache lookup should exist");
    assert!(matches!(lookup, DnsCacheLookup::Miss { .. }));
    assert_eq!(cache.store().metrics().miss_total, 1);

    let expired = make_request_with_query("expired.example.", false, false);
    let key = build_cache_key(&expired, false).unwrap();
    let mut response = Message::new();
    response.rcode = Rcode::NoError;
    response
        .answers
        .push(answer("expired.example.", 1, v4(1, 1, 1, 1)));
    assert!(cache.store_mut().insert_or_update(
        key,
        CacheItem::new(response, 1, NOW),
        0,
        NOW,
        0,
        NOW
    ));

    let (lookup, _) = cache
        .try_cache_hit(&expired, NOW)
        .expect("cache lookup should exist");
    assert!(matches!(lookup, DnsCacheLookup::Miss { .. }));

    assert_eq!(cache.store().metrics().lookup_total, 2);
    assert_eq!(cache.store().metrics().miss_total, 1);
    assert_eq!(cache.store().metrics().expired_total, 1);
}

#[test]
fn cache_metrics_record_no_ttl_skip() {
    let mut cache = test_cache(default_test_config());
    let request = make_request_with_query("servfail.example.", false, false);
    let mut response = Message::new();
    response.rcode = Rcode::ServFail;
    run_without_next(&mut cache, &request, response);

    assert_eq!(cache.store().metrics().skip_no_ttl_total, 1);
    assert_eq!(cache.store().metrics().insert_total, 0);
}

#[test]
fn cache_metrics_record_low_positive_ttl_skip() {
    let mut cfg = default_test_config();
    cfg.min_positive_ttl = Some(4);
    let mut cache = test_cache(cfg);
    let request = make_request_with_query("example.com.", false, false);
    run_without_next(&mut cache, &request, bare_positive_response(3));

    assert_eq!(cache.store().entry_count(), 0);
    assert_eq!(cache.store().metrics().skip_low_positive_ttl_total, 1);
    assert_eq!(cache.store().metrics().insert_total, 0);
}

#[test]
fn lazy_cache_ttl_does_not_shorten_fresh_window() {
    let mut cfg = default_test_config();
    cfg.lazy_cache_ttl = Some(30);
    let mut cache = test_cache(cfg);
    let request = make_request_with_query("example.com.", false, false);
    let response = cacheable_response_for_domain("example.com.", 120);

    let key = build_cache_key(&request, false).unwrap();
    let disposition = response_disposition_for_cache(&response, &key);
    assert!(cache.update_cache_entry(&key, response, 120, disposition, NOW));

    let stored = cache.store().entry(&key).expect("entry should be present");
    assert_eq!(
        stored
            .expire_at_ms
            .saturating_sub(stored.item.fresh_until_ms)
            / 1000,
        0
    );
    assert_eq!(
        stored
            .item
            .fresh_until_ms
            .saturating_sub(stored.cache_time_ms)
            / 1000,
        120
    );
}

fn lazy_config() -> CacheConfig {
    let mut cfg = default_test_config();
    cfg.lazy_cache_ttl = Some(30);
    cfg.short_circuit = Some(true);
    cfg
}

#[test]
fn stale_hit_triggers_only_one_background_refresh() {
    let mut cache = test_cache(lazy_config());
    let request = make_request_with_query("example.com.", false, false);
    let key = build_cache_key(&request, false).unwrap();
    stale_entry(
        &mut cache,
        &key,
        cacheable_response_for_domain("example.com.", 120),
        NOW + 10_000,
    );

    let first = cache.begin_execute(&request, &Vec::new(), true, NOW);
    assert_eq!(first.action, ExecuteAction::Stop);
    let refresh = started(first);
    let second = cache.begin_execute(&request, &Vec::new(), true, NOW);
    assert!(second.response.is_some());
    assert_eq!(second.refresh, None);

    cache.finish_lazy_refresh(
        &refresh.key,
        &refresh.request_key,
        refresh.generation,
        RefreshOutcome::Response(refreshed_response_for_domain("example.com.", 55)),
        NOW,
    );

    let metrics = cache.store().metrics();
    assert_eq!(metrics.lazy_refresh_started_total, 1);
    assert_eq!(metrics.lazy_refresh_success_total, 1);
    assert_eq!(metrics.insert_total, 1);
    let stored = cache.store().entry(&key).expect("entry should exist");
    assert!(has_answer_ip(&stored.item.resp, v4(9, 9, 9, 9)));
}

#[test]
fn lazy_refresh_concurrency_limit_skips_busy_keys_without_queueing() {
    let mut cfg = lazy_config();
    cfg.lazy_refresh_concurrency = Some(1);
    let mut cache = test_cache(cfg);

    let request_a = make_request_with_query("a.example.", false, false);
    let request_b = make_request_with_query("b.example.", false, false);
    let key_a = build_cache_key(&request_a, false).unwrap();
    let key_b = build_cache_key(&request_b, false).unwrap();
    for (key, domain) in [(&key_a, "a.example."), (&key_b, "b.example.")] {
        stale_entry(
            &mut cache,
            key,
            cacheable_response_for_domain(domain, 120),
            NOW + 10_000,
        );
    }

    let refresh_a = started(cache.begin_execute(&request_a, &Vec::new(), true, NOW));
    let busy = cache.begin_execute(&request_b, &Vec::new(), true, NOW);
    assert!(busy.response.is_some());
    assert_eq!(busy.refresh, None);
    assert_eq!(cache.store().metrics().lazy_refresh_started_total, 1);
    assert_eq!(cache.store().metrics().lazy_refresh_skipped_busy_total, 1);
    assert_eq!(cache.store().metrics().lazy_refresh_failed_total, 0);

    cache.finish_lazy_refresh(
        &refresh_a.key,
        &refresh_a.request_key,
        refresh_a.generation,
        RefreshOutcome::Response(refreshed_response_for_domain("a.example.", 55)),
        NOW,
    );
    let refresh_b = started(cache.begin_execute(&request_b, &Vec::new(), true, NOW));
    cache.finish_lazy_refresh(
        &refresh_b.key,
        &refresh_b.request_key,
        refresh_b.generation,
        RefreshOutcome::Response(refreshed_response_for_domain("b.example.", 55)),
        NOW,
    );

    assert_eq!(cache.store().metrics().lazy_refresh_success_total, 2);
    assert_eq!(cache.store().metrics().lazy_refresh_started_total, 2);
    assert_eq!(cache.store().metrics().lazy_refresh_skipped_busy_total, 1);
    assert!(cache.store().entry(&key_b).is_some());
}

#[test]
fn lazy_refresh_same_key_dedup_does_not_count_as_busy_when_saturated() {
    let mut cfg = lazy_config();
    cfg.lazy_refresh_concurrency = Some(1);
    let mut cache = test_cache(cfg);
    let request = make_request_with_query("same.example.", false, false);
    let key = build_cache_key(&request, false).unwrap();
    stale_entry(
        &mut cache,
        &key,
        cacheable_response_for_domain("same.example.", 120),
        NOW + 10_000,
    );

    started(cache.begin_execute(&request, &Vec::new(), true, NOW));
    let duplicate = cache.begin_execute(&request, &Vec::new(), true, NOW);
    assert!(duplicate.response.is_some());
    assert_eq!(duplicate.refresh, None);

    assert_eq!(cache.store().metrics().lazy_refresh_started_total, 1);
    assert_eq!(
        cache.store().metrics().lazy_refresh_skipped_busy_total,
        0,
        "same-key deduplication must not be reported as global busy"
    );
    let item = CacheItem::new(
        cacheable_response_for_domain("same.example.", 120),
        120,
        NOW,
    );
    assert_eq!(
        cache.try_start_lazy_refresh(&key, &item, true, NOW),
        RefreshAdmission::Duplicate
    );
}

#[test]
fn destroy_cancels_lazy_refresh_and_closes_admission() {
    let mut cfg = lazy_config();
    cfg.lazy_refresh_concurrency = Some(1);
    let mut cache = test_cache(cfg);
    let request = make_request_with_query("example.com.", false, false);
    let key = build_cache_key(&request, false).unwrap();
    stale_entry(
        &mut cache,
        &key,
        cacheable_response_for_domain("example.com.", 120),
        NOW + 10_000,
    );

    let other = build_cache_key(&make_request_with_query("other.example.", false, false), false)
        .unwrap();
    let item = CacheItem::new(Message::new(), 120, NOW);

    let refresh = started(cache.begin_execute(&request, &Vec::new(), true, NOW));
    cache.close_lazy_refresh();
    // The only slot is taken, and the entry is in flight.
    assert_eq!(
        cache.try_start_lazy_refresh(&other, &item, true, NOW),
        RefreshAdmission::Busy
    );
    assert_eq!(
        cache.try_start_lazy_refresh(&key, &item, true, NOW),
        RefreshAdmission::Duplicate
    );
    cache.finish_lazy_refresh(
        &refresh.key,
        &refresh.request_key,
        refresh.generation,
        RefreshOutcome::Cancelled,
        NOW,
    );

    // The slot is free again and nothing is in flight: admission alone is closed.
    for refused in [&other, &key] {
        assert_eq!(
            cache.try_start_lazy_refresh(refused, &item, true, NOW),
            RefreshAdmission::Closed
        );
    }
    assert_eq!(cache.store().metrics().lazy_refresh_success_total, 0);
    assert_eq!(cache.store().metrics().lazy_refresh_failed_total, 0);

    let step = cache.begin_execute(&request, &Vec::new(), true, NOW);
    assert!(step.response.is_some());
    assert_eq!(step.refresh, None);

    assert_eq!(cache.store().metrics().lazy_refresh_started_total, 1);
    for refused in [&other, &key] {
        assert_eq!(
            cache.try_start_lazy_refresh(refused, &item, true, NOW),
            RefreshAdmission::Closed
        );
    }
    let stored = cache
        .store()
        .entry(&key)
        .expect("stale cache entry should remain after refresh cancellation");
    assert!(has_answer_ip(&stored.item.resp, v4(1, 1, 1, 1)));
}

#[test]
fn lazy_refresh_does_not_update_address_key_with_cname_only_response() {
    let mut cache = test_cache(lazy_config());
    let request = make_request_with_query("example.com.", false, false);
    let key = build_cache_key(&request, false).unwrap();
    stale_entry(
        &mut cache,
        &key,
        cacheable_response_for_domain("example.com.", 120),
        NOW + 10_000,
    );

    let refresh = started(cache.begin_execute(&request, &Vec::new(), true, NOW));
    cache.finish_lazy_refresh(
        &refresh.key,
        &refresh.request_key,
        refresh.generation,
        RefreshOutcome::Response(cname_only_response_for_domain("example.com.", 60)),
        NOW,
    );

    assert_eq!(cache.store().metrics().lazy_refresh_failed_total, 1);
    assert_eq!(cache.store().metrics().insert_total, 0);
    assert_eq!(cache.store().metrics().skip_incomplete_answer_total, 1);
    let stored = cache
        .store()
        .entry(&key)
        .expect("old stale entry should remain present");
    assert!(has_answer_ip(&stored.item.resp, v4(1, 1, 1, 1)));
}

#[test]
fn lazy_refresh_metrics_record_failed_refresh() {
    let mut cache = test_cache(lazy_config());
    let request = make_request_with_query("example.com.", false, false);
    let key = build_cache_key(&request, false).unwrap();
    stale_entry(
        &mut cache,
        &key,
        cacheable_response_for_domain("example.com.", 120),
        NOW + 10_000,
    );

    let refresh = started(cache.begin_execute(&request, &Vec::new(), true, NOW));
    cache.finish_lazy_refresh(
        &refresh.key,
        &refresh.request_key,
        refresh.generation,
        RefreshOutcome::Failed,
        NOW,
    );

    assert_eq!(cache.store().metrics().lazy_refresh_started_total, 1);
    assert_eq!(cache.store().metrics().lazy_refresh_failed_total, 1);
}

#[test]
fn lazy_refresh_failure_cooldown_suppresses_immediate_retry() {
    let mut cfg = lazy_config();
    cfg.lazy_refresh_failure_cooldown = Some(30);
    let mut cache = test_cache(cfg);
    let request = make_request_with_query("example.com.", false, false);
    let key = build_cache_key(&request, false).unwrap();
    stale_entry(
        &mut cache,
        &key,
        cacheable_response_for_domain("example.com.", 120),
        NOW + 60_000,
    );

    let refresh = started(cache.begin_execute(&request, &Vec::new(), true, NOW));
    cache.finish_lazy_refresh(
        &refresh.key,
        &refresh.request_key,
        refresh.generation,
        RefreshOutcome::Failed,
        NOW,
    );
    assert_eq!(cache.store().metrics().lazy_refresh_failed_total, 1);
    let stored = cache
        .store()
        .entry(&key)
        .expect("stale entry should remain after refresh failure");
    assert!(!stored.item.lazy_refresh_retry_allowed(NOW));

    let step = cache.begin_execute(&request, &Vec::new(), true, NOW);
    assert!(step.response.is_some());
    assert_eq!(step.refresh, None);
    assert_eq!(cache.store().metrics().lazy_refresh_started_total, 1);
    assert_eq!(
        cache.store().metrics().lazy_refresh_skipped_cooldown_total,
        1
    );

    // After the cooldown the refresh is tried again.
    let later = NOW + 30_000;
    let refresh = started(cache.begin_execute(&request, &Vec::new(), true, later));
    cache.finish_lazy_refresh(
        &refresh.key,
        &refresh.request_key,
        refresh.generation,
        RefreshOutcome::Failed,
        later,
    );
    assert_eq!(cache.store().metrics().lazy_refresh_failed_total, 2);
    assert_eq!(cache.store().metrics().lazy_refresh_started_total, 2);
}

#[test]
fn lazy_refresh_skips_low_positive_ttl_response() {
    let mut cfg = lazy_config();
    cfg.min_positive_ttl = Some(4);
    let mut cache = test_cache(cfg);
    let request = make_request_with_query("example.com.", false, false);
    let key = build_cache_key(&request, false).unwrap();
    stale_entry(
        &mut cache,
        &key,
        cacheable_response_for_domain("example.com.", 120),
        NOW + 10_000,
    );

    let refresh = started(cache.begin_execute(&request, &Vec::new(), true, NOW));
    cache.finish_lazy_refresh(
        &refresh.key,
        &refresh.request_key,
        refresh.generation,
        RefreshOutcome::Response(refreshed_response_for_domain("example.com.", 3)),
        NOW,
    );

    assert_eq!(cache.store().metrics().skip_low_positive_ttl_total, 1);
    assert_eq!(cache.store().metrics().lazy_refresh_failed_total, 1);
    assert!(
        cache.store().entry(&key).is_none(),
        "low TTL refresh should evict the old stale cache entry"
    );
}

#[test]
fn lazy_refresh_low_ttl_skip_does_not_remove_newer_cache_entry() {
    let mut cfg = lazy_config();
    cfg.min_positive_ttl = Some(4);
    let mut cache = test_cache(cfg);
    let request = make_request_with_query("example.com.", false, false);
    let key = build_cache_key(&request, false).unwrap();
    stale_entry(
        &mut cache,
        &key,
        cacheable_response_for_domain("example.com.", 120),
        NOW + 10_000,
    );

    let refresh = started(cache.begin_execute(&request, &Vec::new(), true, NOW));

    let mut newer_response = response_for("example.com.", RecordType::A);
    newer_response
        .answers
        .push(answer("example.com.", 90, v4(2, 2, 2, 2)));
    seed(
        &mut cache,
        &key,
        CacheItem::new(newer_response, 90, NOW + 90_000),
        NOW + 1,
        NOW + 90_000,
        NOW + 1,
    );

    cache.finish_lazy_refresh(
        &refresh.key,
        &refresh.request_key,
        refresh.generation,
        RefreshOutcome::Response(refreshed_response_for_domain("example.com.", 3)),
        NOW,
    );
    assert_eq!(cache.store().metrics().skip_low_positive_ttl_total, 1);

    let stored = cache
        .store()
        .entry(&key)
        .expect("newer cache entry should remain present");
    assert!(has_answer_ip(&stored.item.resp, v4(2, 2, 2, 2)));
}

#[test]
fn dump_schedule_preserves_user_interval_above_dirty_age_target() {
    let (interval_secs, check_interval_ms, dirty_age_target_ms) = dump_schedule(7_200);

    assert_eq!(interval_secs, 7_200);
    assert_eq!(check_interval_ms, 7_200_000);
    assert_eq!(dirty_age_target_ms, 7_200_000);
}

#[test]
fn dump_schedule_keeps_dirty_age_target_for_short_intervals() {
    let (interval_secs, check_interval_ms, dirty_age_target_ms) = dump_schedule(60);

    assert_eq!(interval_secs, 60);
    assert_eq!(check_interval_ms, 60_000);
    assert_eq!(dirty_age_target_ms, DIRTY_DUMP_TARGET_MS);
}

#[test]
fn validate_config_rejects_zero_dump_interval_when_dump_file_is_set() {
    let cfg = CacheConfig {
        size: Some(128),
        lazy_cache_ttl: None,
        lazy_refresh_concurrency: None,
        lazy_refresh_failure_cooldown: None,
        dump_file: Some("cache.dump".to_string()),
        dump_interval: Some(0),
        short_circuit: Some(false),
        cache_negative: Some(true),
        max_negative_ttl: Some(60),
        negative_ttl_without_soa: Some(60),
        max_positive_ttl: None,
        min_positive_ttl: None,
        ecs_in_key: None,
    };

    assert!(validate_cache_config(&cfg).is_err());
}

#[test]
fn validate_config_rejects_zero_lazy_refresh_concurrency() {
    let mut cfg = default_test_config();
    cfg.lazy_refresh_concurrency = Some(0);

    assert!(validate_cache_config(&cfg).is_err());
}

#[test]
fn validate_config_rejects_zero_lazy_refresh_failure_cooldown() {
    let mut cfg = default_test_config();
    cfg.lazy_refresh_failure_cooldown = Some(0);

    assert!(validate_cache_config(&cfg).is_err());
}

#[test]
fn validate_config_rejects_zero_min_positive_ttl() {
    let mut cfg = default_test_config();
    cfg.min_positive_ttl = Some(0);

    assert!(validate_cache_config(&cfg).is_err());
}

#[test]
fn validate_config_rejects_min_positive_ttl_above_max_positive_ttl() {
    let mut cfg = default_test_config();
    cfg.min_positive_ttl = Some(11);
    cfg.max_positive_ttl = Some(10);

    assert!(validate_cache_config(&cfg).is_err());
}

#[test]
fn followers_wait_for_the_leader_and_share_its_answer() {
    let mut cache = test_cache(default_test_config());
    let request = make_request_with_query("example.com.", false, false);

    let lead = cache.begin_execute(&request, &Vec::new(), true, NOW);
    let (flight, key) = match lead.action {
        ExecuteAction::Lead(flight, key) => (flight, key),
        other => panic!("the first request should lead, not {other:?}"),
    };
    let wait = cache.begin_execute(&request, &Vec::new(), true, NOW);
    assert_eq!(wait.action, ExecuteAction::Wait(flight));

    assert!(cache.finish_lead(
        &key,
        flight,
        Some(refreshed_response_for_domain("example.com.", 55)),
        NOW
    ));
    let answered = cache.after_wait(&request, false, true, NOW);
    assert!(has_answer_ip(
        &answered.response.expect("the follower should be answered"),
        v4(9, 9, 9, 9)
    ));
    assert_eq!(cache.store().metrics().miss_coalesced_total, 1);

    let late = cache.after_wait(&request, true, false, NOW);
    assert_eq!(late.action, ExecuteAction::Continue);
    assert_eq!(cache.store().metrics().miss_coalesce_timeout_total, 1);
}

#[test]
fn no_stale_answer_without_a_lazy_period() {
    let mut cache = test_cache(default_test_config());
    let request = make_request_with_query("example.com.", false, false);
    let key = build_cache_key(&request, false).unwrap();
    stale_entry(
        &mut cache,
        &key,
        cacheable_response_for_domain("example.com.", 120),
        NOW + 10_000,
    );

    let (lookup, response) = cache
        .try_cache_hit(&request, NOW)
        .expect("cache lookup should exist");
    assert!(matches!(lookup, DnsCacheLookup::Miss { .. }));
    assert!(response.is_none());
}

#[test]
fn cleanup_runs_once_at_a_time() {
    let mut state = CleanupState::new();
    assert!(state.begin(true, 1));
    assert!(!state.begin(true, 2));
    state.end();
    assert!(!state.begin(false, 2));
    assert!(state.begin(true, 2));
    state.end();
    assert!(state.begin(false, 60_002));

    let mut cache = test_cache(default_test_config());
    for idx in 0..10u64 {
        seed(
            &mut cache,
            &cache_key_for_domain(&format!("old-{idx}.example")),
            CacheItem::new(Message::new(), 60, NOW - 1),
            NOW - 100,
            NOW - 1,
            NOW - 100,
        );
    }
    assert_eq!(cleanup(cache.store_mut(), NOW), (10, 0, 0));
    assert_eq!(cache.store().entry_count(), 0);
}

#[test]
fn quick_setup_reads_its_words() {
    let factory = CacheFactory;
    assert!(factory
        .quick_setup("c".to_string(), "short_circuit=true")
        .is_ok());
    assert!(factory
        .quick_setup("c".to_string(), "short_circuit=perhaps")
        .is_err());
    assert!(factory.quick_setup("c".to_string(), "size").is_err());
}

#[test]
fn samples_carry_the_counts() {
    let mut cache = test_cache(default_test_config());
    let request = make_request_with_query("missing.example.", false, false);
    cache
        .try_cache_hit(&request, NOW)
        .expect("cache lookup should exist");

    let samples = cache.collect();
    let of = |name: &str, label: &str| {
        samples
            .iter()
            .find(|sample| {
                sample.name == name && sample.labels.iter().any(|(_, value)| value == label)
            })
            .map(|sample| (sample.kind, sample.value))
    };
    assert_eq!(
        of("cache_lazy_refresh_total", "started"),
        Some((MetricKind::Counter, 0))
    );
    assert_eq!(
        of("cache_skip_total", "no_ttl"),
        Some((MetricKind::Counter, 0))
    );
    assert_eq!(
        of("cache_miss_total", "test"),
        Some((MetricKind::Counter, 1))
    );
}

#[test]
fn a_stale_answer_is_not_called_authentic() {
    let mut response = cacheable_response_for_domain("stale-ad.example.com.", 60);
    response.authentic_data = true;
    let request = make_request_with_query("stale-ad.example.com.", false, false);
    let item = CacheItem::new(response.copy(), 60, NOW);
    // The cached response itself stays as it was.
    let restored = restore_stale_cached_message(&item, &request, 5);
    assert!(restored.authentic_data);
    assert_eq!(restored.answers[0].ttl, 5);

    let mut config = default_test_config();
    config.lazy_cache_ttl = Some(300);
    let mut cache = test_cache(config);
    let key = build_cache_key(&request, false).unwrap();
    stale_entry(&mut cache, &key, response, NOW + 60_000);
    let (found, answer) = cache.try_cache_hit(&request, NOW).unwrap();
    assert!(matches!(found, DnsCacheLookup::Stale { .. }));
    assert!(!answer.unwrap().authentic_data);
}

#[test]
fn hits_leave_an_entry_as_it_is() {
    let mut cache = test_cache(default_test_config());
    let request = make_request_with_query("hit.example.com.", false, false);
    run_without_next(
        &mut cache,
        &request,
        cacheable_response_for_domain("hit.example.com.", 60),
    );
    let key = build_cache_key(&request, false).unwrap();
    let before = cache.store().entry(&key).unwrap();
    for i in 0..5 {
        let (found, answer) = cache.try_cache_hit(&request, NOW + i * 1_000).unwrap();
        assert!(found.is_hit());
        assert_eq!(answer.unwrap().answers[0].ttl, 60 - i as u32);
    }
    assert_eq!(cache.store().entry(&key).unwrap(), before);
}

#[test]
fn clients_of_one_scope_share_a_response() {
    let mut config = default_test_config();
    config.ecs_in_key = Some(true);
    let mut cache = test_cache(config);
    let mut request = make_request_with_query("scope.example.com.", false, false);
    add_ecs(&mut request, v4(203, 0, 113, 0), 24, 0);
    let mut response = cacheable_response_for_domain("scope.example.com.", 60);
    add_ecs(&mut response, v4(203, 0, 113, 0), 24, 20);
    run_without_next(&mut cache, &request, response);

    let mut neighbour = make_request_with_query("scope.example.com.", false, false);
    add_ecs(&mut neighbour, v4(203, 0, 112, 0), 24, 0);
    let (found, answer) = cache.try_cache_hit(&neighbour, NOW).unwrap();
    assert!(found.is_hit());
    assert!(has_answer_ip(&answer.unwrap(), v4(1, 1, 1, 1)));

    let mut stranger = make_request_with_query("scope.example.com.", false, false);
    add_ecs(&mut stranger, v4(198, 51, 100, 0), 24, 0);
    let (found, answer) = cache.try_cache_hit(&stranger, NOW).unwrap();
    assert!(!found.is_hit());
    assert!(answer.is_none());
}
