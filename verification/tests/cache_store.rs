//! The store of cached responses and the bookkeeping of its changes.

use resolver_plugins::cache::ecs_index::EcsLookupIndex;
use resolver_plugins::cache::item::CacheItem;
use resolver_plugins::cache::key::{CacheKey, EcsScopeDigest};
use resolver_plugins::cache::metrics::CacheMetrics;
use resolver_plugins::cache::mutation::CacheMutationState;
use resolver_plugins::cache::store::{
    CacheMap, DnsCacheLookup, DnsCacheStore, TtlCacheConditionalMoveResult, TtlCacheMoveMetadata,
};
use resolver_plugins::proto::message::{DNSClass, Message, RecordType};
use resolver_plugins::ttl_cache::TtlCachePruneMode;

const NOW: u64 = 100_000;

fn test_key(domain: &str) -> CacheKey {
    CacheKey {
        domain: domain.to_string(),
        record_type: RecordType::A,
        dns_class: DNSClass::IN,
        do_bit: false,
        cd_bit: false,
        ecs_scope: None,
    }
}

fn test_ecs_key(domain: &str, prefix: u8) -> CacheKey {
    let mut network = [0u8; 16];
    network[..4].copy_from_slice(&[203, 0, 113, 0]);
    CacheKey {
        ecs_scope: Some(EcsScopeDigest {
            family: 1,
            source_prefix: prefix,
            scope_prefix: prefix,
            network_len: prefix.saturating_add(7) / 8,
            network,
        }),
        ..test_key(domain)
    }
}

fn test_store(cache_size: usize) -> DnsCacheStore {
    DnsCacheStore::new(
        CacheMap::with_capacity(cache_size.max(1)),
        cache_size,
        EcsLookupIndex::new(),
        CacheMetrics::new("store-test".to_string()),
    )
}

fn item(ttl: u32, fresh_until_ms: u64) -> CacheItem {
    CacheItem::new_validated(Message::new(), ttl, fresh_until_ms)
}

fn insert(store: &mut DnsCacheStore, key: &CacheKey, item: CacheItem, at: u64, until: u64) -> bool {
    store.insert_or_update(key.copy(), item, at, until, at, at)
}

#[test]
fn insert_and_remove_keep_mutation_bookkeeping_together() {
    let mut store = test_store(1);
    let key = test_key("example.com");

    assert!(insert(
        &mut store,
        &key,
        item(60, NOW + 60_000),
        NOW,
        NOW + 60_000
    ));
    assert_eq!(store.mutations().updated_keys, 1);
    assert_eq!(store.mutations().dirty_generation, 1);
    assert_eq!(store.metrics().insert_total, 1);

    assert!(store.remove(&key, NOW));
    assert_eq!(store.mutations().updated_keys, 2);
    assert_eq!(store.mutations().dirty_generation, 2);
}

#[test]
fn conditional_move_consolidation_marks_cache_dirty_without_counting_insert() {
    let mut store = test_store(4);
    let source = test_key("source.example");
    let target = test_key("target.example");

    assert!(insert(
        &mut store,
        &source,
        item(60, NOW + 60_000),
        NOW,
        NOW + 60_000
    ));
    assert!(insert(
        &mut store,
        &target,
        item(120, NOW + 120_000),
        NOW,
        NOW + 120_000
    ));
    let expected = store.entry(&source).expect("source should exist");
    let before_dirty = store.mutations().dirty_generation;
    let before_inserts = store.metrics().insert_total;

    assert_eq!(
        store.conditional_move_handle(
            &source,
            target.copy(),
            expected.generation,
            item(30, NOW + 30_000),
            TtlCacheMoveMetadata {
                cache_time_ms: NOW,
                expire_at_ms: NOW + 30_000,
                last_access_ms: NOW,
            },
            NOW,
        ),
        TtlCacheConditionalMoveResult::Consolidated
    );

    assert!(store.entry(&source).is_none());
    let target_entry = store
        .entry(&target)
        .expect("existing target should remain");
    assert_eq!(target_entry.item.ttl, 120);
    assert_eq!(store.entry_count(), 1);
    assert_eq!(store.mutations().dirty_generation, before_dirty + 1);
    assert_eq!(store.metrics().insert_total, before_inserts);
}

#[test]
fn conditional_move_replaces_stale_retained_target() {
    let mut store = test_store(4);
    let commit_time = NOW + 2_000;
    let source = test_ecs_key("stale-merge.example", 24);
    let target = test_ecs_key("stale-merge.example", 20);

    assert!(insert(
        &mut store,
        &source,
        item(60, NOW + 1_000),
        NOW,
        NOW + 120_000
    ));
    assert!(insert(
        &mut store,
        &target,
        item(120, NOW + 1_000),
        NOW,
        NOW + 120_000
    ));
    let expected = store.entry(&source).expect("source should remain retained");
    let before_inserts = store.metrics().insert_total;

    assert_eq!(
        store.conditional_move_handle(
            &source,
            target.copy(),
            expected.generation,
            item(30, commit_time + 30_000),
            TtlCacheMoveMetadata {
                cache_time_ms: commit_time,
                expire_at_ms: commit_time + 60_000,
                last_access_ms: commit_time,
            },
            commit_time,
        ),
        TtlCacheConditionalMoveResult::ReplacedTarget
    );

    assert!(store.entry(&source).is_none());
    let target_entry = store
        .entry(&target)
        .expect("stale retained target should be replaced by refresh");
    assert_eq!(target_entry.item.ttl, 30);
    assert_eq!(store.entry_count(), 1);
    assert_eq!(store.metrics().insert_total, before_inserts + 1);
}

#[test]
fn conditional_move_preserves_target_refreshed_before_commit() {
    let mut store = test_store(4);
    let commit_time = NOW + 2_000;
    let source = test_ecs_key("race-merge.example", 24);
    let target = test_ecs_key("race-merge.example", 20);

    assert!(insert(
        &mut store,
        &source,
        item(60, NOW + 1_000),
        NOW,
        NOW + 120_000
    ));
    assert!(insert(
        &mut store,
        &target,
        item(120, NOW + 1_000),
        NOW,
        NOW + 120_000
    ));
    let expected = store.entry(&source).expect("source should remain retained");

    // Another refresh publishes a fresh target while this one is under way.
    assert!(insert(
        &mut store,
        &target,
        item(240, commit_time + 240_000),
        commit_time - 1,
        commit_time + 300_000
    ));
    let before_inserts = store.metrics().insert_total;

    assert_eq!(
        store.conditional_move_handle(
            &source,
            target.copy(),
            expected.generation,
            item(30, commit_time + 30_000),
            TtlCacheMoveMetadata {
                cache_time_ms: commit_time,
                expire_at_ms: commit_time + 60_000,
                last_access_ms: commit_time,
            },
            commit_time,
        ),
        TtlCacheConditionalMoveResult::Consolidated
    );

    assert!(store.entry(&source).is_none());
    let target_entry = store
        .entry(&target)
        .expect("concurrently refreshed target should be preserved");
    assert_eq!(target_entry.item.ttl, 240);
    assert_eq!(store.entry_count(), 1);
    assert_eq!(store.metrics().insert_total, before_inserts);
}

#[test]
fn prune_marks_ecs_lookup_index_for_deferred_rebuild() {
    let mut store = test_store(4);
    let expired = test_ecs_key("expired.example", 24);
    let live = test_ecs_key("live.example", 16);

    assert!(insert(&mut store, &expired, item(1, NOW), NOW - 1_000, NOW));
    assert!(insert(
        &mut store,
        &live,
        item(60, NOW + 60_000),
        NOW,
        NOW + 60_000
    ));
    assert_eq!(store.ecs_lookup_index().observed_ipv4_prefixes(), 2);
    assert_eq!(store.ecs_lookup_index().indexed_base_keys(), 2);

    let (expired_removed, _, _) = store.prune(TtlCachePruneMode::Exact { max_size: 4 }, NOW);

    assert_eq!(expired_removed, 1);
    assert!(store.ecs_lookup_index_needs_rebuild());
    assert_eq!(store.ecs_lookup_index().observed_ipv4_prefixes(), 2);
    assert_eq!(store.ecs_lookup_index().indexed_base_keys(), 2);

    store.rebuild_ecs_lookup_index_if_needed();

    assert!(!store.ecs_lookup_index_needs_rebuild());
    assert_eq!(store.ecs_lookup_index().observed_ipv4_prefixes(), 1);
    assert_eq!(store.ecs_lookup_index().indexed_base_keys(), 1);
}

#[test]
fn rejected_ecs_admission_does_not_publish_index_hints() {
    let mut store = test_store(1);

    assert!(insert(
        &mut store,
        &test_ecs_key("resident.example", 24),
        item(60, NOW + 60_000),
        NOW,
        NOW + 60_000
    ));
    assert_eq!(store.ecs_lookup_index().indexed_base_keys(), 1);
    assert_eq!(store.ecs_lookup_index().observed_ipv4_prefixes(), 1);
    assert!(!store.ecs_lookup_index_needs_rebuild());

    for attempt in 0..128 {
        assert!(!insert(
            &mut store,
            &test_ecs_key(&format!("rejected-{attempt}.example"), 16),
            item(60, NOW + 60_000),
            NOW,
            NOW + 60_000
        ));
    }

    assert_eq!(store.entry_count(), 1);
    assert_eq!(store.ecs_lookup_index().indexed_base_keys(), 1);
    assert_eq!(store.ecs_lookup_index().observed_ipv4_prefixes(), 1);
    assert!(!store.ecs_lookup_index_needs_rebuild());
    assert!(store.take_pressure_requested());
}

#[test]
fn rejected_admission_requests_pressure_cleanup_without_dirtying_cache() {
    let mut store = test_store(1);

    assert!(insert(
        &mut store,
        &test_key("one.example"),
        item(60, NOW + 60_000),
        NOW,
        NOW + 60_000
    ));
    let before_dirty = store.mutations().dirty_generation;
    let before_inserts = store.metrics().insert_total;

    assert!(!insert(
        &mut store,
        &test_key("two.example"),
        item(60, NOW + 60_000),
        NOW,
        NOW + 60_000
    ));
    assert!(store.take_pressure_requested());
    assert_eq!(store.mutations().dirty_generation, before_dirty);
    assert_eq!(store.metrics().insert_total, before_inserts);
}

#[test]
fn lookup_classifies_fresh_stale_and_miss() {
    let mut store = test_store(4);

    let fresh_key = test_key("fresh.example");
    assert!(insert(
        &mut store,
        &fresh_key,
        item(60, NOW + 60_000),
        NOW,
        NOW + 60_000
    ));
    let fresh = store.lookup(fresh_key, NOW, 0, false);
    assert!(matches!(
        fresh,
        DnsCacheLookup::Fresh {
            remaining_ttl: 60,
            ..
        }
    ));

    let stale_key = test_key("stale.example");
    assert!(store.insert_or_update(
        stale_key.copy(),
        item(60, NOW - 1),
        NOW - 60_001,
        NOW + 60_000,
        NOW,
        NOW,
    ));
    let stale = store.lookup(stale_key, NOW, 0, true);
    assert!(matches!(stale, DnsCacheLookup::Stale { .. }));

    let miss = store.lookup(test_key("missing.example"), NOW, 0, false);
    assert!(matches!(miss, DnsCacheLookup::Miss { .. }));
    assert_eq!(store.metrics().lookup_total, 3);
    assert_eq!(store.metrics().fresh_hit_total, 1);
    assert_eq!(store.metrics().stale_hit_total, 1);
    assert_eq!(store.metrics().miss_total, 1);
}

#[test]
fn expired_lookup_accounts_for_internal_ttl_removal_once() {
    let mut store = test_store(4);
    let key = test_key("expired.example");

    assert!(insert(&mut store, &key, item(1, NOW + 1), NOW, NOW + 1));

    store.set_mutations(CacheMutationState::new());
    assert_eq!(store.metrics().expired_total, 0);

    let result = store.lookup(key, NOW + 2, 0, false);
    assert!(matches!(result, DnsCacheLookup::Miss { .. }));
    assert_eq!(store.mutations().updated_keys, 1);
    assert_eq!(store.mutations().dirty_generation, 1);
    assert_eq!(store.metrics().expired_total, 1);
    assert_eq!(store.entry_count(), 0);
}

fn state(updated_keys: u64, dirty_since_ms: u64, dirty_generation: u64) -> CacheMutationState {
    let mut state = CacheMutationState::new();
    state.updated_keys = updated_keys;
    state.dirty_since_ms = dirty_since_ms;
    state.dirty_generation = dirty_generation;
    state
}

#[test]
fn dump_age_due_accounts_for_the_next_scheduler_tick() {
    assert!(state(0, 1, 1)
        .begin_dump_if_due(1, 1024, 120_000, 120_000)
        .is_some());

    assert!(state(0, 1, 1)
        .begin_dump_if_due(120_000, 1024, 120_000, 120_000)
        .is_some());

    let mut state = state(0, 1, 1);
    assert!(state
        .begin_dump_if_due(60_000, 1024, 120_000, 60_000)
        .is_none());
    assert!(state
        .begin_dump_if_due(60_001, 1024, 120_000, 60_000)
        .is_some());
}

#[test]
fn dirty_timestamp_reserves_zero_for_clean_state() {
    assert_eq!(CacheMutationState::dirty_timestamp(0), 1);
    assert_eq!(CacheMutationState::dirty_timestamp(1), 1);
    assert_eq!(CacheMutationState::dirty_timestamp(42), 42);
}

#[test]
fn successful_dump_handoff_clears_old_dirty_watermark() {
    let mut state = state(1024, 10, 7);

    let handoff = state
        .begin_dump_if_due(20, 1024, 120_000, 60_000)
        .expect("dump should start");
    assert_eq!(handoff.generation, 7);
    assert_eq!(handoff.previous_dirty_since_ms, 10);
    assert_eq!(state.dirty_since_ms, 0);

    assert!(handoff.complete(&mut state));
    assert_eq!(state.persisted_generation, 7);
    assert_eq!(state.dirty_since_ms, 0);
}

#[test]
fn dump_handoff_preserves_new_mutation_watermark() {
    let mut state = state(1024, 10, 7);

    let handoff = state
        .begin_dump_if_due(20, 1024, 120_000, 60_000)
        .expect("dump should start");
    assert_eq!(handoff.previous_dirty_since_ms, 10);
    assert_eq!(state.dirty_since_ms, 0);

    state.mark_dirty(1, 25);
    assert_eq!(state.dirty_generation, 8);
    assert_ne!(state.dirty_since_ms, 0);

    assert!(!handoff.complete(&mut state));
    assert_eq!(state.persisted_generation, 7);
    assert_ne!(state.dirty_since_ms, 0);
}

#[test]
fn failed_dump_restores_previous_dirty_watermark_and_change_count() {
    let mut state = state(2048, 100, 5);

    let handoff = state
        .begin_dump_if_due(200, 1024, 120_000, 60_000)
        .expect("dump should start");
    assert_eq!(handoff.previous_dirty_since_ms, 100);
    assert_eq!(state.updated_keys, 0);
    assert_eq!(state.dirty_since_ms, 0);

    // A newer change comes during the failed dump.
    state.dirty_since_ms = 200;
    handoff.abort(&mut state);

    assert_eq!(state.updated_keys, 2048);
    assert_eq!(state.dirty_since_ms, 100);
}

#[test]
fn dropped_dump_handoff_rolls_back_for_cancellation_safety() {
    let mut state = state(1024, 100, 5);

    let mut handoff = state
        .begin_dump_if_due(200, 1024, 120_000, 60_000)
        .expect("dump should start");
    assert_eq!(state.updated_keys, 0);
    assert_eq!(state.dirty_since_ms, 0);

    handoff.rollback(&mut state);

    assert_eq!(state.updated_keys, 1024);
    assert_eq!(state.dirty_since_ms, 100);
    assert_eq!(state.persisted_generation, 0);

    // A second rollback gives nothing back again.
    handoff.rollback(&mut state);
    assert_eq!(state.updated_keys, 1024);
}

#[test]
fn skipped_dump_restores_counter_without_advancing_generation() {
    let mut state = CacheMutationState::new();
    state.mark_dirty(7, 50);
    let generation = state.dirty_generation;
    let dirty_since = state.dirty_since_ms;

    assert!(state
        .begin_dump_if_due(dirty_since, 1024, 120_000, 60_000)
        .is_none());
    assert_eq!(state.updated_keys, 7);
    assert_eq!(state.dirty_generation, generation);
    assert_eq!(state.dirty_since_ms, dirty_since);
}

#[test]
fn a_move_of_a_changed_source_does_nothing() {
    let mut store = test_store(4);
    let source = test_key("source.example");
    let target = test_key("target.example");
    assert!(insert(
        &mut store,
        &source,
        item(60, NOW + 60_000),
        NOW,
        NOW + 60_000
    ));
    let before = store.entry(&source).expect("source should exist");

    let metadata = TtlCacheMoveMetadata {
        cache_time_ms: NOW,
        expire_at_ms: NOW + 30_000,
        last_access_ms: NOW,
    };
    assert_eq!(
        store.conditional_move_handle(
            &source,
            target.copy(),
            before.generation + 1,
            item(30, NOW + 30_000),
            metadata,
            NOW,
        ),
        TtlCacheConditionalMoveResult::SourceChanged
    );
    assert!(store.entry(&target).is_none());
    assert_eq!(store.entry(&source).map(|entry| entry.item.ttl), Some(60));

    // With the right generation and no target, the entry moves.
    let metadata = TtlCacheMoveMetadata {
        cache_time_ms: NOW,
        expire_at_ms: NOW + 30_000,
        last_access_ms: NOW,
    };
    assert_eq!(
        store.conditional_move_handle(
            &source,
            target.copy(),
            before.generation,
            item(30, NOW + 30_000),
            metadata,
            NOW,
        ),
        TtlCacheConditionalMoveResult::Moved
    );
    assert!(store.entry(&source).is_none());
    assert_eq!(store.entry(&target).map(|entry| entry.item.ttl), Some(30));
}

#[test]
fn pruning_evicts_the_entries_used_longest_ago() {
    let mut store = test_store(8);
    for (i, domain) in ["a.example", "b.example", "c.example", "d.example"]
        .iter()
        .enumerate()
    {
        let at = NOW + i as u64;
        assert!(insert(
            &mut store,
            &test_key(domain),
            item(60, at + 60_000),
            at,
            at + 60_000
        ));
    }

    let (expired, evicted, remaining) =
        store.prune(TtlCachePruneMode::Exact { max_size: 2 }, NOW + 10);

    assert_eq!((expired, evicted, remaining), (0, 2, 2));
    assert!(store.entry(&test_key("a.example")).is_none());
    assert!(store.entry(&test_key("b.example")).is_none());
    assert!(store.entry(&test_key("c.example")).is_some());
    assert!(store.entry(&test_key("d.example")).is_some());
}
