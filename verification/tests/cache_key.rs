//! Keys of cached responses and the index of their subnets.

use resolver_plugins::cache::ecs_index::{cache_lookup_keys, EcsLookupIndex};
use resolver_plugins::cache::key::{
    build_cache_key, build_ecs_scope_digest, cache_key_for_response_ecs_scope,
    canonical_domain_from_text, canonical_ecs_key_digest, is_cacheable_request,
    normalize_cache_key_domain,
    normalize_domain_key, persisted_ecs_key_matches_response, write_truncated_prefix, CacheKey,
};
use resolver_plugins::proto::message::{
    ClientSubnet, DNSClass, Edns, EdnsOption, IpAddr, Message, Opcode, Question, RecordType,
};
use resolver_plugins::proto::name::Name;

fn v4(octets: [u8; 4]) -> IpAddr {
    IpAddr::V4(u32::from_be_bytes(octets))
}

fn v6(groups: [u16; 8]) -> IpAddr {
    let mut bits = 0u128;
    for group in groups {
        bits = bits << 16 | u128::from(group);
    }
    IpAddr::V6(bits)
}

fn make_request(name: &str) -> Message {
    let mut request = Message::new();
    request.questions.push(Question::new(
        Name::from_ascii(name).expect("query name should be valid"),
        RecordType::A,
        DNSClass::IN,
    ));
    request
}

fn subnet_edns(addr: IpAddr, source_prefix: u8, scope_prefix: u8) -> Option<Edns> {
    let mut edns = Edns::new();
    edns.options.push(EdnsOption::Subnet(ClientSubnet::new(
        addr,
        source_prefix,
        scope_prefix,
    )));
    Some(edns)
}

fn request_with_subnet(addr: IpAddr, source_prefix: u8) -> Message {
    let mut request = make_request("example.com.");
    request.edns = subnet_edns(addr, source_prefix, 0);
    request
}

fn key_with_subnet(addr: IpAddr, source_prefix: u8) -> CacheKey {
    build_cache_key(&request_with_subnet(addr, source_prefix), true)
        .expect("request key should exist")
}

fn response_with_subnet(addr: IpAddr, source_prefix: u8, scope_prefix: u8) -> Message {
    let mut response = Message::new();
    response.edns = subnet_edns(addr, source_prefix, scope_prefix);
    response
}

fn exhaustive_index_for(key: &CacheKey) -> EcsLookupIndex {
    let mut index = EcsLookupIndex::new();
    if let Some(ecs) = &key.ecs_scope {
        for prefix in 0..=ecs.source_prefix {
            index.observe_cache_key(&key.with_ecs_scope_prefix(prefix));
        }
    }
    index
}

fn covering_prefixes(key: &CacheKey, index: &EcsLookupIndex) -> Vec<u8> {
    cache_lookup_keys(key, index)
        .iter()
        .filter(|candidate| *candidate != key)
        .map(|candidate| {
            candidate
                .ecs_scope
                .as_ref()
                .expect("candidate should carry ECS")
                .scope_prefix
        })
        .collect()
}

#[test]
fn test_normalize_domain_key_trims_lowercases_and_strips_dot() {
    let normalized = normalize_domain_key("  WWW.Example.COM.  ");

    assert_eq!(normalized, "www.example.com");
}

#[test]
fn test_normalize_domain_key_preserves_root_domain() {
    assert_eq!(normalize_domain_key(" . "), ".");
    assert_eq!(normalize_domain_key(""), "");
}

#[test]
fn test_normalize_domain_key_preserves_escaped_terminal_dot() {
    assert_eq!(normalize_domain_key(r"foo\."), r"foo\.");
    assert_eq!(normalize_domain_key(r"foo\.."), r"foo\.");
    assert_eq!(normalize_domain_key(r"foo\046"), r"foo\.");
}

#[test]
fn test_normalize_cache_key_domain_requires_valid_nonempty_dns_text() {
    assert_eq!(normalize_cache_key_domain(" . "), Some(".".to_string()));
    assert_eq!(normalize_cache_key_domain(""), None);
    assert_eq!(normalize_cache_key_domain("   "), None);
}

#[test]
fn test_normalize_cache_key_domain_parses_dns_escapes() {
    assert_eq!(
        normalize_cache_key_domain(r"Foo\."),
        Some(r"foo\.".to_string())
    );
    assert_eq!(
        normalize_cache_key_domain(r"foo\.."),
        Some(r"foo\.".to_string())
    );
    assert_eq!(
        normalize_cache_key_domain(r"foo\046"),
        Some(r"foo\.".to_string())
    );
    assert_eq!(normalize_cache_key_domain("foo\\"), None);
}

#[test]
fn test_build_cache_key_uses_dot_for_real_root_query() {
    let cache_key =
        build_cache_key(&make_request("."), false).expect("root cache key should exist");

    assert_eq!(cache_key.domain, ".");
    assert_eq!(
        cache_key
            .question()
            .expect("root question should rebuild")
            .name
            .to_fqdn(),
        "."
    );
}

#[test]
fn test_write_truncated_prefix_masks_partial_byte() {
    let mut out = [0u8; 16];

    let network_len = write_truncated_prefix(&[0b1111_0000, 0b1010_1010], 12, &mut out);

    assert_eq!(network_len, 2);
    assert_eq!(out[0], 0b1111_0000);
    assert_eq!(out[1], 0b1010_0000);
}

#[test]
fn test_build_ecs_scope_digest_clamps_prefix_and_truncates_network() {
    let subnet = ClientSubnet::new(v4([192, 0, 2, 129]), 40, 48);

    let digest = build_ecs_scope_digest(&subnet);

    assert_eq!(digest.family, 1);
    assert_eq!(digest.source_prefix, 32);
    assert_eq!(digest.scope_prefix, 32);
    assert_eq!(digest.network_len, 4);
    assert_eq!(&digest.network[..4], &[192, 0, 2, 129]);
}

#[test]
fn test_build_cache_key_uses_normalized_query_and_flags() {
    let mut request = make_request("WWW.Example.COM.");
    request.checking_disabled = true;
    let mut edns = Edns::new();
    edns.dnssec_ok = true;
    request.edns = Some(edns);

    let cache_key = build_cache_key(&request, false).expect("cache key should exist");

    assert_eq!(cache_key.domain, "www.example.com");
    assert_eq!(cache_key.record_type, RecordType::A);
    assert!(cache_key.do_bit);
    assert!(cache_key.cd_bit);
    assert_eq!(cache_key.ecs_scope, None);
}

#[test]
fn test_build_cache_key_includes_ecs_when_enabled() {
    let cache_key = key_with_subnet(v4([203, 0, 113, 199]), 20);

    let ecs = cache_key.ecs_scope.expect("ecs should be present");
    assert_eq!(ecs.family, 1);
    assert_eq!(ecs.source_prefix, 20);
    assert_eq!(ecs.scope_prefix, 0);
    assert_eq!(ecs.network_len, 3);
    assert_eq!(&ecs.network[..3], &[203, 0, 112]);
}

#[test]
fn test_build_cache_key_rejects_ecs_request_with_nonzero_scope() {
    let mut request = make_request("example.com.");
    request.edns = subnet_edns(v4([203, 0, 113, 199]), 20, 24);

    assert!(build_cache_key(&request, true).is_none());
}

#[test]
fn test_build_cache_key_rejects_invalid_ecs_even_when_keying_is_disabled() {
    let mut request = make_request("example.com.");
    request.edns = subnet_edns(v4([203, 0, 113, 199]), 20, 24);

    assert!(build_cache_key(&request, false).is_none());

    let mut request = make_request("example.com.");
    request.edns = subnet_edns(v4([203, 0, 113, 199]), 33, 0);

    assert!(build_cache_key(&request, false).is_none());
}

#[test]
fn test_build_cache_key_ignores_ecs_when_keying_is_disabled() {
    let request = request_with_subnet(v4([203, 0, 113, 199]), 20);

    let cache_key = build_cache_key(&request, false).expect("cache key should exist");
    assert_eq!(cache_key.ecs_scope, None);
}

#[test]
fn test_cache_lookup_keys_places_exact_source_after_covering_scopes() {
    let request_key = key_with_subnet(v4([203, 0, 113, 199]), 24);

    let candidates = cache_lookup_keys(&request_key, &exhaustive_index_for(&request_key));

    assert_eq!(
        candidates.first(),
        Some(&request_key.with_ecs_scope_prefix(24))
    );
    assert_eq!(candidates.last(), Some(&request_key));
    assert_eq!(candidates.len(), 26);
}

#[test]
fn test_ecs_lookup_uses_only_observed_scope_prefixes() {
    let request_key = key_with_subnet(v6([0x2001, 0xDB8, 0, 0, 0, 0, 0, 1]), 128);

    let mut index = EcsLookupIndex::new();
    for prefix in [0, 32, 48, 56, 64] {
        index.observe_cache_key(&request_key.with_ecs_scope_prefix(prefix));
    }

    assert_eq!(
        covering_prefixes(&request_key, &index),
        vec![64, 56, 48, 32, 0]
    );
}

#[test]
fn test_ecs_lookup_index_is_partitioned_by_base_cache_key() {
    let request_key = key_with_subnet(v6([0x2001, 0xDB8, 0, 0, 0, 0, 0, 1]), 128);

    let mut index = EcsLookupIndex::new();
    let mut unrelated_key = request_key.with_ecs_scope_prefix(64);
    unrelated_key.domain = "unrelated.example".to_string();
    index.observe_cache_key(&unrelated_key);

    let unrelated_candidates = cache_lookup_keys(&request_key, &index);
    assert_eq!(unrelated_candidates, vec![request_key.copy()]);

    index.observe_cache_key(&request_key.with_ecs_scope_prefix(56));
    let candidates = cache_lookup_keys(&request_key, &index);
    assert_eq!(candidates.len(), 2);
    assert_eq!(
        candidates[0].ecs_scope.as_ref().map(|ecs| ecs.scope_prefix),
        Some(56)
    );
    assert_eq!(candidates[1], request_key);
}

#[test]
fn test_ecs_lookup_index_metrics_count_unique_memberships() {
    let request_key = key_with_subnet(v4([203, 0, 113, 199]), 24);

    let mut index = EcsLookupIndex::new();
    let prefix_24 = request_key.with_ecs_scope_prefix(24);
    index.observe_cache_key(&prefix_24);
    index.observe_cache_key(&prefix_24);
    index.observe_cache_key(&request_key.with_ecs_scope_prefix(16));

    let mut unrelated = request_key.with_ecs_scope_prefix(24);
    unrelated.domain = "unrelated.example".to_string();
    index.observe_cache_key(&unrelated);

    assert_eq!(index.indexed_base_keys(), 2);
    assert_eq!(index.observed_ipv4_prefixes(), 3);
    assert_eq!(index.observed_ipv6_prefixes(), 0);
}

#[test]
fn test_ecs_rebuild_mirrors_concurrent_publication_and_commits() {
    let request_key = key_with_subnet(v4([203, 0, 113, 199]), 24);

    let mut index = EcsLookupIndex::new();
    let prefix_24 = request_key.with_ecs_scope_prefix(24);
    index.observe_cache_key(&prefix_24);
    index.mark_rebuild_needed();

    let (rebuilt, stale_revision) = index.begin_rebuild().expect("rebuild should start");
    // The scan sees the entry that existed when the rebuild started.
    index.observe_rebuilt(&rebuilt, &prefix_24);

    // A reusable entry is published while the scan runs.
    index.observe_cache_key(&request_key.with_ecs_scope_prefix(16));

    assert!(index.commit_rebuild(&rebuilt, stale_revision));
    assert!(!index.needs_rebuild());
    assert_eq!(index.indexed_base_keys(), 1);
    assert_eq!(index.observed_ipv4_prefixes(), 2);

    assert_eq!(covering_prefixes(&request_key, &index), vec![24, 16]);
}

#[test]
fn test_ecs_rebuild_commits_with_concurrent_stale_revision_and_schedules_cleanup() {
    let request_key = key_with_subnet(v4([203, 0, 113, 199]), 24);

    let mut index = EcsLookupIndex::new();
    index.observe_cache_key(&request_key.with_ecs_scope_prefix(24));
    index.mark_rebuild_needed();

    let (rebuilt, stale_revision) = index.begin_rebuild().expect("rebuild should start");
    index.observe_rebuilt(&rebuilt, &request_key.with_ecs_scope_prefix(24));

    // A removal during the scan must not keep this pass from being committed.
    index.mark_rebuild_needed();

    assert!(index.commit_rebuild(&rebuilt, stale_revision));
    assert!(index.needs_rebuild());
    assert_eq!(index.observed_ipv4_prefixes(), 1);
}

#[test]
fn test_ecs_rebuild_commit_swaps_shadow_when_no_new_stale_work_arrives() {
    let request_key = key_with_subnet(v4([203, 0, 113, 199]), 24);

    let mut index = EcsLookupIndex::new();
    index.observe_cache_key(&request_key.with_ecs_scope_prefix(24));
    index.mark_rebuild_needed();

    let (rebuilt, stale_revision) = index.begin_rebuild().expect("rebuild should start");
    index.observe_rebuilt(&rebuilt, &request_key.with_ecs_scope_prefix(16));

    assert!(index.commit_rebuild(&rebuilt, stale_revision));
    assert!(!index.needs_rebuild());
    assert_eq!(index.indexed_base_keys(), 1);
    assert_eq!(index.observed_ipv4_prefixes(), 1);
    assert_eq!(index.observed_ipv6_prefixes(), 0);

    assert_eq!(covering_prefixes(&request_key, &index), vec![16]);
}

#[test]
fn test_request_specific_ecs_key_does_not_create_hint() {
    let request_key = key_with_subnet(v4([203, 0, 113, 199]), 24);

    let mut index = EcsLookupIndex::new();
    index.observe_cache_key(&request_key);

    assert_eq!(cache_lookup_keys(&request_key, &index), vec![request_key]);
}

#[test]
fn test_non_ecs_lookup_borrows_request_key_without_candidates() {
    let request_key =
        build_cache_key(&make_request("example.com."), true).expect("request key should exist");

    let lookup_keys = cache_lookup_keys(&request_key, &exhaustive_index_for(&request_key));

    assert_eq!(lookup_keys.len(), 1);
    assert_eq!(lookup_keys[0], request_key);
}

#[test]
fn test_ecs_lookup_materializes_covering_scope_before_borrowed_exact_key() {
    let request_key = key_with_subnet(v4([203, 0, 113, 199]), 24);

    let lookup_keys = cache_lookup_keys(&request_key, &exhaustive_index_for(&request_key));

    assert_ne!(lookup_keys[0], request_key);
    assert_eq!(lookup_keys.last(), Some(&request_key));
}

#[test]
fn test_ecs_lookup_prefers_covering_scope_over_exact_source_fallback() {
    let request_key = key_with_subnet(v4([203, 0, 113, 199]), 20);
    let scoped_key = request_key.with_ecs_scope_prefix(20);

    let cached = [request_key.copy(), scoped_key.copy()];
    let first_hit = cache_lookup_keys(&request_key, &exhaustive_index_for(&request_key))
        .into_iter()
        .find(|candidate| cached.contains(candidate));

    assert_eq!(first_hit, Some(scoped_key));
}

#[test]
fn test_ecs_lookup_uses_exact_source_when_no_covering_entry_exists() {
    let request_key = key_with_subnet(v4([203, 0, 113, 199]), 20);
    let cached = [request_key.copy()];
    let first_hit = cache_lookup_keys(&request_key, &exhaustive_index_for(&request_key))
        .into_iter()
        .find(|candidate| cached.contains(candidate));

    assert_eq!(first_hit, Some(request_key));
}

#[test]
fn test_cache_lookup_keys_do_not_duplicate_zero_scope_request_key() {
    let request_key = key_with_subnet(v4([203, 0, 113, 199]), 0);

    assert_eq!(
        cache_lookup_keys(&request_key, &exhaustive_index_for(&request_key)),
        vec![request_key]
    );
}

#[test]
fn test_response_ecs_scope_key_matches_broader_client_prefix() {
    let request_key = key_with_subnet(v4([203, 0, 113, 199]), 24);

    let response = response_with_subnet(v4([203, 0, 113, 0]), 24, 20);
    let scoped_key =
        cache_key_for_response_ecs_scope(&request_key, &response).expect("ECS should match");

    let ecs = scoped_key
        .ecs_scope
        .as_ref()
        .expect("scope should be present");
    assert_eq!(ecs.source_prefix, 20);
    assert_eq!(ecs.scope_prefix, 20);
    assert_eq!(&ecs.network[..3], &[203, 0, 112]);

    let other_key = key_with_subnet(v4([203, 0, 127, 1]), 24);

    assert!(
        cache_lookup_keys(&other_key, &exhaustive_index_for(&other_key))
            .iter()
            .any(|candidate| candidate == &scoped_key)
    );
}

#[test]
fn test_ecs_refresh_validates_against_request_key_not_scoped_cache_key() {
    let request_key = key_with_subnet(v4([203, 0, 113, 199]), 24);

    let response = response_with_subnet(v4([203, 0, 113, 0]), 24, 16);

    let scoped_key = cache_key_for_response_ecs_scope(&request_key, &response)
        .expect("refresh response should be accepted for the request key");
    assert_ne!(scoped_key, request_key);
    assert!(cache_key_for_response_ecs_scope(&scoped_key, &response).is_none());
}

#[test]
fn test_build_cache_key_returns_none_without_query() {
    let cache_key = build_cache_key(&Message::new(), true);

    assert_eq!(cache_key, None);
}

#[test]
fn test_unsupported_edns_version_is_not_cacheable() {
    let mut request = make_request("example.com.");
    let mut edns = Edns::new();
    edns.version = 1;
    request.edns = Some(edns);

    assert!(!is_cacheable_request(&request));
}

#[test]
fn test_non_query_and_request_bound_options_are_not_cacheable() {
    let mut request = make_request("example.com.");
    request.opcode = Opcode::Notify;
    assert!(!is_cacheable_request(&request));

    let mut request = make_request("example.com.");
    let mut edns = Edns::new();
    edns.options.push(EdnsOption::Other(10, vec![1, 2]));
    request.edns = Some(edns);
    assert!(!is_cacheable_request(&request));
}

#[test]
fn test_response_ecs_scope_more_specific_than_source_stays_request_specific() {
    let request_key = key_with_subnet(v4([203, 0, 113, 199]), 20);

    // The source matches the request, and the scope is narrower.
    let response = response_with_subnet(v4([203, 0, 112, 0]), 20, 24);

    let scoped_key = cache_key_for_response_ecs_scope(&request_key, &response)
        .expect("ECS response should be accepted");

    assert_eq!(scoped_key, request_key);

    // A narrower request of the same network must not find it.
    let other_key = key_with_subnet(v4([203, 0, 113, 1]), 24);

    assert!(
        !cache_lookup_keys(&other_key, &exhaustive_index_for(&other_key))
            .iter()
            .any(|candidate| candidate == &scoped_key)
    );
}

#[test]
fn test_response_ecs_source_zero_with_positive_scope_is_not_cached() {
    let request_key = key_with_subnet(v4([0, 0, 0, 0]), 0);

    let response = response_with_subnet(v4([0, 0, 0, 0]), 0, 24);

    assert!(cache_key_for_response_ecs_scope(&request_key, &response).is_none());
    assert!(!persisted_ecs_key_matches_response(&request_key, &response));
}

#[test]
fn test_response_ecs_rejects_mismatched_source_prefix() {
    let request_key = key_with_subnet(v4([203, 0, 113, 199]), 24);

    let response = response_with_subnet(v4([203, 0, 112, 0]), 23, 20);

    assert!(cache_key_for_response_ecs_scope(&request_key, &response).is_none());
}

#[test]
fn test_persisted_ecs_key_matches_reusable_response_scope() {
    let request_key = key_with_subnet(v4([203, 0, 113, 199]), 24);

    let response = response_with_subnet(v4([203, 0, 113, 0]), 24, 20);
    let stored_key = cache_key_for_response_ecs_scope(&request_key, &response)
        .expect("response ECS should produce a reusable key");

    assert!(persisted_ecs_key_matches_response(&stored_key, &response));

    let mismatched_response = response_with_subnet(v4([203, 0, 129, 0]), 24, 20);
    assert!(!persisted_ecs_key_matches_response(
        &stored_key,
        &mismatched_response
    ));
}

#[test]
fn test_persisted_ecs_key_matches_global_scope_zero_response() {
    let request_key = key_with_subnet(v4([203, 0, 113, 199]), 24);

    let response = response_with_subnet(v4([203, 0, 113, 0]), 24, 0);

    let stored_key = cache_key_for_response_ecs_scope(&request_key, &response)
        .expect("response ECS should be accepted");

    let ecs = stored_key
        .ecs_scope
        .as_ref()
        .expect("stored key should contain ECS");

    assert_eq!(ecs.source_prefix, 0);
    assert_eq!(ecs.scope_prefix, 0);
    assert_eq!(ecs.network_len, 0);

    assert!(
        persisted_ecs_key_matches_response(&stored_key, &response),
        "SCOPE=0 reusable ECS entry must survive persistence validation"
    );
}

#[test]
fn blanks_case_and_a_final_dot_make_no_difference() {
    let some = |text: &str| Some(text.to_string());
    for raw in [
        "www.example.com",
        " \u{a0}www.example.com\t\n",
        "WWW.Example.COM",
        "www.example.com.",
        "\\119ww.example.com",
    ] {
        assert_eq!(
            canonical_domain_from_text(raw),
            some("www.example.com"),
            "{raw}"
        );
    }
    assert_eq!(canonical_domain_from_text(" . "), some("."));
    assert_eq!(canonical_domain_from_text("\\."), some("\\."));
    assert_eq!(canonical_domain_from_text("\\.."), some("\\."));
    for raw in ["", " ", "..", "a..", ".a", "a b\u{e4}"] {
        assert_eq!(canonical_domain_from_text(raw), None, "{raw}");
    }
}

#[test]
fn canonical_digest_takes_only_canonical_fields() {
    let digest = canonical_ecs_key_digest(1, 20, 20, &[192, 0, 0x20]).expect("canonical");
    assert_eq!(digest.network_len, 3);
    assert_eq!(&digest.network[..4], &[192, 0, 0x20, 0]);

    assert!(canonical_ecs_key_digest(1, 20, 20, &[192, 0, 0x21]).is_none());
    assert!(canonical_ecs_key_digest(1, 20, 16, &[192, 0, 0x20]).is_none());
    assert!(canonical_ecs_key_digest(1, 33, 0, &[192, 0, 2, 1, 0]).is_none());
    assert!(canonical_ecs_key_digest(3, 8, 8, &[10]).is_none());
    assert!(canonical_ecs_key_digest(2, 0, 0, &[]).is_some());
}

#[test]
fn normalizing_a_key_text_again_changes_nothing() {
    for raw in ["WWW.Example.COM.", r"a\.b.example", ".", r"x\032y"] {
        let once = normalize_cache_key_domain(raw).expect("a name");
        assert_eq!(normalize_cache_key_domain(&once), Some(once.clone()));
    }
}
