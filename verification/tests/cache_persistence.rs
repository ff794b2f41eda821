//! Dumps of the cache, and what a load restores of them.

use resolver_plugins::cache::dump_wire::{EntryTuple, PersistedCacheEntry};
use resolver_plugins::cache::ecs_index::EcsLookupIndex;
use resolver_plugins::cache::item::CacheItem;
use resolver_plugins::cache::key::{
    build_cache_key, cache_key_for_response_ecs_scope, CacheKey,
};
use resolver_plugins::cache::persistence::collect::to_cache_key;
use resolver_plugins::cache::persistence::decode::{
    parse_persisted_dump, parse_persisted_dump_with_limit,
};
use resolver_plugins::cache::persistence::dump::{
    dump_cache_to_bytes, dump_cache_to_bytes_with_limit, CacheDumpOutcome,
};
use resolver_plugins::cache::persistence::error::{
    DumpError, CACHE_DUMP_MAGIC, CACHE_DUMP_VERSION, LEGACY_CACHE_DUMP_VERSION,
    MAX_PERSISTED_CACHE_DUMP_BYTES, PREVIOUS_CACHE_DUMP_VERSION,
};
use resolver_plugins::cache::persistence::load::{
    load_cache_from_bytes, load_cache_from_bytes_with_index_bounded,
};
use resolver_plugins::cache::policy::CacheLoadPolicy;
use resolver_plugins::cache::store::CacheMap;
use resolver_plugins::proto::message::{
    ClientSubnet, DNSClass, Edns, EdnsOption, IpAddr, Message, Question, RData, Rcode, Record,
    RecordType, Soa,
};
use resolver_plugins::proto::name::Name;
use resolver_plugins::ttl_cache::TtlEntry;

const NOW: u64 = 1_000_000;
const UNIX: u64 = 1_700_000_000_000;
const FOUR_MIB: usize = 4 * 1024 * 1024;
const API_BUDGET: usize = 16 * 1024 * 1024;
const TEST_BUDGET: usize = 64 * 1024;
const ENTRY_COUNT: usize = 128;

type LegacyTuple = (u64, u32, u64, Vec<EntryTuple>);

fn v4(a: u8, b: u8, c: u8, d: u8) -> u32 {
    u32::from_be_bytes([a, b, c, d])
}

fn first_cache_entry(cache_map: &CacheMap) -> (CacheKey, &TtlEntry<CacheKey, CacheItem>) {
    let key = cache_map.keys().remove(0);
    let entry = cache_map.get(&key).expect("cache entry should exist");
    (key, entry)
}

fn make_entry() -> PersistedCacheEntry {
    PersistedCacheEntry {
        domain: "WWW.Example.COM.".to_string(),
        record_type: RecordType::AAAA.to_u16(),
        dns_class: DNSClass::IN.to_u16(),
        do_bit: true,
        cd_bit: false,
        ecs_family: Some(2),
        ecs_source_prefix: Some(56),
        ecs_scope_prefix: Some(56),
        ecs_network: Some(vec![0x20, 0x01, 0x0D, 0xB8, 0, 0, 0]),
        resp_bytes: vec![0, 1, 2],
        cache_age_ms: 10,
        last_access_age_ms: 5,
        ttl: 60,
        remaining_ttl_ms: 30_000,
    }
}

fn serialize_dump_at_version(
    version: u32,
    entries: Vec<PersistedCacheEntry>,
    dumped_at_unix_ms: u64,
) -> Vec<u8> {
    let config = wincode::config::Configuration::default()
        .with_preallocation_size_limit::<MAX_PERSISTED_CACHE_DUMP_BYTES>();
    if version != CACHE_DUMP_VERSION {
        let dump: LegacyTuple = (
            CACHE_DUMP_MAGIC,
            version,
            dumped_at_unix_ms,
            entries
                .into_iter()
                .map(PersistedCacheEntry::into_tuple)
                .collect(),
        );
        return wincode::config::serialize(&dump, config).expect("legacy dump should serialize");
    }

    let header = (
        CACHE_DUMP_MAGIC,
        version,
        dumped_at_unix_ms,
        u64::try_from(entries.len()).expect("test entry count should fit u64"),
    );
    let mut encoded =
        wincode::config::serialize(&header, config).expect("v3 header should serialize");
    for entry in entries {
        let frame = wincode::config::serialize(&entry.into_tuple(), config)
            .expect("v3 entry should serialize");
        let frame_len = u64::try_from(frame.len()).expect("test frame length should fit u64");
        encoded.extend_from_slice(
            &wincode::config::serialize(&frame_len, config).expect("frame length should serialize"),
        );
        encoded.extend_from_slice(&frame);
    }
    encoded
}

fn serialize_dump_at(entries: Vec<PersistedCacheEntry>, dumped_at_unix_ms: u64) -> Vec<u8> {
    serialize_dump_at_version(CACHE_DUMP_VERSION, entries, dumped_at_unix_ms)
}

fn serialize_current_dump(entries: Vec<PersistedCacheEntry>) -> Vec<u8> {
    serialize_dump_at(entries, UNIX)
}

#[test]
fn test_explicit_wincode_config_preserves_legacy_v2_wire_format() {
    let dump: LegacyTuple = (
        CACHE_DUMP_MAGIC,
        PREVIOUS_CACHE_DUMP_VERSION,
        123_456,
        vec![make_entry().into_tuple()],
    );

    let legacy_bytes = wincode::serialize(&dump).expect("default config should serialize");
    let configured_bytes = wincode::config::serialize(
        &dump,
        wincode::config::Configuration::default()
            .with_preallocation_size_limit::<MAX_PERSISTED_CACHE_DUMP_BYTES>(),
    )
    .expect("explicit config should serialize");

    assert_eq!(configured_bytes, legacy_bytes);

    let parsed = parse_persisted_dump(&legacy_bytes).expect("an earlier dump should parse");
    assert_eq!(parsed.version, PREVIOUS_CACHE_DUMP_VERSION);
    assert_eq!(parsed.dumped_at_unix_ms, 123_456);
    assert_eq!(parsed.entries, vec![make_entry()]);
}

#[test]
fn test_explicit_preallocation_budget_allows_dump_above_default_four_mib() {

    let mut entry = make_entry();
    entry.resp_bytes = vec![0xA5; 5 * 1024 * 1024];

    let bytes = serialize_dump_at_version(CACHE_DUMP_VERSION, vec![entry], 123_456);

    assert!(bytes.len() < API_BUDGET);
    assert!(parse_persisted_dump_with_limit::<FOUR_MIB>(&bytes).is_err());
    assert!(parse_persisted_dump_with_limit::<API_BUDGET>(&bytes).is_ok());
}

#[test]
fn test_load_rejects_duplicate_canonical_cache_keys_before_bounded_retention() {
        let mut cache_map = CacheMap::with_capacity(4);
    let now = NOW;

    let domain = String::from("duplicate.example.com");
    let mut response = Message::new();
    response.rcode = Rcode::NoError;
    response.questions.push(Question::new(
        Name::from_ascii(&domain).expect("test domain should parse"),
        RecordType::A,
        DNSClass::IN,
    ));
    response.answers.push(Record::from_rdata(
        Name::from_ascii(&domain).expect("test domain should parse"),
        120,
        RData::A(v4(192, 0, 2, 1)),
    ));

    cache_map.insert_if_not_newer(
        CacheKey {
            domain: domain.clone(),
            record_type: RecordType::A,
            dns_class: DNSClass::IN,
            do_bit: false,
            cd_bit: false,
            ecs_scope: None,
        },
        CacheItem::new_validated(response, 120, now.saturating_add(120_000)),
        now,
        now.saturating_add(120_000),
        now,
    );

    let dumped = dump_cache_to_bytes(&cache_map, NOW, UNIX).expect("dump should succeed");
    let mut parsed = parse_persisted_dump(&dumped).expect("dump should parse");
    let duplicate = parse_persisted_dump(&dumped)
        .expect("dump should parse")
        .entries
        .remove(0);
    parsed.entries.push(duplicate);
    let duplicate_dump = serialize_dump_at_version(CACHE_DUMP_VERSION, parsed.entries, parsed.dumped_at_unix_ms);

    let mut destination = CacheMap::with_capacity(4);
    let mut index = EcsLookupIndex::new();
    let err = load_cache_from_bytes_with_index_bounded::<MAX_PERSISTED_CACHE_DUMP_BYTES>(
        &mut destination,
        &duplicate_dump,
        false,
        CacheLoadPolicy::default(),
        false,
        &mut index,
        1,
        NOW,
        UNIX,
    )
    .expect_err("duplicate canonical keys must reject the whole dump");

    assert!(err.message().contains("duplicate canonical cache key"));
    assert_eq!(destination.len(), 0, "load must remain transactional");
}

#[test]
fn test_dump_and_load_use_the_same_preallocation_budget() {

        let mut cache_map = CacheMap::with_capacity(256);
    let now = NOW;

    for index in 0..ENTRY_COUNT {
        let domain = String::from(format!("n{index}.example.com"));
        let mut response = Message::new();
        response.rcode = Rcode::NoError;
        response.questions.push(Question::new(
            Name::from_ascii(&domain).expect("test domain should parse"),
            RecordType::A,
            DNSClass::IN,
        ));
        response.answers.push(Record::from_rdata(
            Name::from_ascii(&domain).expect("test domain should parse"),
            120,
            RData::A(v4(
                192,
                0,
                2,
                ((index % 250) + 1) as u8,
            )),
        ));

        cache_map.insert_if_not_newer(
            CacheKey {
                domain: domain.clone(),
                record_type: RecordType::A,
                dns_class: DNSClass::IN,
                do_bit: false,
                cd_bit: false,
                ecs_scope: None,
            },
            CacheItem::new_validated(response, 120, now.saturating_add(120_000)),
            now,
            now.saturating_add(120_000),
            now,
        );
    }

    let bytes = match dump_cache_to_bytes_with_limit::<TEST_BUDGET>(&cache_map, TEST_BUDGET, NOW, UNIX)
        .expect("bounded dump should succeed")
    {
        CacheDumpOutcome::Complete(bytes) => bytes,
        CacheDumpOutcome::TooLarge { .. } => panic!("test dump should fit its budget"),
    };

    let mut restored = CacheMap::with_capacity(256);
    let mut index = EcsLookupIndex::new();
    let loaded = load_cache_from_bytes_with_index_bounded::<TEST_BUDGET>(
        &mut restored,
        &bytes,
        false,
        CacheLoadPolicy::default(),
        false,
        &mut index,
        usize::MAX,
        NOW,
        UNIX,
    )
    .expect("a dump emitted with a budget must load with the same budget");

    assert_eq!(loaded, ENTRY_COUNT);
    assert_eq!(restored.len(), ENTRY_COUNT);
}

fn cname_only_response_bytes() -> Vec<u8> {
    let mut response = Message::new();
    response.rcode = Rcode::NoError;
    response.questions.push(Question::new(
        Name::from_ascii("example.com.").unwrap(),
        RecordType::A,
        DNSClass::IN,
    ));
    response.answers.push(Record::from_rdata(
        Name::from_ascii("example.com.").unwrap(),
        60,
        RData::CNAME(Name::from_ascii("target.example.com.").unwrap()),
    ));
    response.to_bytes().expect("response should encode")
}

fn cname_nodata_response_bytes() -> Vec<u8> {
    cname_nodata_response_bytes_with_ttls(60, 30)
}

fn cname_nodata_response_bytes_with_ttls(cname_ttl: u32, negative_ttl: u32) -> Vec<u8> {
    let mut response = Message::new();
    response.rcode = Rcode::NoError;
    response.questions.push(Question::new(
        Name::from_ascii("example.com.").unwrap(),
        RecordType::A,
        DNSClass::IN,
    ));
    response.answers.push(Record::from_rdata(
        Name::from_ascii("example.com.").unwrap(),
        cname_ttl,
        RData::CNAME(Name::from_ascii("target.example.com.").unwrap()),
    ));
    response.authorities.push(Record::from_rdata(
        Name::from_ascii("example.com.").unwrap(),
        120,
        RData::SOA(Soa {
            mname: Name::from_ascii("ns1.example.com.").unwrap(),
            rname: Name::from_ascii("hostmaster.example.com.").unwrap(),
            serial: 1,
            refresh: 3600,
            retry: 600,
            expire: 86400,
            minimum: negative_ttl,
        }),
    ));
    response.to_bytes().expect("response should encode")
}

fn positive_response_message(ttl: u32) -> Message {
    let mut response = Message::new();
    response.rcode = Rcode::NoError;

    response.questions.push(Question::new(
        Name::from_ascii("example.com.").unwrap(),
        RecordType::A,
        DNSClass::IN,
    ));

    response.answers.push(Record::from_rdata(
        Name::from_ascii("example.com.").unwrap(),
        ttl,
        RData::A(v4(192, 0, 2, 1)),
    ));

    response
}

fn positive_response_bytes(ttl: u32) -> Vec<u8> {
    positive_response_message(ttl)
        .to_bytes()
        .expect("response should encode")
}

fn valid_address_entry() -> PersistedCacheEntry {
    let mut entry = make_entry();
    entry.domain = "example.com.".to_string();
    entry.record_type = RecordType::A.to_u16();
    entry.ecs_family = None;
    entry.ecs_source_prefix = None;
    entry.ecs_scope_prefix = None;
    entry.ecs_network = None;
    entry.resp_bytes = cname_nodata_response_bytes();
    entry
}

fn positive_entry_for_domain(domain: &str, last_access_age_ms: u64) -> PersistedCacheEntry {
    let name = Name::from_ascii(domain).expect("test domain should parse");
    let mut response = Message::new();
    response.rcode = Rcode::NoError;
    response.questions.push(Question::new(name.copy(), RecordType::A, DNSClass::IN));
    response.answers.push(Record::from_rdata(
        name,
        120,
        RData::A(v4(192, 0, 2, 1)),
    ));

    let mut entry = valid_address_entry();
    entry.domain = domain.to_string();
    entry.do_bit = false;
    entry.resp_bytes = response.to_bytes().expect("response should encode");
    entry.cache_age_ms = 10;
    entry.last_access_age_ms = last_access_age_ms;
    entry.ttl = 120;
    entry.remaining_ttl_ms = 120_000;
    entry
}

#[test]
fn test_parse_persisted_dump_returns_error_for_invalid_bytes() {
    let parsed = parse_persisted_dump(b"not a valid cache dump");
    assert!(parsed.is_err());
}

#[test]
fn test_parse_persisted_dump_rejects_trailing_bytes() {
        let mut data = serialize_current_dump(Vec::new());
    data.extend_from_slice(b"garbage");
    assert!(parse_persisted_dump(&data).is_err());
}

#[test]
fn test_bounded_load_retains_only_most_recent_entries() {
        let entries = vec![
        positive_entry_for_domain("n0.example.com.", 500),
        positive_entry_for_domain("n1.example.com.", 400),
        positive_entry_for_domain("n2.example.com.", 300),
        positive_entry_for_domain("n3.example.com.", 200),
        positive_entry_for_domain("n4.example.com.", 100),
    ];
    let data = serialize_current_dump(entries);
    let mut cache_map = CacheMap::with_capacity(2);
    let mut index = EcsLookupIndex::new();

    let loaded = load_cache_from_bytes_with_index_bounded::<MAX_PERSISTED_CACHE_DUMP_BYTES>(
        &mut cache_map,
        &data,
        false,
        CacheLoadPolicy::default(),
        false,
        &mut index,
        2,
        NOW,
        UNIX,
    )
    .expect("bounded dump should load");

    assert_eq!(loaded, 2);
    assert_eq!(cache_map.len(), 2);
    let mut domains: Vec<String> = cache_map
        .keys()
        .into_iter()
        .map(|key| key.domain)
        .collect();
    domains.sort();
    assert_eq!(
        domains,
        vec!["n3.example.com".to_string(), "n4.example.com".to_string()],
    );
}

#[test]
fn test_bounded_load_still_validates_entries_after_capacity_is_full() {
        let mut corrupt = positive_entry_for_domain("bad.example.com.", 0);
    corrupt.ecs_family = Some(1);
    // Partial ECS metadata is structurally invalid and must reject the
    // entire transaction even though the retained candidate set is full.
    let data = serialize_current_dump(vec![positive_entry_for_domain("good.example.com.", 100), corrupt]);
    let mut cache_map = CacheMap::with_capacity(1);
    let mut index = EcsLookupIndex::new();

    let err = load_cache_from_bytes_with_index_bounded::<MAX_PERSISTED_CACHE_DUMP_BYTES>(
        &mut cache_map,
        &data,
        false,
        CacheLoadPolicy::default(),
        false,
        &mut index,
        1,
        NOW,
        UNIX,
    )
    .expect_err("trailing invalid entry must reject the bounded load");

    assert!(err.message().contains("partial ECS metadata"));
    assert!(cache_map.is_empty());
}

#[test]
fn test_parse_persisted_dump_rejects_unsupported_version() {
    let data = serialize_dump_at_version(CACHE_DUMP_VERSION + 1, Vec::new(), UNIX);
    assert!(parse_persisted_dump(&data).is_err());
}

#[test]
fn test_load_cache_accepts_v2_dump() {
        let mut entry = valid_address_entry();
    entry.ttl = 60;
    entry.cache_age_ms = 10_000;
    entry.remaining_ttl_ms = 50_000;
    entry.resp_bytes = positive_response_bytes(60);
    let data = serialize_dump_at_version(PREVIOUS_CACHE_DUMP_VERSION, vec![entry], UNIX);

    let mut cache_map = CacheMap::with_capacity(1);
    assert_eq!(
        load_cache_from_bytes(&mut cache_map, &data, false, CacheLoadPolicy::default(), false, NOW, UNIX)
            .expect("v2 restore should succeed"),
        1
    );
    assert_eq!(cache_map.len(), 1);
}

#[test]
fn test_v3_streaming_decoder_rejects_trailing_bytes_transactionally() {
        let mut entry = valid_address_entry();
    entry.resp_bytes = positive_response_bytes(60);
    let mut data = serialize_current_dump(vec![entry]);
    data.push(0xA5);

    let mut cache_map = CacheMap::with_capacity(1);
    let err = load_cache_from_bytes(&mut cache_map, &data, false, CacheLoadPolicy::default(), false, NOW, UNIX)
        .expect_err("trailing bytes must reject framed dump");
    assert!(err.message().contains("trailing bytes"));
    assert!(cache_map.is_empty());
}

#[test]
fn test_load_cache_accepts_v1_fresh_entry_with_exact_age() {
        let mut entry = valid_address_entry();
    entry.ttl = 60;
    entry.cache_age_ms = 30_000;
    entry.remaining_ttl_ms = 30_000;
    entry.resp_bytes = positive_response_bytes(60);
    let data = serialize_dump_at_version(LEGACY_CACHE_DUMP_VERSION, vec![entry], UNIX);

    let mut cache_map = CacheMap::with_capacity(1);
    assert_eq!(
        load_cache_from_bytes(&mut cache_map, &data, false, CacheLoadPolicy::default(), false, NOW, UNIX)
            .expect("v1 fresh restore should succeed"),
        1
    );
    assert_eq!(cache_map.len(), 1);
}

#[test]
fn test_load_cache_drops_v1_stale_entry_with_ambiguous_age() {
        let mut entry = valid_address_entry();
    entry.ttl = 60;
    entry.cache_age_ms = 60_000;
    entry.remaining_ttl_ms = 3_540_000;
    entry.resp_bytes = positive_response_bytes(60);
    let data = serialize_dump_at_version(LEGACY_CACHE_DUMP_VERSION, vec![entry], UNIX);

    let mut cache_map = CacheMap::with_capacity(1);
    let policy = CacheLoadPolicy {
        lazy_cache_ttl: Some(3_600),
        ..CacheLoadPolicy::default()
    };
    assert_eq!(
        load_cache_from_bytes(&mut cache_map, &data, false, policy, false, NOW, UNIX)
            .expect("v1 stale restore should be skipped safely"),
        0
    );
    assert!(cache_map.is_empty());
}

#[test]
fn test_parse_persisted_dump_rejects_legacy_unversioned_dump() {
    let legacy = wincode::serialize(&vec![make_entry().into_tuple()])
        .expect("legacy dump should serialize");
    assert!(parse_persisted_dump(&legacy).is_err());
}

#[test]
fn test_to_cache_key_normalizes_domain_and_preserves_ecs_when_enabled() {
    let entry = make_entry();
    let cache_key = to_cache_key(&entry, true)
        .expect("ECS metadata should be valid")
        .expect("cache key should be built");

    assert_eq!(cache_key.domain, "www.example.com");
    assert_eq!(cache_key.record_type, RecordType::AAAA);
    assert_eq!(cache_key.dns_class, DNSClass::IN);
    assert!(cache_key.do_bit);
    assert!(!cache_key.cd_bit);
    let ecs = cache_key.ecs_scope.expect("ecs should be present");
    assert_eq!(ecs.family, 2);
    assert_eq!(ecs.source_prefix, 56);
    assert_eq!(ecs.scope_prefix, 56);
    assert_eq!(ecs.network_len, 7);
    assert_eq!(&ecs.network[..7], &[0x20, 0x01, 0x0D, 0xB8, 0, 0, 0]);
}

#[test]
fn test_to_cache_key_rejects_partial_ecs_metadata() {
    let mut entry = make_entry();
    entry.ecs_network = None;
    assert!(to_cache_key(&entry, true).is_err());
}

#[test]
fn test_to_cache_key_rejects_oversized_ecs_network() {
    let mut entry = make_entry();
    entry.ecs_network = Some(vec![0; 17]);
    assert!(to_cache_key(&entry, true).is_err());
}

#[test]
fn test_to_cache_key_rejects_noncanonical_network_length() {
    let mut entry = make_entry();
    entry.ecs_network = Some(vec![0; 6]);
    assert!(to_cache_key(&entry, true).is_err());
}

#[test]
fn test_to_cache_key_rejects_nonzero_host_bits() {
    let mut entry = make_entry();
    entry.ecs_source_prefix = Some(57);
    entry.ecs_scope_prefix = Some(57);
    entry.ecs_network = Some(vec![0x20, 0x01, 0x0D, 0xB8, 0, 0, 1, 1]);
    assert!(to_cache_key(&entry, true).is_err());
}

#[test]
fn test_to_cache_key_rejects_noncanonical_scope_combination() {
    let mut entry = make_entry();
    entry.ecs_scope_prefix = Some(48);
    assert!(to_cache_key(&entry, true).is_err());
}

#[test]
fn test_to_cache_key_rejects_family_network_length_mismatch() {
    let mut entry = make_entry();
    entry.ecs_family = Some(1);
    entry.ecs_source_prefix = Some(24);
    entry.ecs_scope_prefix = Some(24);
    entry.ecs_network = Some(vec![192, 0, 2, 0]);
    assert!(to_cache_key(&entry, true).is_err());
}

#[test]
fn test_to_cache_key_rejects_empty_normalized_domain() {
    let mut entry = make_entry();
    entry.domain = "   ".to_string();
    assert!(to_cache_key(&entry, false).is_err());
}

#[test]
fn test_to_cache_key_skips_ecs_when_runtime_keying_is_disabled() {
    let entry = make_entry();
    let cache_key = to_cache_key(&entry, false).expect("entry should be structurally valid");
    assert_eq!(cache_key, None);
}

#[test]
fn test_load_cache_skips_cname_only_address_entry() {
        let mut cache_map = CacheMap::with_capacity(1);
    let mut entry = valid_address_entry();
    entry.resp_bytes = cname_only_response_bytes();

    let data = serialize_current_dump(vec![entry]);
    let loaded = load_cache_from_bytes(&mut cache_map, &data, false, CacheLoadPolicy::default(), false, NOW, UNIX)
        .expect("load should succeed");

    assert_eq!(loaded, 0);
    assert_eq!(cache_map.len(), 0);
}

#[test]
fn test_load_cache_keeps_cname_nodata_address_entry() {
        let mut cache_map = CacheMap::with_capacity(1);
    let entry = valid_address_entry();

    let data = serialize_current_dump(vec![entry]);
    let loaded = load_cache_from_bytes(&mut cache_map, &data, false, CacheLoadPolicy::default(), false, NOW, UNIX)
        .expect("load should succeed");

    assert_eq!(loaded, 1);
    assert_eq!(cache_map.len(), 1);
}

#[test]
fn test_load_cache_rejects_response_question_mismatched_with_key() {
        let mut cache_map = CacheMap::with_capacity(1);
    let mut entry = valid_address_entry();
    entry.domain = "other.example.com.".to_string();

    let data = serialize_current_dump(vec![entry]);
    let loaded = load_cache_from_bytes(&mut cache_map, &data, false, CacheLoadPolicy::default(), false, NOW, UNIX)
        .expect("load should succeed");

    assert_eq!(loaded, 0);
    assert_eq!(cache_map.len(), 0);
}

#[test]
fn test_load_cache_clamps_cname_nodata_to_cname_ttl() {
        let mut cache_map = CacheMap::with_capacity(1);
    let mut entry = valid_address_entry();
    entry.ttl = 30;
    entry.remaining_ttl_ms = 30_000;
    entry.cache_age_ms = 2_000;
    entry.resp_bytes = cname_nodata_response_bytes_with_ttls(5, 30);

    let data = serialize_current_dump(vec![entry]);
    let loaded = load_cache_from_bytes(&mut cache_map, &data, false, CacheLoadPolicy::default(), false, NOW, UNIX)
        .expect("load should succeed");
    let (_, stored) = first_cache_entry(&cache_map);

    assert_eq!(loaded, 1);
    assert_eq!(stored.value.ttl, 5);
    assert!(stored.expire_at_ms.saturating_sub(NOW) <= 3_000);
}

#[test]
fn test_load_cache_skips_negative_entry_expired_by_clamped_ttl() {
        let mut cache_map = CacheMap::with_capacity(1);
    let mut entry = valid_address_entry();
    entry.ttl = 30;
    entry.remaining_ttl_ms = 10_000;
    entry.cache_age_ms = 20_000;
    entry.resp_bytes = cname_nodata_response_bytes_with_ttls(5, 30);

    let data = serialize_current_dump(vec![entry]);
    let loaded = load_cache_from_bytes(&mut cache_map, &data, false, CacheLoadPolicy::default(), false, NOW, UNIX)
        .expect("load should succeed");

    assert_eq!(loaded, 0);
    assert_eq!(cache_map.len(), 0);
}

#[test]
fn test_load_cache_subtracts_process_downtime_from_remaining_ttl() {
        let mut cache_map = CacheMap::with_capacity(1);
    let mut entry = valid_address_entry();
    entry.ttl = 60;
    entry.cache_age_ms = 5_000;
    entry.remaining_ttl_ms = 30_000;
    entry.resp_bytes = positive_response_bytes(60);

    let dumped_at = UNIX.saturating_sub(10_000);
    let data = serialize_dump_at(vec![entry], dumped_at);
    let loaded = load_cache_from_bytes(&mut cache_map, &data, false, CacheLoadPolicy::default(), false, NOW, UNIX)
        .expect("load should succeed");
    let (_, stored) = first_cache_entry(&cache_map);
    let remaining = stored.expire_at_ms.saturating_sub(NOW);

    assert_eq!(loaded, 1);
    assert!(remaining <= 20_000, "remaining={remaining}");
    assert!(remaining >= 18_000, "remaining={remaining}");
}

#[test]
fn test_redump_after_restart_does_not_rejuvenate_fresh_ttl() {
        let mut first_cache = CacheMap::with_capacity(1);
    let mut entry = valid_address_entry();
    entry.ttl = 30;
    entry.cache_age_ms = 20_000;
    entry.remaining_ttl_ms = 30_000;

    let dumped_at = UNIX.saturating_sub(5_000);
    let data = serialize_dump_at(vec![entry], dumped_at);
    load_cache_from_bytes(&mut first_cache, &data, false, CacheLoadPolicy::default(), false, NOW, UNIX)
        .expect("first restore should succeed");

    let (_, first) = first_cache_entry(&first_cache);
    let first_fresh_remaining = first.value.fresh_until_ms.saturating_sub(NOW);
    assert!(first_fresh_remaining <= 5_000, "fresh={first_fresh_remaining}");

    let redump = dump_cache_to_bytes(&first_cache, NOW, UNIX).expect("redump should serialize");
    let mut second_cache = CacheMap::with_capacity(1);
    load_cache_from_bytes(&mut second_cache, &redump, false, CacheLoadPolicy::default(), false, NOW, UNIX)
        .expect("second restore should succeed");

    let (_, second) = first_cache_entry(&second_cache);
    let second_fresh_remaining = second.value.fresh_until_ms.saturating_sub(NOW);

    assert!(
        second_fresh_remaining <= first_fresh_remaining.saturating_add(50),
        "fresh TTL was rejuvenated: first={first_fresh_remaining}, second={second_fresh_remaining}"
    );
}

#[test]
fn test_load_cache_drops_entry_expired_while_process_was_stopped() {
        let mut cache_map = CacheMap::with_capacity(1);
    let mut entry = valid_address_entry();
    entry.remaining_ttl_ms = 5_000;

    let dumped_at = UNIX.saturating_sub(10_000);
    let data = serialize_dump_at(vec![entry], dumped_at);
    let loaded = load_cache_from_bytes(&mut cache_map, &data, false, CacheLoadPolicy::default(), false, NOW, UNIX)
        .expect("load should succeed");

    assert_eq!(loaded, 0);
    assert_eq!(cache_map.len(), 0);
}

#[test]
fn test_replace_load_is_transactional_on_corrupt_entry() {
        let mut cache_map = CacheMap::with_capacity(2);

    let initial = serialize_current_dump(vec![valid_address_entry()]);
    assert_eq!(
        load_cache_from_bytes(&mut cache_map, &initial, false, CacheLoadPolicy::default(), false, NOW, UNIX)
            .expect("initial load should succeed"),
        1
    );
    assert_eq!(cache_map.len(), 1);

    let mut corrupt = valid_address_entry();
    corrupt.domain = "replacement.example.com.".to_string();
    corrupt.resp_bytes = vec![0, 1, 2];
    let corrupt_dump = serialize_current_dump(vec![corrupt]);

    let result = load_cache_from_bytes(&mut cache_map, &corrupt_dump, false, CacheLoadPolicy::default(), true, NOW, UNIX);
    assert!(result.is_err());
    assert_eq!(
        cache_map.len(),
        1,
        "existing cache must survive a failed replacement load"
    );
}

#[test]
fn test_replace_load_rejects_invalid_dump_without_clearing_cache() {
        let mut cache_map = CacheMap::with_capacity(2);
    let initial = serialize_current_dump(vec![valid_address_entry()]);
    load_cache_from_bytes(&mut cache_map, &initial, false, CacheLoadPolicy::default(), false, NOW, UNIX)
        .expect("initial load should succeed");
    assert_eq!(cache_map.len(), 1);

    let result = load_cache_from_bytes(&mut cache_map, b"not a dump", false, CacheLoadPolicy::default(), true, NOW, UNIX);
    assert!(result.is_err());
    assert_eq!(cache_map.len(), 1);
}

#[test]
fn test_load_cache_applies_current_positive_ttl_policy() {
        let mut entry = valid_address_entry();
    entry.resp_bytes = positive_response_bytes(60);
    entry.ttl = 60;
    entry.remaining_ttl_ms = 60_000;
    let data = serialize_current_dump(vec![entry]);

    let mut capped_cache = CacheMap::with_capacity(1);
    let capped_policy = CacheLoadPolicy {
        max_positive_ttl: Some(10),
        ..CacheLoadPolicy::default()
    };
    assert_eq!(
        load_cache_from_bytes(&mut capped_cache, &data, false, capped_policy, false, NOW, UNIX)
            .expect("capped restore should succeed"),
        1
    );
    let stored = first_cache_entry(&capped_cache);
    assert_eq!(stored.1.value.ttl, 10);
    assert!(stored.1.value.fresh_until_ms <= NOW + 10_000);

    let mut min_cache = CacheMap::with_capacity(1);
    let min_policy = CacheLoadPolicy {
        min_positive_ttl: Some(61),
        ..CacheLoadPolicy::default()
    };
    assert_eq!(
        load_cache_from_bytes(&mut min_cache, &data, false, min_policy, false, NOW, UNIX)
            .expect("minimum TTL restore should succeed"),
        0
    );
}

#[test]
fn test_load_cache_applies_current_negative_cache_policy() {
        let data = serialize_current_dump(vec![valid_address_entry()]);
    let mut cache_map = CacheMap::with_capacity(1);
    let policy = CacheLoadPolicy {
        cache_negative: false,
        ..CacheLoadPolicy::default()
    };

    assert_eq!(
        load_cache_from_bytes(&mut cache_map, &data, false, policy, false, NOW, UNIX)
            .expect("negative policy restore should succeed"),
        0
    );
    assert!(cache_map.is_empty());
}

#[test]
fn test_load_cache_does_not_restore_expired_entry_as_fresh_after_ttl_relaxation() {
        let mut entry = valid_address_entry();
    entry.resp_bytes = positive_response_bytes(300);
    // This was the effective freshness TTL when the dump was written.
    entry.ttl = 60;
    // The lazy retention period kept the entry in the dump after its
    // original freshness window had elapsed.
    entry.cache_age_ms = 600_000;
    entry.remaining_ttl_ms = 3_600_000;
    let data = serialize_current_dump(vec![entry]);

    let mut cache_map = CacheMap::with_capacity(1);
    let relaxed_policy = CacheLoadPolicy {
        max_positive_ttl: Some(300),
        ..CacheLoadPolicy::default()
    };

    assert_eq!(
        load_cache_from_bytes(&mut cache_map, &data, false, relaxed_policy, false, NOW, UNIX)
            .expect("relaxed restore should succeed"),
        0
    );
    assert!(cache_map.is_empty());
}

#[test]
fn test_load_cache_preserves_lazy_stale_retention_window() {
        let mut entry = valid_address_entry();
    entry.resp_bytes = positive_response_bytes(60);
    entry.ttl = 60;
    entry.cache_age_ms = 120_000;
    entry.remaining_ttl_ms = 3_480_000;
    let data = serialize_current_dump(vec![entry]);

    let mut cache_map = CacheMap::with_capacity(1);
    let policy = CacheLoadPolicy {
        lazy_cache_ttl: Some(3_600),
        ..CacheLoadPolicy::default()
    };
    let load_started_at = NOW;

    assert_eq!(
        load_cache_from_bytes(&mut cache_map, &data, false, policy, false, NOW, UNIX).expect("lazy restore should succeed"),
        1
    );
    let load_finished_at = NOW;
    let stored = first_cache_entry(&cache_map);
    assert!(stored.1.value.fresh_until_ms >= load_started_at);
    assert!(stored.1.value.fresh_until_ms <= load_finished_at);
    assert!(stored.1.expire_at_ms > stored.1.value.fresh_until_ms);
    assert!(stored.1.expire_at_ms >= load_started_at + 3_400_000);
}

#[test]
fn test_redump_preserves_true_stale_age_and_shorter_lazy_ttl_drops_entry() {
        let mut entry = valid_address_entry();
    entry.resp_bytes = positive_response_bytes(60);
    entry.ttl = 60;
    entry.cache_age_ms = 600_000;
    entry.remaining_ttl_ms = 3_000_000;
    let data = serialize_current_dump(vec![entry]);

    let mut first_cache = CacheMap::with_capacity(1);
    let old_policy = CacheLoadPolicy {
        lazy_cache_ttl: Some(3_600),
        ..CacheLoadPolicy::default()
    };
    assert_eq!(
        load_cache_from_bytes(&mut first_cache, &data, false, old_policy, false, NOW, UNIX)
            .expect("stale restore should succeed under the old lazy window"),
        1
    );

    let redump = dump_cache_to_bytes(&first_cache, NOW, UNIX).expect("redump should serialize");
    let parsed = parse_persisted_dump(&redump).expect("redump should parse");
    assert_eq!(parsed.version, CACHE_DUMP_VERSION);
    let redumped = parsed.entries.into_iter().next().expect("entry should be dumped");
    assert!(
        redumped.cache_age_ms >= 600_000,
        "stale cache age was rejuvenated to {}ms",
        redumped.cache_age_ms
    );

    let mut shortened_cache = CacheMap::with_capacity(1);
    let shortened_policy = CacheLoadPolicy {
        lazy_cache_ttl: Some(300),
        ..CacheLoadPolicy::default()
    };
    assert_eq!(
        load_cache_from_bytes(&mut shortened_cache, &redump, false, shortened_policy, false, NOW, UNIX)
            .expect("restore with shorter lazy TTL should succeed"),
        0
    );
    assert!(shortened_cache.is_empty());
}

#[test]
fn test_load_cache_accepts_root_domain_entry() {
        let mut response = Message::new();
    response.rcode = Rcode::NXDomain;

    let mut entry = valid_address_entry();
    entry.domain = ".".to_string();
    entry.resp_bytes = response.to_bytes().expect("root response should encode");
    entry.ttl = 60;
    entry.remaining_ttl_ms = 60_000;
    let data = serialize_current_dump(vec![entry]);
    let mut cache_map = CacheMap::with_capacity(1);

    assert_eq!(
        load_cache_from_bytes(&mut cache_map, &data, false, CacheLoadPolicy::default(), false, NOW, UNIX)
            .expect("root domain dump should load"),
        1
    );
    let (key, _) = first_cache_entry(&cache_map);
    assert_eq!(key.domain, ".");
}

#[test]
fn test_load_cache_rejects_empty_domain_entry() {
        let mut response = Message::new();
    response.rcode = Rcode::NXDomain;

    let mut entry = valid_address_entry();
    entry.domain = String::new();
    entry.resp_bytes = response.to_bytes().expect("response should encode");
    entry.ttl = 60;
    entry.remaining_ttl_ms = 60_000;
    let data = serialize_current_dump(vec![entry]);
    let mut cache_map = CacheMap::with_capacity(1);

    let err = load_cache_from_bytes(&mut cache_map, &data, false, CacheLoadPolicy::default(), false, NOW, UNIX)
        .expect_err("empty domain dump entry must be rejected");

    assert!(err.message().contains("invalid DNS domain text"));
    assert!(cache_map.is_empty());
}

#[test]
fn test_real_root_request_cache_dump_load_roundtrip() {
    let mut request = Message::new();
    request.questions.push(Question::new(Name::root(), RecordType::A, DNSClass::IN));
    let key = build_cache_key(&request, false)
        .expect("real root request should produce a cache key");
    assert_eq!(key.domain, ".");

    let mut response = Message::new();
    response.rcode = Rcode::NoError;
    response.questions.push(Question::new(Name::root(), RecordType::A, DNSClass::IN));
    response.answers.push(Record::from_rdata(
        Name::root(),
        60,
        RData::A(v4(192, 0, 2, 1)),
    ));

    let now = NOW;
    let mut cache_map = CacheMap::with_capacity(1);
    cache_map.insert_if_not_newer(
        key,
        CacheItem::new_validated(response, 60, now.saturating_add(60_000)),
        now,
        now.saturating_add(60_000),
        now,
    );

    let dump = dump_cache_to_bytes(&cache_map, NOW, UNIX).expect("root cache should dump");
    let parsed = parse_persisted_dump(&dump).expect("root dump should parse");
    assert_eq!(parsed.entries.len(), 1);
    assert_eq!(parsed.entries[0].domain, ".");

    let mut restored = CacheMap::with_capacity(1);
    assert_eq!(
        load_cache_from_bytes(&mut restored, &dump, false, CacheLoadPolicy::default(), false, NOW, UNIX)
            .expect("root dump should restore"),
        1
    );
    let (restored_key, restored_entry) = first_cache_entry(&restored);
    assert_eq!(restored_key.domain, ".");
    assert_eq!(
        restored_entry
            .value
            .resp
            .questions
            .first()
            .expect("restored root response should keep its question")
            .name
            .to_fqdn(),
        "."
    );
}

#[test]
fn test_escaped_terminal_dot_request_cache_dump_load_roundtrip() {
    let escaped_name = Name::from_ascii(r"foo\.").expect("escaped-dot name should parse");
    assert_eq!(escaped_name.normalized(), r"foo\.");

    let mut request = Message::new();
    request.questions.push(Question::new(escaped_name.copy(), RecordType::A, DNSClass::IN));
    let key = build_cache_key(&request, false)
        .expect("escaped-dot request should produce a cache key");
    assert_eq!(key.domain, r"foo\.");

    let mut response = Message::new();
    response.rcode = Rcode::NoError;
    response.questions.push(Question::new(escaped_name.copy(), RecordType::A, DNSClass::IN));
    response.answers.push(Record::from_rdata(
        escaped_name,
        60,
        RData::A(v4(192, 0, 2, 2)),
    ));

    let now = NOW;
    let mut cache_map = CacheMap::with_capacity(1);
    cache_map.insert_if_not_newer(
        key,
        CacheItem::new_validated(response, 60, now.saturating_add(60_000)),
        now,
        now.saturating_add(60_000),
        now,
    );

    let dump = dump_cache_to_bytes(&cache_map, NOW, UNIX).expect("escaped-dot cache should dump");
    let parsed = parse_persisted_dump(&dump).expect("escaped-dot dump should parse");
    assert_eq!(parsed.entries.len(), 1);
    assert_eq!(parsed.entries[0].domain, r"foo\.");

    let mut restored = CacheMap::with_capacity(1);
    assert_eq!(
        load_cache_from_bytes(&mut restored, &dump, false, CacheLoadPolicy::default(), false, NOW, UNIX)
            .expect("escaped-dot dump should restore"),
        1
    );
    let (restored_key, restored_entry) = first_cache_entry(&restored);
    assert_eq!(restored_key.domain, r"foo\.");
    assert_eq!(
        restored_entry
            .value
            .resp
            .questions
            .first()
            .expect("restored escaped-dot response should keep its question")
            .name
            .normalized(),
        r"foo\."
    );
}

#[test]
fn test_scope_zero_ecs_entry_survives_dump_roundtrip() {
    let mut cache_map = CacheMap::with_capacity(4);

    let mut request = Message::new();
    request.questions.push(Question::new(
        Name::from_ascii("example.com.").unwrap(),
        RecordType::A,
        DNSClass::IN,
    ));

    let mut request_edns = Edns::new();
    request_edns.options.push(EdnsOption::Subnet(ClientSubnet::new(
        IpAddr::V4(v4(203, 0, 113, 199)),
        24,
        0,
    )));
    request.edns = Some(request_edns);


    let request_key = build_cache_key(&request, true).expect("request key should exist");

    let mut response = positive_response_message(120);

    let mut response_edns = Edns::new();
    response_edns.options.push(EdnsOption::Subnet(ClientSubnet::new(
        IpAddr::V4(v4(203, 0, 113, 0)),
        24,
        0,
    )));
    response.edns = Some(response_edns);

    let stored_key = cache_key_for_response_ecs_scope(&request_key, &response)
        .expect("ECS response should be cacheable");

    let now = NOW;

    cache_map.insert_if_not_newer(
        stored_key,
        CacheItem::new_validated(response, 120, now.saturating_add(120_000)),
        now,
        now.saturating_add(120_000),
        now,
    );

    let dump = dump_cache_to_bytes(&cache_map, NOW, UNIX).expect("dump should succeed");

    let mut restored = CacheMap::with_capacity(4);
    let mut index = EcsLookupIndex::new();

    let loaded = load_cache_from_bytes_with_index_bounded::<MAX_PERSISTED_CACHE_DUMP_BYTES>(
        &mut restored,
        &dump,
        true,
        CacheLoadPolicy::default(),
        false,
        &mut index,
        usize::MAX,
        NOW,
        UNIX,
    )
    .expect("SCOPE=0 dump should load");

    assert_eq!(loaded, 1);
    assert_eq!(restored.len(), 1);
    assert_eq!(index.observed_ipv4_prefixes(), 1);
}

#[test]
fn bounded_dump_accepts_exact_size_and_rejects_one_byte_less() {
    let mut cache_map = CacheMap::with_capacity(1);
    let now = NOW;
    let key = CacheKey {
        domain: String::from("example.com"),
        record_type: RecordType::A,
        dns_class: DNSClass::IN,
        do_bit: false,
        cd_bit: false,
        ecs_scope: None,
    };
    cache_map.insert_if_not_newer(
        key,
        CacheItem::new_validated(positive_response_message(120), 120, now.saturating_add(120_000)),
        now,
        now.saturating_add(120_000),
        now,
    );

    let full = dump_cache_to_bytes(&cache_map, NOW, UNIX).expect("dump should succeed");
    let exact_limit = full.len();

    match dump_cache_to_bytes_with_limit::<MAX_PERSISTED_CACHE_DUMP_BYTES>(&cache_map, exact_limit, NOW, UNIX)
        .expect("exact-limit dump should succeed")
    {
        CacheDumpOutcome::Complete(bytes) => assert_eq!(bytes.len(), exact_limit),
        CacheDumpOutcome::TooLarge { .. } => panic!("exact limit must be accepted"),
    }

    match dump_cache_to_bytes_with_limit::<MAX_PERSISTED_CACHE_DUMP_BYTES>(&cache_map, exact_limit - 1, NOW, UNIX)
        .expect("bounded dump should report size overflow")
    {
        CacheDumpOutcome::Complete(_) => panic!("one-byte-short limit must be rejected"),
        CacheDumpOutcome::TooLarge { limit, minimum_size } => {
            assert_eq!(limit, exact_limit - 1);
            assert!(minimum_size > limit);
        }
    }
}

#[test]
fn a_dump_of_a_dump_is_the_same_dump() {
    let mut first = CacheMap::with_capacity(4);
    let data = serialize_current_dump(vec![
        positive_entry_for_domain("n0.example.com.", 500),
        positive_entry_for_domain("n1.example.com.", 400),
    ]);
    load_cache_from_bytes(&mut first, &data, false, CacheLoadPolicy::default(), false, NOW, UNIX)
        .expect("load should succeed");
    let once = dump_cache_to_bytes(&first, NOW, UNIX).expect("dump should succeed");

    let mut second = CacheMap::with_capacity(4);
    load_cache_from_bytes(&mut second, &once, false, CacheLoadPolicy::default(), false, NOW, UNIX)
        .expect("load should succeed");
    let twice = dump_cache_to_bytes(&second, NOW, UNIX).expect("dump should succeed");

    let mut once = parse_persisted_dump(&once).expect("dump should parse").entries;
    let mut twice = parse_persisted_dump(&twice).expect("dump should parse").entries;
    once.sort_by(|a, b| a.domain.cmp(&b.domain));
    twice.sort_by(|a, b| a.domain.cmp(&b.domain));
    assert_eq!(once.len(), 2);
    assert_eq!(once, twice);
}

#[test]
fn each_malformed_dump_gets_its_error() {
    assert_eq!(
        parse_persisted_dump(&[1, 2, 3]).err(),
        Some(DumpError::TruncatedHeader)
    );
    let whole = serialize_current_dump(vec![valid_address_entry()]);

    let mut bad_magic = whole.clone();
    bad_magic[0] ^= 0xFF;
    assert_eq!(
        parse_persisted_dump(&bad_magic).err(),
        Some(DumpError::BadMagic)
    );

    let mut later = whole.clone();
    later[8] = 9;
    assert_eq!(
        parse_persisted_dump(&later).err(),
        Some(DumpError::UnsupportedVersion(9))
    );

    assert_eq!(
        parse_persisted_dump(&whole[..20]).err(),
        Some(DumpError::TruncatedFramedHeader)
    );
    assert_eq!(
        parse_persisted_dump(&whole[..30]).err(),
        Some(DumpError::TruncatedFrameLength)
    );
}

#[test]
fn malformed_parts_are_told_with_the_reason() {
    // An entry whose first boolean is no boolean.
    let entry = valid_address_entry();
    let flag = 28 + 8 + 8 + entry.domain.len() + 2 + 2;
    let mut framed = serialize_current_dump(vec![entry]);
    framed[flag] = 7;
    let err = parse_persisted_dump(&framed).expect_err("a frame that is no entry");
    assert_eq!(
        err,
        DumpError::MalformedFrame("Invalid bool encoding: 7".to_string())
    );
    assert_eq!(
        err.to_error().message(),
        "invalid cache dump: failed to deserialize entry frame: Invalid bool encoding: 7"
    );

    let entry = valid_address_entry();
    let flag = 28 + 8 + entry.domain.len() + 2 + 2;
    let mut legacy = serialize_dump_at_version(PREVIOUS_CACHE_DUMP_VERSION, vec![entry], UNIX);
    legacy[flag] = 9;
    let err = parse_persisted_dump(&legacy).expect_err("a dump that is no value");
    assert_eq!(
        err.message(),
        "failed to deserialize: Invalid bool encoding: 9"
    );

    let mut entry = valid_address_entry();
    entry.resp_bytes = vec![1, 2, 3];
    let domain = entry.domain.clone();
    let data = serialize_current_dump(vec![entry]);
    let mut cache_map = CacheMap::with_capacity(1);
    let err = load_cache_from_bytes(&mut cache_map, &data, false, CacheLoadPolicy::default(), false, NOW, UNIX)
        .expect_err("a response that is no message");
    assert_eq!(
        err.to_error().message(),
        format!("invalid cache dump: failed to parse DNS message for {domain}: malformed DNS message")
    );
}

#[test]
fn what_keeps_a_dump_from_being_written_is_told_plainly() {
    let mut cache_map = CacheMap::with_capacity(1);
    let data = serialize_current_dump(vec![positive_entry_for_domain("n0.example.com.", 500)]);
    load_cache_from_bytes(&mut cache_map, &data, false, CacheLoadPolicy::default(), false, NOW, UNIX)
        .expect("load should succeed");
    let err = dump_cache_to_bytes_with_limit::<4>(&cache_map, 4096, NOW, UNIX)
        .expect_err("the domain is longer than the limit");
    let text = "Encoded sequence length exceeded preallocation limit of 4 bytes (needed 14 bytes)";
    assert_eq!(err, DumpError::EntryNotSerializable(text.to_string()));
    assert_eq!(err.to_error().message(), text);
    // The domain fits, and the response does not.
    let err = dump_cache_to_bytes_with_limit::<14>(&cache_map, 4096, NOW, UNIX)
        .expect_err("the response is longer than the limit");
    assert!(err.message().starts_with(
        "Encoded sequence length exceeded preallocation limit of 14 bytes (needed "
    ));
    assert!(dump_cache_to_bytes_with_limit::<400>(&cache_map, 4096, NOW, UNIX).is_ok());

    assert_eq!(
        DumpError::TooLarge { limit: 10, minimum_size: 28 }.to_error().message(),
        "cache dump too large: requires at least 28 bytes, limit is 10 bytes"
    );
    assert_eq!(
        DumpError::SizeOverflow.to_error().message(),
        "cache dump serialized size exceeds usize"
    );
    assert_eq!(
        DumpError::TrailingBytes.to_error().message(),
        "invalid cache dump: trailing bytes after final entry frame"
    );
}

#[test]
fn no_octet_is_tolerated_after_a_dump_of_any_version() {
    for version in [
        LEGACY_CACHE_DUMP_VERSION,
        PREVIOUS_CACHE_DUMP_VERSION,
        CACHE_DUMP_VERSION,
    ] {
        for entries in [Vec::new(), vec![valid_address_entry()]] {
            let data = serialize_dump_at_version(version, entries, UNIX);
            assert!(parse_persisted_dump(&data).is_ok());
            for more in [&[0u8][..], &[0; 8], b"garbage"] {
                let mut longer = data.clone();
                longer.extend_from_slice(more);
                assert!(parse_persisted_dump(&longer).is_err());
                let mut cache_map = CacheMap::with_capacity(1);
                assert!(load_cache_from_bytes(&mut cache_map, &longer, false, CacheLoadPolicy::default(), false, NOW, UNIX).is_err());
            }
        }
    }
}

#[test]
fn a_later_replacement_empties_the_cache_first() {
    let mut cache_map = CacheMap::with_capacity(4);
    let first = serialize_current_dump(vec![positive_entry_for_domain("n0.example.com.", 500)]);
    let second = serialize_current_dump(vec![positive_entry_for_domain("n1.example.com.", 400)]);
    load_cache_from_bytes(&mut cache_map, &first, false, CacheLoadPolicy::default(), false, NOW, UNIX)
        .expect("load should succeed");
    load_cache_from_bytes(&mut cache_map, &second, false, CacheLoadPolicy::default(), true, NOW, UNIX)
        .expect("load should succeed");

    assert_eq!(cache_map.len(), 1);
    let (key, entry) = first_cache_entry(&cache_map);
    assert_eq!(key.domain, "n1.example.com");
    assert_eq!(entry.cache_time_ms, NOW - 10);
    assert_eq!(entry.last_access_ms, NOW - 400);
    assert_eq!(entry.expire_at_ms, NOW + 119_990);
}
