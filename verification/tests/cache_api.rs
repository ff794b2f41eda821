//! Entry ids, listings and the operations on a whole cache.

use base64::engine::general_purpose::URL_SAFE_NO_PAD;
use base64::Engine;
use serde_json::Value;

use resolver_plugins::cache::api::{
    delete_entry, dump_cache, dump_reply, entry_name, flush_cache, list_cache, load_dump,
    ApiFailure,
};
use resolver_plugins::cache::ecs_index::EcsLookupIndex;
use resolver_plugins::cache::entry_id::{
    cache_entry_id, cache_key_of_id, decode_cache_entry_id, encode_cache_entry_id,
    entry_id_octets, CacheEntryEcsId, CacheEntryId,
};
use resolver_plugins::cache::item::CacheItem;
use resolver_plugins::cache::key::{CacheKey, EcsScopeDigest};
use resolver_plugins::cache::listing::{
    dns_class_name, elapsed_to_unix_ms, hex_of_octets, list_entries,
};
use resolver_plugins::cache::metrics::CacheMetrics;
use resolver_plugins::cache::persistence::dump::CacheDumpOutcome;
use resolver_plugins::cache::persistence::error::DumpError;
use resolver_plugins::cache::policy::CacheLoadPolicy;
use resolver_plugins::cache::query::{
    cache_entries_cursor_start, cache_entry_matches_query, cmp_cache_keys,
    contains_ascii_case_insensitive, cursor_texts, decode_form, parse_cache_entries_query,
    CacheEntriesQuery,
};
use resolver_plugins::cache::store::{CacheMap, DnsCacheStore};
use resolver_plugins::proto::message::{
    DNSClass, Message, Question, RData, Rcode, Record, RecordType,
};
use resolver_plugins::proto::name::Name;

const NOW: u64 = 1_000_000;
const UNIX: u64 = 1_700_000_000_000;

fn test_store(cache_size: usize) -> DnsCacheStore {
    DnsCacheStore::new(
        CacheMap::with_capacity(cache_size),
        cache_size,
        EcsLookupIndex::new(),
        CacheMetrics::new("api-test".to_string()),
    )
}

fn test_cache_key(domain: &str) -> CacheKey {
    CacheKey {
        domain: domain.to_string(),
        record_type: RecordType::A,
        dns_class: DNSClass::IN,
        do_bit: false,
        cd_bit: false,
        ecs_scope: None,
    }
}

fn response_for(domain: &str) -> Message {
    let mut response = Message::new();
    response.rcode = Rcode::NoError;
    response.questions.push(Question::new(
        Name::from_ascii(domain).unwrap(),
        RecordType::A,
        DNSClass::IN,
    ));
    response.answers.push(Record::from_rdata(
        Name::from_ascii(domain).unwrap(),
        60,
        RData::A(u32::from_be_bytes([192, 0, 2, 1])),
    ));
    response
}

fn insert(store: &mut DnsCacheStore, domain: &str) {
    assert!(store.insert_or_update(
        test_cache_key(domain),
        CacheItem::new_validated(response_for(domain), 60, NOW + 60_000),
        NOW,
        NOW + 60_000,
        NOW,
        NOW,
    ));
}

fn id_text(id: &CacheEntryId) -> String {
    let mut object = serde_json::Map::new();
    object.insert("domain".to_string(), Value::from(id.domain.as_str()));
    object.insert("record_type".to_string(), Value::from(id.record_type));
    object.insert("dns_class".to_string(), Value::from(id.dns_class));
    object.insert("do_bit".to_string(), Value::from(id.do_bit));
    object.insert("cd_bit".to_string(), Value::from(id.cd_bit));
    let ecs = match &id.ecs_scope {
        None => Value::Null,
        Some(ecs) => {
            let mut object = serde_json::Map::new();
            object.insert("family".to_string(), Value::from(ecs.family));
            object.insert("source_prefix".to_string(), Value::from(ecs.source_prefix));
            object.insert("scope_prefix".to_string(), Value::from(ecs.scope_prefix));
            object.insert("network_len".to_string(), Value::from(ecs.network_len));
            object.insert("network".to_string(), Value::from(ecs.network.to_vec()));
            Value::Object(object)
        }
    };
    object.insert("ecs_scope".to_string(), ecs);
    URL_SAFE_NO_PAD.encode(serde_json::to_vec(&Value::Object(object)).unwrap())
}

fn number<T: TryFrom<u64>>(v: &Value) -> Option<T> {
    T::try_from(v.as_u64()?).ok()
}

/// The id that a text holds as a JSON object.
fn read_id(raw: &str) -> Option<CacheEntryId> {
    let v: Value = serde_json::from_slice(&entry_id_octets(raw)?).ok()?;
    let ecs = &v["ecs_scope"];
    let ecs_scope = if ecs.is_null() {
        None
    } else {
        let octets: Option<Vec<u8>> = ecs["network"].as_array()?.iter().map(number).collect();
        Some(CacheEntryEcsId {
            family: number(&ecs["family"])?,
            source_prefix: number(&ecs["source_prefix"])?,
            scope_prefix: number(&ecs["scope_prefix"])?,
            network_len: number(&ecs["network_len"])?,
            network: octets?.try_into().ok()?,
        })
    };
    Some(CacheEntryId {
        domain: v["domain"].as_str()?.to_string(),
        record_type: number(&v["record_type"])?,
        dns_class: number(&v["dns_class"])?,
        do_bit: v["do_bit"].as_bool()?,
        cd_bit: v["cd_bit"].as_bool()?,
        ecs_scope,
    })
}

fn decode(raw: &str) -> Result<CacheKey, String> {
    decode_cache_entry_id(raw, &read_id(raw))
}

fn parse_query(query: Option<&str>) -> Result<CacheEntriesQuery, String> {
    let ids = cursor_texts(query).iter().map(|raw| read_id(raw)).collect();
    parse_cache_entries_query(query, &ids)
}

fn test_id(domain: &str, ecs_scope: Option<CacheEntryEcsId>) -> CacheEntryId {
    CacheEntryId {
        domain: domain.to_string(),
        record_type: RecordType::A.to_u16(),
        dns_class: DNSClass::IN.to_u16(),
        do_bit: false,
        cd_bit: false,
        ecs_scope,
    }
}

#[test]
fn parse_cache_entries_query_accepts_keyset_cursor_and_qname_filter() {
    let cursor_key = test_cache_key("cursor.example.com");

    let encoded_cursor = encode_cache_entry_id(&cursor_key).expect("cursor should encode");

    let raw_query = format!("limit=20&cursor={encoded_cursor}&qname=%20EXAMPLE.COM.%20");

    let query = parse_query(Some(&raw_query)).expect("query should parse");

    assert_eq!(query.limit, 20);

    assert_eq!(query.cursor.as_ref(), Some(&cursor_key));

    assert_eq!(query.qname.as_deref(), Some("example.com"));
}

#[test]
fn parse_cache_entries_query_preserves_escaped_terminal_dot() {
    let query = parse_query(Some(r"qname=foo%5C.")).expect("query should parse");

    assert_eq!(query.qname.as_deref(), Some(r"foo\."));
    assert!(cache_entry_matches_query(&test_cache_key(r"foo\."), &query));
}

#[test]
fn cache_entry_matches_query_filters_qname_case_insensitively() {
    let query = CacheEntriesQuery {
        limit: 100,
        cursor: None,
        qname: Some("example.com".to_string()),
    };

    assert!(cache_entry_matches_query(
        &test_cache_key("www.Example.COM"),
        &query
    ));
    assert!(!cache_entry_matches_query(
        &test_cache_key("www.example.net"),
        &query
    ));
}

#[test]
fn contains_ascii_case_insensitive_avoids_case_sensitive_qname_regression() {
    assert!(contains_ascii_case_insensitive(
        "WWW.Example.COM",
        "example.com"
    ));
    assert!(!contains_ascii_case_insensitive(
        "www.example.net",
        "example.com"
    ));
}

#[test]
fn cache_entry_id_roundtrips_canonical_root_domain() {
    let key = test_cache_key(".");

    let encoded = encode_cache_entry_id(&key).expect("root cache id should encode");
    let decoded = decode(&encoded).expect("root cache id should decode");

    assert_eq!(decoded.domain, ".");
    assert_eq!(decoded, key);
}

#[test]
fn cache_entry_id_roundtrips_escaped_terminal_dot() {
    let key = test_cache_key(r"foo\.");

    let encoded = encode_cache_entry_id(&key).expect("escaped-dot cache id should encode");
    let decoded = decode(&encoded).expect("escaped-dot cache id should decode");

    assert_eq!(decoded.domain, r"foo\.");
    assert_eq!(decoded, key);
}

#[test]
fn decode_cache_entry_id_rejects_empty_domain() {
    let raw = id_text(&test_id("", None));

    assert!(decode(&raw).is_err());
}

#[test]
fn decode_cache_entry_id_rejects_whitespace_only_domain() {
    let raw = id_text(&test_id("   ", None));

    assert!(decode(&raw).is_err());
}

#[test]
fn decode_cache_entry_id_rejects_oversized_ecs_network_len() {
    let raw = id_text(&test_id(
        "example.com",
        Some(CacheEntryEcsId {
            family: 2,
            source_prefix: 56,
            scope_prefix: 64,
            network_len: 17,
            network: [0; 16],
        }),
    ));
    assert!(decode(&raw).is_err());
}

#[test]
fn decode_cache_entry_id_rejects_noncanonical_ecs_metadata() {
    let mut id = test_id(
        "example.com",
        Some(CacheEntryEcsId {
            family: 1,
            source_prefix: 20,
            scope_prefix: 20,
            network_len: 3,
            network: [192, 0, 0x20, 0, 0, 0, 0, 0, 0, 0, 0, 0, 0, 0, 0, 0],
        }),
    );
    assert!(decode(&id_text(&id)).is_ok());

    id.ecs_scope.as_mut().unwrap().network[2] = 0x21;
    assert!(decode(&id_text(&id)).is_err());

    id.ecs_scope.as_mut().unwrap().network[2] = 0;
    id.ecs_scope.as_mut().unwrap().scope_prefix = 16;
    assert!(decode(&id_text(&id)).is_err());
}

#[test]
fn invalid_load_dump_returns_bad_request() {
    let mut store = test_store(1);

    match load_dump(
        &mut store,
        b"not a cache dump",
        false,
        CacheLoadPolicy::default(),
        NOW,
        UNIX,
    ) {
        Err(ApiFailure::Json { status, .. }) => assert_eq!(status, 400),
        Err(ApiFailure::Text { status, .. }) => assert_eq!(status, 400),
        Ok(_) => panic!("an invalid dump must be refused"),
    }
}

#[test]
fn parse_cache_entries_query_rejects_invalid_cursor() {
    let result = parse_query(Some("limit=20&cursor=not-a-valid-cursor"));

    assert!(result.is_err());
}

#[test]
fn cache_entries_keyset_pagination_is_independent_of_last_access() {
    let key_a = test_cache_key("a.example.com");
    let key_b = test_cache_key("b.example.com");
    let key_c = test_cache_key("c.example.com");
    let key_d = test_cache_key("d.example.com");

    let mut entries = vec![
        (key_a.copy(), 400u64),
        (key_b.copy(), 300u64),
        (key_c.copy(), 200u64),
        (key_d.copy(), 100u64),
    ];

    entries.sort_unstable_by(|(left, _), (right, _)| cmp_cache_keys(left, right));

    let page1 = &entries[..2];

    assert_eq!(page1[0].0, key_a);
    assert_eq!(page1[1].0, key_b);

    let cursor = key_b.copy();

    // D is used often between the two requests.
    for (key, last_access) in &mut entries {
        if *key == key_d {
            *last_access = 10_000;
        }
    }

    entries.sort_unstable_by(|(left, _), (right, _)| cmp_cache_keys(left, right));

    let start = cache_entries_cursor_start(&entries, Some(&cursor));

    assert_eq!(start, 2);

    assert_eq!(entries[start].0, key_c);
    assert_eq!(entries[start + 1].0, key_d);
}

#[test]
fn cache_entries_keyset_cursor_survives_deleted_boundary_key() {
    let key_a = test_cache_key("a.example.com");
    let key_b = test_cache_key("b.example.com");
    let key_c = test_cache_key("c.example.com");
    let key_d = test_cache_key("d.example.com");

    // The previous page ended at B, which has gone since.
    let cursor = key_b;

    let mut entries = vec![(key_a, ()), (key_c.copy(), ()), (key_d.copy(), ())];

    entries.sort_unstable_by(|(left, _), (right, _)| cmp_cache_keys(left, right));

    let start = cache_entries_cursor_start(&entries, Some(&cursor));

    assert_eq!(start, 1);
    assert_eq!(entries[start].0, key_c);
    assert_eq!(entries[start + 1].0, key_d);
}

#[test]
fn an_id_names_its_key_with_a_subnet() {
    let mut network = [0u8; 16];
    network[..3].copy_from_slice(&[203, 0, 113]);
    let key = CacheKey {
        do_bit: true,
        ecs_scope: Some(EcsScopeDigest {
            family: 1,
            source_prefix: 24,
            scope_prefix: 24,
            network_len: 3,
            network,
        }),
        ..test_cache_key("example.com")
    };

    let text = encode_cache_entry_id(&key).expect("an id");
    assert!(text
        .chars()
        .all(|c| c.is_ascii_alphanumeric() || c == '-' || c == '_'));
    let json = String::from_utf8(URL_SAFE_NO_PAD.decode(&text).unwrap()).unwrap();
    assert_eq!(
        json,
        "{\"domain\":\"example.com\",\"record_type\":1,\"dns_class\":1,\"do_bit\":true,\
         \"cd_bit\":false,\"ecs_scope\":{\"family\":1,\"source_prefix\":24,\"scope_prefix\":24,\
         \"network_len\":3,\"network\":[203,0,113,0,0,0,0,0,0,0,0,0,0,0,0,0]}}"
    );
    assert_eq!(decode(&text), Ok(key.copy()));
    assert_eq!(cache_key_of_id(&cache_entry_id(&key)), Ok(key));
    assert_eq!(text, id_text_as_written(&json));
}

fn id_text_as_written(json: &str) -> String {
    URL_SAFE_NO_PAD.encode(json)
}

#[test]
fn an_id_must_be_json_in_base64() {
    let key = test_cache_key("a.example");
    let id = Some(cache_entry_id(&key));
    let raw = encode_cache_entry_id(&key).unwrap();
    assert_eq!(decode_cache_entry_id(&raw, &id), Ok(key));
    assert_eq!(
        decode_cache_entry_id("***", &id),
        Err("cache entry id is not valid base64url".to_string())
    );
    assert_eq!(
        decode_cache_entry_id(&raw, &None),
        Err("cache entry id is not valid json".to_string())
    );
    assert_eq!(
        decode_cache_entry_id(&raw, &Some(test_id("a..b", None))),
        Err("cache entry id domain is invalid DNS text".to_string())
    );

    assert_eq!(entry_id_octets("e30"), Some(b"{}".to_vec()));
    assert_eq!(entry_id_octets(""), Some(Vec::new()));
    // Padding, other characters and bits beyond the last octet.
    for bad in ["e30=", "e3+", "e31", "e"] {
        assert_eq!(entry_id_octets(bad), None, "{bad}");
    }
}

#[test]
fn domains_are_quoted_in_ids() {
    let domain = "a\"b\\c\u{8}\t\n\u{c}\r\u{1}\u{1f}\u{7f}/\u{e4}\u{1f600}";
    let text = encode_cache_entry_id(&test_cache_key(domain)).unwrap();
    let json = String::from_utf8(entry_id_octets(&text).unwrap()).unwrap();
    assert_eq!(
        json,
        "{\"domain\":\"a\\\"b\\\\c\\b\\t\\n\\f\\r\\u0001\\u001f\u{7f}/\u{e4}\u{1f600}\",\
         \"record_type\":1,\"dns_class\":1,\"do_bit\":false,\"cd_bit\":false,\"ecs_scope\":null}"
    );
    assert_eq!(read_id(&text).map(|id| id.domain), Some(domain.to_string()));
}

#[test]
fn no_two_keys_share_a_text() {
    let scope = |source_prefix, network_len, first| {
        let mut network = [0u8; 16];
        network[0] = first;
        Some(EcsScopeDigest { family: 1, source_prefix, scope_prefix: 0, network_len, network })
    };
    let plain = || test_cache_key("a");
    let keys = [
        plain(),
        test_cache_key("a\""),
        test_cache_key("a\\"),
        test_cache_key("a\",\"record_type\":1"),
        CacheKey { record_type: RecordType::AAAA, ..plain() },
        CacheKey { dns_class: DNSClass::CH, ..plain() },
        CacheKey { do_bit: true, ..plain() },
        CacheKey { cd_bit: true, ..plain() },
        CacheKey { ecs_scope: scope(8, 1, 1), ..plain() },
        CacheKey { ecs_scope: scope(8, 1, 11), ..plain() },
        CacheKey { ecs_scope: scope(8, 11, 1), ..plain() },
        CacheKey { ecs_scope: scope(7, 1, 1), ..plain() },
    ];
    let mut texts: Vec<String> = keys.iter().map(|k| encode_cache_entry_id(k).unwrap()).collect();
    texts.sort();
    texts.dedup();
    assert_eq!(texts.len(), keys.len());
}

#[test]
fn cursors_are_read_in_their_order() {
    let a = encode_cache_entry_id(&test_cache_key("a.example")).unwrap();
    let b = encode_cache_entry_id(&test_cache_key("b.example")).unwrap();
    let raw = format!("cursor={a}&limit=5&&cursor=+{b}%20&cursor=&xcursor=1&cursor");
    assert_eq!(cursor_texts(Some(&raw)), [a.clone(), b.clone()]);
    assert_eq!(cursor_texts(None), Vec::<String>::new());
    // The last cursor counts, and an empty one takes it back.
    assert_eq!(parse_query(Some(&raw)).map(|q| q.cursor), Ok(None));
    let raw = format!("cursor={a}&cursor={b}");
    assert_eq!(
        parse_query(Some(&raw)).map(|q| q.cursor),
        Ok(Some(test_cache_key("b.example")))
    );
    // The first problem counts.
    let ids = vec![Some(cache_entry_id(&test_cache_key("a.example"))), None];
    assert_eq!(
        parse_cache_entries_query(Some(&format!("{raw}&limit=x")), &ids),
        Err("invalid cursor: cache entry id is not valid json".to_string())
    );
    assert_eq!(
        parse_cache_entries_query(Some(&format!("limit=x&{raw}")), &ids),
        Err("limit must be a positive integer".to_string())
    );
    assert_eq!(
        parse_cache_entries_query(Some(&format!("cursor=*&{raw}")), &ids),
        Err("invalid cursor: cache entry id is not valid base64url".to_string())
    );
}

#[test]
fn classes_have_names() {
    assert_eq!(dns_class_name(DNSClass::IN), "IN");
    assert_eq!(dns_class_name(DNSClass::ANY), "ANY");
    assert_eq!(dns_class_name(DNSClass::OPT(1232)), "OPT(1232)");
    assert_eq!(dns_class_name(DNSClass::Unknown(300)), "CLASS300");
    assert_eq!(DNSClass::OPT(1232).to_u16(), 1232);
}

#[test]
fn query_texts_are_decoded() {
    assert_eq!(decode_form("a+b%20c"), Some("a b c".to_string()));
    assert_eq!(decode_form("%C3%A4"), Some("\u{e4}".to_string()));
    assert_eq!(decode_form("%zz"), Some("%zz".to_string()));
    assert_eq!(decode_form("%FF"), None);
}

#[test]
fn query_limits_are_checked() {
    assert_eq!(
        parse_query(None).map(|query| query.limit),
        Ok(100)
    );
    assert_eq!(
        parse_query(Some("limit=500")).map(|query| query.limit),
        Ok(500)
    );
    assert_eq!(
        parse_query(Some("limit=0")).map(|query| query.limit),
        Ok(1)
    );
    assert_eq!(
        parse_query(Some("limit=501")).map(|query| query.limit),
        Ok(500)
    );
    assert_eq!(
        parse_query(Some("limit=many")),
        Err("limit must be a positive integer".to_string())
    );
}

#[test]
fn pages_list_each_entry_once() {
    let mut store = test_store(16);
    for domain in ["c.example", "a.example", "e.example", "b.example", "d.example"] {
        insert(&mut store, domain);
    }

    let mut seen = Vec::new();
    let mut cursor: Option<String> = None;
    loop {
        let raw = match &cursor {
            None => "limit=2".to_string(),
            Some(cursor) => format!("limit=2&cursor={cursor}"),
        };
        let query = parse_query(Some(&raw)).expect("query should parse");
        let page = list_entries(&store, &query, NOW + 1_000, UNIX).expect("a page");
        assert_eq!(page.total_entries, 5);
        for row in page.entries {
            assert_eq!(row.record_type, "A");
            assert_eq!(row.dns_class, "IN");
            assert_eq!(row.rcode, "NoError");
            assert_eq!(row.answer_count, 1);
            assert_eq!(row.remaining_ttl, 59);
            assert!(row.fresh && !row.stale);
            assert_eq!(row.cache_time_unix_ms, UNIX - 1_000);
            assert_eq!(row.expire_at_unix_ms, UNIX + 59_000);
            assert_eq!(
                decode(&row.id),
                Ok(test_cache_key(&row.domain))
            );
            seen.push(row.domain);
        }
        match page.next_cursor {
            None => break,
            next => cursor = next,
        }
    }
    assert_eq!(
        seen,
        ["a.example", "b.example", "c.example", "d.example", "e.example"]
    );

    let query = parse_query(Some("qname=B.EXAMPLE")).expect("query should parse");
    let page = list_entries(&store, &query, NOW, UNIX).expect("a page");
    assert_eq!(page.total_entries, 1);
    assert_eq!(page.entries[0].domain, "b.example");
}

#[test]
fn times_and_octets_are_shown() {
    assert_eq!(elapsed_to_unix_ms(900, 1_000, 5_000), 4_900);
    assert_eq!(elapsed_to_unix_ms(1_100, 1_000, 5_000), 5_100);
    assert_eq!(hex_of_octets(&[0xCB, 0x00, 0x71, 0xFF], 3), "cb0071");
}

#[test]
fn flushed_entries_are_gone() {
    let mut store = test_store(8);
    insert(&mut store, "a.example");
    insert(&mut store, "b.example");

    let (retired, count) = flush_cache(&mut store, NOW);
    assert_eq!(count, 2);
    assert_eq!(retired.len(), 2);
    assert_eq!(store.entry_count(), 0);
}

#[test]
fn a_downloaded_dump_loads_again() {
    let mut store = test_store(8);
    insert(&mut store, "a.example");
    insert(&mut store, "b.example");
    let reply = dump_cache(&store, "main", NOW, UNIX).expect("a dump");
    assert_eq!(reply.disposition, "attachment; filename=\"main.dump\"");

    let mut other = test_store(8);
    insert(&mut other, "old.example");
    let (retired, count) = load_dump(
        &mut other,
        &reply.body,
        false,
        CacheLoadPolicy::default(),
        NOW,
        UNIX,
    )
    .expect("the dump loads");
    assert_eq!(count, 2);
    assert_eq!(retired.len(), 1);
    assert!(other.entry(&test_cache_key("a.example")).is_some());
    assert!(other.entry(&test_cache_key("old.example")).is_none());
}

#[test]
fn a_dump_that_fails_is_told() {
    assert!(matches!(
        dump_reply(
            Ok(CacheDumpOutcome::TooLarge {
                limit: 1,
                minimum_size: 2
            }),
            "main"
        ),
        Err(ApiFailure::Json { status: 413, .. })
    ));
    assert!(matches!(
        dump_reply(Err(DumpError::SizeOverflow), "main"),
        Err(ApiFailure::Text { status: 500, .. })
    ));
}

#[test]
fn entries_are_deleted_by_id() {
    let mut store = test_store(8);
    insert(&mut store, "a.example");
    let id = encode_cache_entry_id(&test_cache_key("a.example")).expect("an id");
    let path = format!("/plugins/main/entries/{id}");
    let prefix = "/plugins/main/entries/";
    let named = read_id(&id);

    assert_eq!(entry_name(&path, prefix), Ok(id));
    assert!(matches!(
        delete_entry(&mut store, &path, prefix, &None, NOW),
        Err(ApiFailure::Json { status: 400, .. })
    ));
    assert!(matches!(
        delete_entry(&mut store, "/elsewhere", prefix, &None, NOW),
        Err(ApiFailure::Text { status: 404, .. })
    ));
    assert!(matches!(
        delete_entry(&mut store, "/plugins/main/entries/a/b", prefix, &None, NOW),
        Err(ApiFailure::Json { status: 400, .. })
    ));
    assert_eq!(delete_entry(&mut store, &path, prefix, &named, NOW), Ok(()));
    assert_eq!(store.entry_count(), 0);
    assert!(matches!(
        delete_entry(&mut store, &path, prefix, &named, NOW),
        Err(ApiFailure::Json { status: 404, .. })
    ));
}

#[test]
fn a_listing_refuses_a_bad_query() {
    let store = test_store(8);
    match list_cache(&store, Some("limit=many"), &Vec::new(), NOW, UNIX) {
        Err(ApiFailure::Json { status, .. }) => assert_eq!(status, 400),
        _ => panic!("the query must be refused"),
    }
    assert_eq!(
        list_cache(&store, None, &Vec::new(), NOW, UNIX).map(|page| page.entries.len()),
        Ok(0)
    );
}
