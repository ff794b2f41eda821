//! Prefixes for nftables sets.

use resolver_plugins::nftset::config::{
    parse_octet, parse_quick_sets, resolve_sets, validate_set, NftSetArgs, NftSetConfig,
    NumberProblem, ResolvedSet,
};
use resolver_plugins::nftset::executor::{
    record_outcome, NftSetFactory, NftSetMetrics, SendOutcome,
};
use resolver_plugins::nftset::writer::{
    add_bulk_result, canonical_cidr_once, drain_ready_batches, ipv4_text, prepare_prefixes,
    BulkResult, FailedEntry, IpCidr, IpPrefix, NftSetBatch,
};
use resolver_plugins::prefix_set::PrefixSet;
use resolver_plugins::proto::message::{IpAddr, Message, RData, Record};
use resolver_plugins::proto::name::Name;

fn v4(text: &str) -> IpAddr {
    let octets: Vec<u8> = text.split('.').map(|part| part.parse().unwrap()).collect();
    IpAddr::V4(u32::from_be_bytes([
        octets[0], octets[1], octets[2], octets[3],
    ]))
}

fn prefix(addr: &str) -> IpPrefix {
    IpPrefix {
        addr: v4(addr),
        mask: 24,
    }
}

fn set(family: &str, table: &str, name: &str, mask: u8) -> ResolvedSet {
    ResolvedSet {
        table_family: family.to_string(),
        table_name: table.to_string(),
        set_name: name.to_string(),
        mask,
    }
}

#[test]
fn test_writer_batch_deduplicates_canonical_cidrs() {
    let mut seen = PrefixSet::new();
    let first = prefix("192.0.2.10");
    let same_network = prefix("192.0.2.20");
    let other_network = prefix("198.51.100.7");

    assert_eq!(
        canonical_cidr_once(&mut seen, &first).unwrap(),
        Some(IpCidr::new(v4("192.0.2.0"), 24).unwrap())
    );
    assert_eq!(canonical_cidr_once(&mut seen, &same_network).unwrap(), None);
    assert_eq!(
        canonical_cidr_once(&mut seen, &other_network).unwrap(),
        Some(IpCidr::new(v4("198.51.100.0"), 24).unwrap())
    );
    assert_eq!(seen.into_vec().len(), 2);
}

#[test]
fn test_writer_drains_ready_batches_without_waiting() {
    let batch = |addr: &str| NftSetBatch {
        ipv4_prefixes: vec![prefix(addr)],
        ipv6_prefixes: Vec::new(),
    };
    let mut ready = vec![batch("192.0.2.2"), batch("198.51.100.1")];

    let merged = drain_ready_batches(&mut ready, batch("192.0.2.1"));
    assert_eq!(merged.ipv4_prefixes.len(), 3);
    assert_eq!(
        merged.ipv4_prefixes,
        vec![
            prefix("192.0.2.1"),
            prefix("192.0.2.2"),
            prefix("198.51.100.1")
        ]
    );
    assert!(ready.is_empty());
}

#[test]
fn test_ipcidr_normalizes_nft_prefix() {
    assert_eq!(
        IpCidr::new(v4("192.0.2.10"), 24)
            .unwrap()
            .ipv4_text()
            .unwrap(),
        "192.0.2.0/24"
    );
}

#[test]
fn networks_keep_only_their_leading_bits() {
    assert_eq!(IpCidr::new(v4("10.1.2.3"), 0).unwrap().addr, v4("0.0.0.0"));
    assert_eq!(
        IpCidr::new(v4("10.1.2.3"), 32).unwrap().addr,
        v4("10.1.2.3")
    );
    assert_eq!(IpCidr::new(v4("10.1.2.3"), 33), None);
    let v6 = IpAddr::V6(0x2001_0DB8_0000_00FF_0000_0000_0000_0001);
    assert_eq!(
        IpCidr::new(v6, 56).unwrap().addr,
        IpAddr::V6(0x2001_0DB8_0000_0000_0000_0000_0000_0000)
    );
    assert_eq!(IpCidr::new(v6, 129), None);
    assert_eq!(IpCidr::new(v6, 64).unwrap().ipv4_text(), None);
    assert_eq!(ipv4_text(0xC000_02FF), "192.0.2.255");

    // A network of a network is that network.
    let once = IpCidr::new(v4("10.1.2.3"), 20).unwrap();
    assert_eq!(IpCidr::new(once.addr, 20), Some(once));
}

#[test]
fn a_write_is_prepared_and_counted() {
    let wrong = IpPrefix {
        addr: v4("192.0.2.1"),
        mask: 33,
    };
    let (networks, outcome) = prepare_prefixes(&[
        prefix("192.0.2.10"),
        prefix("192.0.2.20"),
        wrong,
        prefix("198.51.100.7"),
    ]);
    assert_eq!(
        networks,
        vec![
            IpCidr::new(v4("192.0.2.0"), 24).unwrap(),
            IpCidr::new(v4("198.51.100.0"), 24).unwrap()
        ]
    );
    assert_eq!(outcome.skipped_duplicate, 1);
    assert_eq!(outcome.failed_total, 1);
    assert_eq!(
        outcome.failed,
        vec![(
            FailedEntry::Address(v4("192.0.2.1")),
            "invalid prefix: mask out of range".to_string()
        )]
    );

    let outcome = add_bulk_result(
        outcome,
        &networks,
        Ok(BulkResult {
            added: 1,
            exists: 0,
            failed: vec![(1, "no such set".to_string())],
        }),
    );
    assert_eq!(outcome.ok, 1);
    assert_eq!(outcome.failed_total, 2);
    assert_eq!(
        outcome.failed[1],
        (
            FailedEntry::Network(IpCidr::new(v4("198.51.100.0"), 24).unwrap()),
            "no such set".to_string()
        )
    );

    let mut metrics = NftSetMetrics::new("nft".to_string());
    record_outcome(&outcome, &mut metrics);
    assert_eq!(metrics.write_total, 1);
    assert_eq!(metrics.write_error_total, 2);

    let (networks, outcome) = prepare_prefixes(&[prefix("192.0.2.10"), prefix("198.51.100.7")]);
    let outcome = add_bulk_result(outcome, &networks, Err("socket".to_string()));
    assert_eq!(outcome.failed_total, 2);
    assert_eq!(
        outcome.failed,
        vec![(FailedEntry::All(2), "socket".to_string())]
    );
}

#[test]
fn quick_sets_are_read() {
    let (ipv4, ipv6) =
        parse_quick_sets("inet,fw4,v4set,ipv4_addr,24 inet,fw4,v6set,ipv6_addr,64")
            .expect("two sets");
    assert_eq!(ipv4, Some(set("inet", "fw4", "v4set", 24)));
    assert_eq!(ipv6, Some(set("inet", "fw4", "v6set", 64)));

    for (raw, message) in [
        (
            "inet,fw4,s,ipv4_addr",
            "invalid nftset quick setup token 'inet,fw4,s,ipv4_addr', \
             expected family,table,set,type,mask",
        ),
        (
            "inet,fw4,s,ipv4_addr,x",
            "invalid nftset mask 'x': invalid digit found in string",
        ),
        (
            "inet,fw4,s,ipv4_addr,256",
            "invalid nftset mask '256': number too large to fit in target type",
        ),
        (
            "inet,fw4,s,ipv4_addr,",
            "invalid nftset mask '': cannot parse integer from empty string",
        ),
        (
            "arp,fw4,s,ipv4_addr,24",
            "unsupported nft table family 'arp', expected ip/ip6/inet",
        ),
        (
            "inet,fw4,s,ipv4_addr,33",
            "nftset ipv4 mask must be in range 0..=32",
        ),
        (
            "inet,fw4,s,ipv6_addr,129",
            "nftset ipv6 mask must be in range 0..=128",
        ),
    ] {
        assert_eq!(
            parse_quick_sets(raw).err().map(|e| e.message().to_string()),
            Some(message.to_string())
        );
    }
}

#[test]
fn octets_are_read() {
    assert_eq!(parse_octet("255"), Ok(255));
    assert_eq!(parse_octet("+7"), Ok(7));
    assert_eq!(parse_octet("007"), Ok(7));
    assert_eq!(parse_octet(""), Err(NumberProblem::Empty));
    assert_eq!(parse_octet("+"), Err(NumberProblem::InvalidDigit));
    assert_eq!(parse_octet("-1"), Err(NumberProblem::InvalidDigit));
    assert_eq!(parse_octet("256"), Err(NumberProblem::TooLarge));
}

#[test]
fn sets_are_checked() {
    assert!(validate_set(&set("inet", " ", "s", 24), "ipv4_addr").is_err());
    assert!(validate_set(&set("inet", "t", "", 24), "ipv4_addr").is_err());
    assert!(validate_set(&set("ip6", "t", "s", 128), "ipv6_addr").is_ok());

    let mut cfg = NftSetConfig::default();
    cfg.ipv4 = Some(NftSetArgs {
        table_family: "ip".to_string(),
        table_name: "t".to_string(),
        set_name: "s".to_string(),
        mask: Some(16),
    });
    assert_eq!(
        resolve_sets(&cfg),
        Ok((Some(set("ip", "t", "s", 16)), None))
    );
}

#[test]
fn a_batch_holds_each_prefix_once() {
    let mut executor = NftSetFactory
        .quick_setup("nft", Some("inet,fw4,s,ipv4_addr,24".to_string()))
        .expect("an executor");
    assert_eq!(executor.plan(None), None);

    let mut response = Message::new();
    for addr in ["192.0.2.1", "192.0.2.1", "198.51.100.1"] {
        let data = match v4(addr) {
            IpAddr::V4(a) => RData::A(a),
            IpAddr::V6(a) => RData::AAAA(a),
        };
        response.answers.push(Record::from_rdata(
            Name::from_ascii("example.com.").unwrap(),
            60,
            data,
        ));
    }
    response.answers.push(Record::from_rdata(
        Name::from_ascii("example.com.").unwrap(),
        60,
        RData::AAAA(1),
    ));
    let batch = executor.plan(Some(&response)).expect("a batch");
    let mut prefixes = batch.ipv4_prefixes;
    prefixes.sort_by_key(|p| match p.addr {
        IpAddr::V4(a) => u128::from(a),
        IpAddr::V6(a) => a,
    });
    assert_eq!(prefixes, vec![prefix("192.0.2.1"), prefix("198.51.100.1")]);
    assert!(batch.ipv6_prefixes.is_empty());

    executor.note_sent(2, SendOutcome::Sent);
    assert_eq!(executor.metrics.entries_total, 2);
    executor.note_sent(2, SendOutcome::Full);
    assert_eq!(executor.metrics.dropped_total, 1);
    assert!(executor.enabled);
    executor.note_sent(2, SendOutcome::Disconnected);
    assert!(!executor.enabled);
    assert_eq!(executor.plan(Some(&response)), None);
    assert_eq!(executor.metrics.collect().len(), 4);
}

#[test]
fn a_prefix_set_holds_each_id_once() {
    let mut ids = PrefixSet::new();
    assert!(ids.insert((4, 1, 24)));
    assert!(!ids.insert((4, 1, 24)));
    assert!(ids.insert((4, 1, 25)));
    let mut all = ids.into_vec();
    all.sort();
    assert_eq!(all, vec![(4, 1, 24), (4, 1, 25)]);
}
