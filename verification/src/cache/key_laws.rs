//! What holds of the keys of requests and responses.

use vstd::prelude::*;

use crate::bytes::{be_value, lemma_be_value_of_be, lemma_pow256_values};
use crate::cache::key::{
    canonical_domain, canonical_ecs, digest_of, domain_text, normalized_domain, padded16,
    request_key, response_key, same_prefix, stored_key_matches, CacheKeyView, EcsScopeView,
};
use crate::proto::ecs_bits::{high_mask, kept_octet, truncated};
use crate::proto::message::{
    message_subnet, ClientSubnet, EdnsView, IpAddr, MessageType, MessageView, Opcode,
};
use crate::proto::name::{
    is_name, lemma_lower_wire_is_label_run, lemma_name_text_reads_back, lower_wire, parse_name,
};
use crate::proto::wire::addr_octets;
use crate::text::{lower_text, trim};

verus! {

/// A bit of octets, the first bit of the first octet first.
pub open spec fn net_bit(s: Seq<u8>, i: int) -> u8 {
    (s[i / 8] >> ((7 - i % 8) as u8)) & 1
}

proof fn lemma_kept_bit(x: u8, bits: int, j: u8)
    requires
        0 < bits < 8,
        j < 8,
    ensures
        ((x & high_mask(bits)) >> ((7 - j) as u8)) & 1 == (if j < bits {
            (x >> ((7 - j) as u8)) & 1
        } else {
            0
        }),
{
    let b = bits as u8;
    let m = high_mask(bits);
    let k = (7 - j) as u8;
    assert(((x & m) >> k) & 1 == (if 7 - k < b {
        (x >> k) & 1
    } else {
        0
    })) by (bit_vector)
        requires
            0 < b < 8,
            k < 8,
            m == (if b == 1 {
                0x80u8
            } else if b == 2 {
                0xC0u8
            } else if b == 3 {
                0xE0u8
            } else if b == 4 {
                0xF0u8
            } else if b == 5 {
                0xF8u8
            } else if b == 6 {
                0xFCu8
            } else {
                0xFEu8
            }),
    ;
}

proof fn lemma_octet_of_bits(x: u8, y: u8)
    requires
        forall|j: u8| j < 8 ==> #[trigger] (x >> j) & 1 == (y >> j) & 1,
    ensures
        x == y,
{
    assert((x >> 0u8) & 1 == (y >> 0u8) & 1);
    assert((x >> 1u8) & 1 == (y >> 1u8) & 1);
    assert((x >> 2u8) & 1 == (y >> 2u8) & 1);
    assert((x >> 3u8) & 1 == (y >> 3u8) & 1);
    assert((x >> 4u8) & 1 == (y >> 4u8) & 1);
    assert((x >> 5u8) & 1 == (y >> 5u8) & 1);
    assert((x >> 6u8) & 1 == (y >> 6u8) & 1);
    assert((x >> 7u8) & 1 == (y >> 7u8) & 1);
    assert(x == y) by (bit_vector)
        requires
            (x >> 0u8) & 1 == (y >> 0u8) & 1,
            (x >> 1u8) & 1 == (y >> 1u8) & 1,
            (x >> 2u8) & 1 == (y >> 2u8) & 1,
            (x >> 3u8) & 1 == (y >> 3u8) & 1,
            (x >> 4u8) & 1 == (y >> 4u8) & 1,
            (x >> 5u8) & 1 == (y >> 5u8) & 1,
            (x >> 6u8) & 1 == (y >> 6u8) & 1,
            (x >> 7u8) & 1 == (y >> 7u8) & 1,
    ;
}

/// A network cut to a prefix has as many octets as the prefix needs, the bits of the
/// network within the prefix, and zeros behind them.
pub proof fn law_cut_keeps_the_prefix(src: Seq<u8>, prefix: u8)
    requires
        prefix <= src.len() * 8,
    ensures
        truncated(src, prefix).len() == (prefix + 7) / 8,
        forall|i: int|
            0 <= i < truncated(src, prefix).len() * 8 ==> #[trigger] net_bit(
                truncated(src, prefix),
                i,
            ) == (if i < prefix {
                net_bit(src, i)
            } else {
                0
            }),
{
    let cut = truncated(src, prefix);
    assert forall|i: int| 0 <= i < cut.len() * 8 implies #[trigger] net_bit(cut, i) == (if i
        < prefix {
        net_bit(src, i)
    } else {
        0
    }) by {
        let o = i / 8;
        let j = (i % 8) as u8;
        assert(cut[o] == kept_octet(src, prefix as int, o));
        if (o + 1) * 8 > prefix {
            assert(o == prefix / 8);
            lemma_kept_bit(src[o], prefix as int % 8, j);
        }
    }
}

/// Two networks have the same prefix exactly where all bits within it agree.
pub proof fn law_same_prefix_same_bits(a: Seq<u8>, b: Seq<u8>, prefix: u8)
    requires
        prefix <= a.len() * 8,
        prefix <= b.len() * 8,
    ensures
        same_prefix(a, b, prefix) <==> forall|i: int|
            0 <= i < prefix ==> #[trigger] net_bit(a, i) == net_bit(b, i),
{
    law_cut_keeps_the_prefix(a, prefix);
    law_cut_keeps_the_prefix(b, prefix);
    let x = truncated(a, prefix);
    let y = truncated(b, prefix);
    if same_prefix(a, b, prefix) {
        assert forall|i: int| 0 <= i < prefix implies #[trigger] net_bit(a, i) == net_bit(b, i) by {
            assert(net_bit(x, i) == net_bit(y, i));
        }
    }
    if forall|i: int| 0 <= i < prefix ==> #[trigger] net_bit(a, i) == net_bit(b, i) {
        assert forall|o: int| 0 <= o < x.len() implies x[o] == y[o] by {
            assert forall|j: u8| j < 8 implies #[trigger] (x[o] >> j) & 1 == (y[o] >> j) & 1 by {
                let i = o * 8 + 7 - j;
                assert(i / 8 == o && i % 8 == 7 - j);
                assert(net_bit(x, i) == (x[o] >> j) & 1);
                assert(net_bit(y, i) == (y[o] >> j) & 1);
                if i < prefix {
                    assert(net_bit(a, i) == net_bit(b, i));
                }
            }
            lemma_octet_of_bits(x[o], y[o]);
        }
        assert(x =~= y);
    }
}

/// The number of bits of an address.
pub open spec fn width(a: IpAddr) -> int {
    if a is V4 {
        32
    } else {
        128
    }
}

/// An address as a number.
pub open spec fn number_of(a: IpAddr) -> nat {
    match a {
        IpAddr::V4(v) => v as nat,
        IpAddr::V6(v) => v as nat,
    }
}

/// The octets of an address are its number, the most significant octet first.
pub proof fn law_octets_of_address(a: IpAddr)
    ensures
        addr_octets(a).len() * 8 == width(a),
        be_value(addr_octets(a)) == number_of(a),
{
    lemma_pow256_values();
    match a {
        IpAddr::V4(v) => lemma_be_value_of_be(v as nat, 4),
        IpAddr::V6(v) => lemma_be_value_of_be(v as nat, 16),
    }
}

/// The subnet part of a key has the family of the address, the prefixes as they are
/// given, as many octets as the source prefix needs, and of the address the bits
/// within the source prefix alone.
pub proof fn law_digest_bits(s: ClientSubnet)
    requires
        s.source_prefix <= width(s.addr),
        s.scope_prefix <= width(s.addr),
    ensures
        ({
            let d = digest_of(s);
            &&& d.family == (if s.addr is V4 {
                1u16
            } else {
                2u16
            })
            &&& d.source_prefix == s.source_prefix
            &&& d.scope_prefix == s.scope_prefix
            &&& d.network_len == (s.source_prefix + 7) / 8
            &&& d.network.len() == 16
            &&& forall|i: int|
                0 <= i < 128 ==> #[trigger] net_bit(d.network, i) == (if i < s.source_prefix {
                    net_bit(addr_octets(s.addr), i)
                } else {
                    0
                })
        }),
{
    law_octets_of_address(s.addr);
    let o = addr_octets(s.addr);
    let d = digest_of(s);
    let cut = truncated(o, s.source_prefix);
    law_cut_keeps_the_prefix(o, s.source_prefix);
    assert(cut.len() <= 16);
    assert(d.network == padded16(cut));
    assert forall|i: int| 0 <= i < 128 implies #[trigger] net_bit(d.network, i) == (if i
        < s.source_prefix {
        net_bit(o, i)
    } else {
        0
    }) by {
        if i / 8 < cut.len() {
            assert(d.network[i / 8] == cut[i / 8]);
            assert(net_bit(d.network, i) == net_bit(cut, i));
        } else {
            let k = (7 - i % 8) as u8;
            assert((0u8 >> k) & 1 == 0) by (bit_vector);
        }
    }
}

/// Whether two octets are the same, upper and lower case of a letter being the same.
pub open spec fn same_letter(x: u8, y: u8) -> bool {
    x == y || (65 <= x <= 90 && y == x + 32) || (65 <= y <= 90 && x == y + 32)
}

/// Whether two names are the same, upper and lower case being the same.
pub open spec fn same_name(a: Seq<u8>, b: Seq<u8>) -> bool {
    a.len() == b.len() && forall|i: int| 0 <= i < a.len() ==> same_letter(#[trigger] a[i], b[i])
}

/// Whether two subnets are the same within their source prefix.
pub open spec fn same_subnet(s: ClientSubnet, t: ClientSubnet) -> bool {
    &&& (s.addr is V4) == (t.addr is V4)
    &&& s.source_prefix == t.source_prefix
    &&& forall|i: int|
        0 <= i < s.source_prefix ==> #[trigger] net_bit(addr_octets(s.addr), i) == net_bit(
            addr_octets(t.addr),
            i,
        )
}

proof fn lemma_same_domain(a: Seq<u8>, b: Seq<u8>)
    requires
        is_name(a),
        is_name(b),
    ensures
        domain_text(a) == domain_text(b) <==> same_name(a, b),
{
    let x = lower_wire(a);
    let y = lower_wire(b);
    lemma_lower_wire_is_label_run(a);
    lemma_lower_wire_is_label_run(b);
    if a.len() > 0 {
        lemma_name_text_reads_back(x);
    }
    if b.len() > 0 {
        lemma_name_text_reads_back(y);
    }
    lemma_name_text_reads_back(Seq::empty());
    if domain_text(a) == domain_text(b) {
        lemma_domain_reads_back(a);
        lemma_domain_reads_back(b);
        assert(x == y);
        assert forall|i: int| 0 <= i < a.len() implies same_letter(#[trigger] a[i], b[i]) by {
            assert(x[i] == y[i]);
        }
    }
    if same_name(a, b) {
        assert forall|i: int| 0 <= i < a.len() implies x[i] == y[i] by {
            assert(same_letter(a[i], b[i]));
        }
        assert(x =~= y);
    }
}

proof fn lemma_domain_reads_back(w: Seq<u8>)
    requires
        is_name(w),
    ensures
        parse_name(domain_text(w)) == Some(lower_wire(w)),
{
    lemma_lower_wire_is_label_run(w);
    if w.len() > 0 {
        lemma_name_text_reads_back(lower_wire(w));
    } else {
        assert(lower_wire(w) =~= w);
        assert(parse_name(seq!['.']) == Some(Seq::<u8>::empty()));
    }
}

proof fn lemma_same_digest(s: ClientSubnet, t: ClientSubnet)
    requires
        s.source_prefix <= width(s.addr),
        t.source_prefix <= width(t.addr),
        s.scope_prefix == 0,
        t.scope_prefix == 0,
    ensures
        digest_of(s) == digest_of(t) <==> same_subnet(s, t),
{
    law_octets_of_address(s.addr);
    law_octets_of_address(t.addr);
    law_digest_bits(s);
    law_digest_bits(t);
    let d = digest_of(s);
    let e = digest_of(t);
    if d == e {
        assert forall|i: int| 0 <= i < s.source_prefix implies #[trigger] net_bit(
            addr_octets(s.addr),
            i,
        ) == net_bit(addr_octets(t.addr), i) by {
            assert(net_bit(d.network, i) == net_bit(e.network, i));
        }
    }
    if same_subnet(s, t) {
        law_same_prefix_same_bits(addr_octets(s.addr), addr_octets(t.addr), s.source_prefix);
    }
}

/// Whether a request says that signatures are wanted.
pub open spec fn wants_signatures(m: MessageView) -> bool {
    match m.edns {
        Some(e) => e.dnssec_ok,
        None => false,
    }
}

/// Whether two requests have the same subnet, or both have none.
pub open spec fn agree_in_subnet(a: MessageView, b: MessageView) -> bool {
    match (message_subnet(a), message_subnet(b)) {
        (Some(s), Some(t)) => same_subnet(s, t),
        (None, None) => true,
        _ => false,
    }
}

/// Two requests share a key exactly where they ask the same: the same name whatever its
/// case, the same type and class, with the same wish for signatures and for unchecked
/// data and, where subnets are part of keys, from the same subnet.
pub proof fn law_requests_share_a_key(a: MessageView, b: MessageView, ecs_in_key: bool)
    requires
        request_key(a, ecs_in_key) is Some,
        request_key(b, ecs_in_key) is Some,
        is_name(a.questions[0].name),
        is_name(b.questions[0].name),
    ensures
        request_key(a, ecs_in_key) == request_key(b, ecs_in_key) <==> {
            &&& same_name(a.questions[0].name, b.questions[0].name)
            &&& a.questions[0].qtype == b.questions[0].qtype
            &&& a.questions[0].qclass == b.questions[0].qclass
            &&& wants_signatures(a) == wants_signatures(b)
            &&& a.checking_disabled == b.checking_disabled
            &&& ecs_in_key ==> agree_in_subnet(a, b)
        },
{
    lemma_same_domain(a.questions[0].name, b.questions[0].name);
    if let (Some(s), Some(t)) = (message_subnet(a), message_subnet(b)) {
        lemma_same_digest(s, t);
    }
}

/// Whether an EDNS part has nothing but subnets.
pub open spec fn only_subnets(e: EdnsView) -> bool {
    e.version == 0 && forall|i: int|
        0 <= i < e.options.len() ==> (#[trigger] e.options[i]) is Subnet
}

/// A request has a key exactly where it is an ordinary query with one question, unsigned,
/// without an EDNS option but subnets, and where its first subnet is no longer than an
/// address and has no scope.
pub proof fn law_requests_with_a_key(m: MessageView, ecs_in_key: bool)
    ensures
        request_key(m, ecs_in_key) is Some <==> {
            &&& m.message_type == MessageType::Query
            &&& m.opcode == Opcode::Query
            &&& m.questions.len() == 1
            &&& m.signature.len() == 0
            &&& m.edns matches Some(e) ==> only_subnets(e) && (e.options.len() > 0 ==> ({
                let s = e.options[0]->Subnet_0;
                s.source_prefix <= width(s.addr) && s.scope_prefix == 0
            }))
        },
{
    if let Some(e) = m.edns {
        if only_subnets(e) && e.options.len() > 0 {
            assert(e.options[0] is Subnet);
        }
    }
}

/// Whether a subnet answers another: the same family and source prefix, and the same bits
/// within it.
pub open spec fn echoes(s: ClientSubnet, t: ClientSubnet) -> bool {
    t.source_prefix <= width(t.addr) && t.scope_prefix <= width(t.addr) && same_subnet(s, t)
}

/// A response to a request with a subnet is kept only where it repeats that subnet. It is
/// kept for all addresses that have the bits of its scope in common with the request,
/// where the scope is no longer than the source prefix, and for this source prefix alone
/// where it is longer. A response without a subnet is kept for the source prefix alone.
pub proof fn law_response_with_subnet_is_kept(
    request: MessageView,
    response: MessageView,
    s: ClientSubnet,
)
    requires
        request_key(request, true) is Some,
        message_subnet(request) == Some(s),
    ensures
        ({
            let key = request_key(request, true)->0;
            match (response_key(key, response), message_subnet(response)) {
                (Some(k), None) => k == key,
                (None, None) => false,
                (Some(k), Some(t)) => {
                    &&& echoes(s, t)
                    &&& k.base() == key.base()
                    &&& t.scope_prefix > s.source_prefix ==> k == key && s.source_prefix > 0
                    &&& t.scope_prefix <= s.source_prefix ==> k.ecs_scope is Some
                        && is_shared_by(k.ecs_scope->0, s.addr, t.scope_prefix)
                },
                (None, Some(t)) => !echoes(s, t) || (s.source_prefix == 0 && t.scope_prefix > 0),
            }
        }),
{
    let key = request_key(request, true)->0;
    let d = digest_of(s);
    law_digest_bits(s);
    law_octets_of_address(s.addr);
    assert(key.ecs_scope == Some(d));
    if let Some(t) = message_subnet(response) {
        law_octets_of_address(t.addr);
        if t.source_prefix <= width(t.addr) && t.scope_prefix <= width(t.addr) {
            law_digest_bits(t);
            lemma_same_source(s, t);
            if echoes(s, t) && t.scope_prefix <= s.source_prefix {
                lemma_shared(s, t.scope_prefix);
            }
        }
    }
}

/// Whether the subnet part of a key is that of all addresses with the same first bits.
pub open spec fn is_shared_by(e: EcsScopeView, addr: IpAddr, prefix: u8) -> bool {
    &&& e.family == (if addr is V4 {
        1u16
    } else {
        2u16
    })
    &&& e.source_prefix == prefix
    &&& e.scope_prefix == prefix
    &&& e.network_len == (prefix + 7) / 8
    &&& forall|i: int|
        0 <= i < 128 ==> #[trigger] net_bit(e.network, i) == (if i < prefix {
            net_bit(addr_octets(addr), i)
        } else {
            0
        })
}

proof fn lemma_same_source(s: ClientSubnet, t: ClientSubnet)
    requires
        s.source_prefix <= width(s.addr),
        t.source_prefix <= width(t.addr),
    ensures
        crate::cache::key::same_source(digest_of(s), digest_of(t)) <==> same_subnet(s, t),
{
    let s0 = ClientSubnet { scope_prefix: 0, ..s };
    let t0 = ClientSubnet { scope_prefix: 0, ..t };
    lemma_same_digest(s0, t0);
    let d = digest_of(s0);
    let e = digest_of(t0);
    law_digest_bits(s0);
    law_digest_bits(t0);
    law_octets_of_address(s.addr);
    law_octets_of_address(t.addr);
    assert(same_subnet(s, t) <==> same_subnet(s0, t0));
    if crate::cache::key::same_source(digest_of(s), digest_of(t)) {
        let a = truncated(addr_octets(s.addr), s.source_prefix);
        let b = truncated(addr_octets(t.addr), t.source_prefix);
        assert(d.network.take(a.len() as int) =~= a);
        assert(e.network.take(b.len() as int) =~= b);
        assert(d.network =~= e.network);
    }
}

proof fn lemma_shared(s: ClientSubnet, prefix: u8)
    requires
        s.source_prefix <= width(s.addr),
        prefix <= s.source_prefix,
    ensures
        is_shared_by(crate::cache::key::scoped_ecs(digest_of(s), prefix), s.addr, prefix),
{
    let s0 = ClientSubnet { scope_prefix: 0, ..s };
    law_digest_bits(s0);
    law_octets_of_address(s.addr);
    let d = digest_of(s);
    let o = addr_octets(s.addr);
    let long = truncated(o, s.source_prefix);
    law_cut_keeps_the_prefix(o, s.source_prefix);
    assert(d.significant() =~= long);
    law_cut_keeps_the_prefix(long, prefix);
    let cut = truncated(long, prefix);
    let e = crate::cache::key::scoped_ecs(d, prefix);
    assert(e.network == padded16(cut));
    assert forall|i: int| 0 <= i < 128 implies #[trigger] net_bit(e.network, i) == (if i < prefix {
        net_bit(o, i)
    } else {
        0
    }) by {
        if i / 8 < cut.len() {
            assert(e.network[i / 8] == cut[i / 8]);
            assert(net_bit(e.network, i) == net_bit(cut, i));
            if i < prefix {
                assert(net_bit(long, i) == net_bit(o, i));
            }
        } else {
            let k = (7 - i % 8) as u8;
            assert((0u8 >> k) & 1 == 0) by (bit_vector);
        }
    }
}

/// Without a subnet in the key a response is kept under the key exactly where it has no
/// subnet either.
pub proof fn law_response_without_subnet_is_kept(key: CacheKeyView, response: MessageView)
    requires
        key.ecs_scope is None,
    ensures
        message_subnet(response) is None ==> response_key(key, response) == Some(key),
        message_subnet(response) is Some ==> response_key(key, response) is None,
{
}

/// The subnet part of a key is in order exactly where its source prefix is one that its family
/// can have, its scope is none or the same, it has as many octets as the source prefix needs,
/// and no bit behind the source prefix is set.
pub proof fn law_subnet_in_order(family: u16, source: u8, scope: u8, network: Seq<u8>)
    ensures
        canonical_ecs(family, source, scope, network) <==> {
            &&& (family == 1 && source <= 32) || (family == 2 && source <= 128)
            &&& scope == 0 || scope == source
            &&& network.len() == (source + 7) / 8
            &&& forall|i: int|
                source <= i < network.len() * 8 ==> #[trigger] net_bit(network, i) == 0
        },
{
    if network.len() == (source + 7) / 8 {
        law_cut_keeps_the_prefix(network, source);
        let cut = truncated(network, source);
        if cut == network {
            assert forall|i: int| source <= i < network.len() * 8 implies #[trigger] net_bit(
                network,
                i,
            ) == 0 by {
                assert(net_bit(cut, i) == 0);
            }
        }
        if forall|i: int| source <= i < network.len() * 8 ==> #[trigger] net_bit(network, i) == 0 {
            assert forall|o: int| 0 <= o < cut.len() implies cut[o] == network[o] by {
                assert forall|j: u8| j < 8 implies #[trigger] (cut[o] >> j) & 1 == (network[o] >> j)
                    & 1 by {
                    let i = o * 8 + 7 - j;
                    assert(i / 8 == o && i % 8 == 7 - j);
                    assert(net_bit(cut, i) == (cut[o] >> j) & 1);
                    assert(net_bit(network, i) == (network[o] >> j) & 1);
                }
                lemma_octet_of_bits(cut[o], network[o]);
            }
            assert(cut =~= network);
        }
    }
}

/// Whether the first bits of a network are those of an address.
pub open spec fn has_bits_of(network: Seq<u8>, addr: IpAddr, prefix: u8) -> bool {
    forall|i: int|
        0 <= i < prefix ==> #[trigger] net_bit(network, i) == net_bit(addr_octets(addr), i)
}

/// A stored key and its response belong together exactly where both have no subnet; where the
/// response has none and the key is of a source prefix alone; or where the families are the
/// same and the prefixes and bits are: a key for everybody goes with a response for
/// everybody, a key of a source prefix alone with a response whose scope is longer, and a
/// shared key with a response of that scope.
pub proof fn law_stored_key_fits_response(key: CacheKeyView, m: MessageView)
    requires
        key.ecs_scope matches Some(e) ==> e.network.len() == 16,
    ensures
        match (key.ecs_scope, message_subnet(m)) {
            (None, None) => stored_key_matches(key, m),
            (None, Some(_)) => !stored_key_matches(key, m),
            (Some(e), None) => stored_key_matches(key, m) <==> e.scope_prefix == 0,
            (Some(e), Some(s)) => stored_key_matches(key, m) <==> {
                let everybody = e.source_prefix == 0 && e.scope_prefix == 0 && e.network_len == 0
                    && s.scope_prefix == 0;
                &&& s.source_prefix <= width(s.addr) && s.scope_prefix <= width(s.addr)
                &&& e.family == (if s.addr is V4 {
                    1u16
                } else {
                    2u16
                })
                &&& everybody || (e.scope_prefix == 0 && e.source_prefix > 0 && s.source_prefix
                    == e.source_prefix && s.scope_prefix > e.source_prefix && has_bits_of(
                    e.network,
                    s.addr,
                    e.source_prefix,
                )) || (e.scope_prefix > 0 && s.scope_prefix == e.scope_prefix && e.source_prefix
                    == e.scope_prefix && s.source_prefix >= e.source_prefix && has_bits_of(
                    e.network,
                    s.addr,
                    e.source_prefix,
                ))
            },
        },
{
    if let (Some(e), Some(s)) = (key.ecs_scope, message_subnet(m)) {
        if s.source_prefix <= width(s.addr) && s.scope_prefix <= width(s.addr) {
            law_digest_bits(s);
            let d = digest_of(s);
            if e.source_prefix <= s.source_prefix {
                law_same_prefix_same_bits(e.network, d.network, e.source_prefix);
                assert(same_prefix(e.network, d.network, e.source_prefix) <==> has_bits_of(
                    e.network,
                    s.addr,
                    e.source_prefix,
                )) by {
                    if has_bits_of(e.network, s.addr, e.source_prefix) {
                        assert forall|i: int| 0 <= i < e.source_prefix implies #[trigger] net_bit(
                            e.network,
                            i,
                        ) == net_bit(d.network, i) by {
                            assert(net_bit(d.network, i) == net_bit(addr_octets(s.addr), i));
                        }
                    }
                    if same_prefix(e.network, d.network, e.source_prefix) {
                        assert forall|i: int| 0 <= i < e.source_prefix implies #[trigger] net_bit(
                            e.network,
                            i,
                        ) == net_bit(addr_octets(s.addr), i) by {
                            assert(net_bit(e.network, i) == net_bit(d.network, i));
                            assert(net_bit(d.network, i) == net_bit(addr_octets(s.addr), i));
                        }
                    }
                }
            }
        }
    }
}

/// A text that is a name is looked for as that name, and any other as it is, without the blanks
/// around it and in lower case.
pub proof fn law_texts_looked_for(raw: Seq<char>)
    ensures
        canonical_domain(raw) matches Some(d) ==> normalized_domain(raw) == d,
        canonical_domain(raw) is None ==> normalized_domain(raw) == lower_text(trim(raw)),
{
}

} // verus!
