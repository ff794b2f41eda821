//! Where the parts of a message stand on the wire.

use vstd::prelude::*;

use crate::bytes::{be, be_value, lemma_be_len, lemma_be_value_of_be, lemma_pow256_values};
use crate::proto::message::{
    dns_class_of, opcode_of, rcode_of, record_type_of, ClientSubnet, DNSClass, EdnsOptionView,
    EdnsView, MessageType, MessageView, Opcode, QuestionView, RDataView, Rcode, RecordType,
    RecordView,
};
use crate::proto::wire::{
    additional_section, edns_encodable, edns_of_record, encodable, encode_header, encode_name,
    encode_option, encode_options, encode_question, encode_rdata, encode_record, encode_subnet,
    name_at, option_encodable, parse_message, parse_question, parse_rdata, parse_record,
    parse_subnet, record_of_edns, split_additional,
};

verus! {

/// Types have their numbers, and each number its type.
pub proof fn law_type_numbers(v: u16)
    ensures
        RecordType::A.number() == 1,
        RecordType::NS.number() == 2,
        RecordType::CNAME.number() == 5,
        RecordType::SOA.number() == 6,
        RecordType::PTR.number() == 12,
        RecordType::MX.number() == 15,
        RecordType::TXT.number() == 16,
        RecordType::AAAA.number() == 28,
        RecordType::SRV.number() == 33,
        RecordType::OPT.number() == 41,
        RecordType::SVCB.number() == 64,
        RecordType::HTTPS.number() == 65,
        RecordType::TSIG.number() == 250,
        RecordType::ANY.number() == 255,
        record_type_of(v).number() == v,
{
}

/// Classes, response codes and opcodes have their numbers, and each number what it stands for.
pub proof fn law_other_numbers(v: u16, c: u8)
    ensures
        DNSClass::IN.number() == 1,
        DNSClass::CH.number() == 3,
        DNSClass::HS.number() == 4,
        DNSClass::NONE.number() == 254,
        DNSClass::ANY.number() == 255,
        dns_class_of(v).number() == v,
        Rcode::NoError.number() == 0,
        Rcode::FormErr.number() == 1,
        Rcode::ServFail.number() == 2,
        Rcode::NXDomain.number() == 3,
        Rcode::NotImp.number() == 4,
        Rcode::Refused.number() == 5,
        rcode_of(c).number() == c,
        Opcode::Query.number() == 0,
        Opcode::Status.number() == 2,
        Opcode::Notify.number() == 4,
        Opcode::Update.number() == 5,
        opcode_of(c).number() == c,
{
}

proof fn lemma_flags(r: u8, op: u8, aa: u8, tc: u8, rd: u8, b: u8)
    requires
        r <= 1,
        op < 16,
        aa <= 1,
        tc <= 1,
        rd <= 1,
        b == r * 128 + op * 8 + aa * 4 + tc * 2 + rd,
    ensures
        (b & 0x80 != 0) == (r == 1),
        (b >> 3) & 0x0F == op,
        (b & 4 != 0) == (aa == 1),
        (b & 2 != 0) == (tc == 1),
        (b & 1 != 0) == (rd == 1),
{
    assert((b & 0x80 != 0) == (r == 1) && (b >> 3) & 0x0F == op && (b & 4 != 0) == (aa == 1) && (b
        & 2 != 0) == (tc == 1) && (b & 1 != 0) == (rd == 1)) by (bit_vector)
        requires
            r <= 1,
            op < 16,
            aa <= 1,
            tc <= 1,
            rd <= 1,
            b == r * 128 + op * 8 + aa * 4 + tc * 2 + rd,
    ;
}

proof fn lemma_codes(ra: u8, ad: u8, cd: u8, rc: u8, b: u8)
    requires
        ra <= 1,
        ad <= 1,
        cd <= 1,
        rc < 16,
        b == ra * 128 + ad * 32 + cd * 16 + rc,
    ensures
        (b & 0x80 != 0) == (ra == 1),
        (b & 0x20 != 0) == (ad == 1),
        (b & 0x10 != 0) == (cd == 1),
        b & 0x0F == rc,
{
    assert((b & 0x80 != 0) == (ra == 1) && (b & 0x20 != 0) == (ad == 1) && (b & 0x10 != 0) == (cd
        == 1) && b & 0x0F == rc) by (bit_vector)
        requires
            ra <= 1,
            ad <= 1,
            cd <= 1,
            rc < 16,
            b == ra * 128 + ad * 32 + cd * 16 + rc,
    ;
}

/// Whether twelve octets are the header of a message: the identifier, then the flags and
/// codes at their bits, then the numbers of questions and records.
pub open spec fn is_header(b: Seq<u8>, m: MessageView) -> bool {
    &&& b[0] * 256 + b[1] == m.id
    &&& (b[2] & 0x80 != 0) == (m.message_type == MessageType::Response)
    &&& (b[2] >> 3) & 0x0F == m.opcode.number()
    &&& (b[2] & 4 != 0) == m.authoritative
    &&& (b[2] & 2 != 0) == m.truncated
    &&& (b[2] & 1 != 0) == m.recursion_desired
    &&& (b[3] & 0x80 != 0) == m.recursion_available
    &&& (b[3] & 0x20 != 0) == m.authentic_data
    &&& (b[3] & 0x10 != 0) == m.checking_disabled
    &&& b[3] & 0x0F == m.rcode.number()
}

proof fn lemma_two_octets(v: nat)
    requires
        v < 0x1_0000,
    ensures
        be(v, 2).len() == 2,
        be(v, 2)[0] * 256 + be(v, 2)[1] == v,
{
    reveal_with_fuel(be, 3);
    lemma_be_len(v, 2);
    assert(be(v / 256, 1) =~= seq![((v / 256) % 256) as u8]);
    assert(be(v, 2) =~= seq![((v / 256) % 256) as u8, (v % 256) as u8]);
}

/// A message is written with its header first.
pub proof fn law_header_is_written(m: MessageView)
    requires
        encodable(m),
    ensures
        ({
            let b = encode_header(m);
            &&& b.len() == 12
            &&& is_header(b, m)
            &&& b[4] * 256 + b[5] == m.questions.len()
            &&& b[6] * 256 + b[7] == m.answers.len()
            &&& b[8] * 256 + b[9] == m.authorities.len()
            &&& b[10] * 256 + b[11] == additional_section(m).len()
        }),
{
    lemma_two_octets(m.id as nat);
    lemma_two_octets(m.questions.len());
    lemma_two_octets(m.answers.len());
    lemma_two_octets(m.authorities.len());
    lemma_two_octets(additional_section(m).len());
    let b = encode_header(m);
    let r: u8 = if m.message_type == MessageType::Response {
        1
    } else {
        0
    };
    let aa: u8 = if m.authoritative {
        1
    } else {
        0
    };
    let tc: u8 = if m.truncated {
        1
    } else {
        0
    };
    let rd: u8 = if m.recursion_desired {
        1
    } else {
        0
    };
    let ra: u8 = if m.recursion_available {
        1
    } else {
        0
    };
    let ad: u8 = if m.authentic_data {
        1
    } else {
        0
    };
    let cd: u8 = if m.checking_disabled {
        1
    } else {
        0
    };
    assert(b[2] == r * 128 + m.opcode.number() * 8 + aa * 4 + tc * 2 + rd);
    assert(b[3] == ra * 128 + ad * 32 + cd * 16 + m.rcode.number());
    lemma_flags(r, m.opcode.number(), aa, tc, rd, b[2]);
    lemma_codes(ra, ad, cd, m.rcode.number(), b[3]);
}

/// A message that is read has the identifier, the flags and the codes of its header.
pub proof fn law_header_is_read(b: Seq<u8>)
    ensures
        parse_message(b) matches Some(m) ==> b.len() >= 12 && is_header(b, m),
{
    if let Some(m) = parse_message(b) {
        let x = b[2];
        let y = b[3];
        assert((x & 0x80 != 0) == (x / 128 == 1) && (x >> 3) & 0x0F == (x / 8) % 16 && (x & 4 != 0)
            == ((x / 4) % 2 == 1) && (x & 2 != 0) == ((x / 2) % 2 == 1) && (x & 1 != 0) == (x % 2
            == 1)) by (bit_vector);
        assert((y & 0x80 != 0) == (y / 128 == 1) && (y & 0x20 != 0) == ((y / 32) % 2 == 1) && (y
            & 0x10 != 0) == ((y / 16) % 2 == 1) && y & 0x0F == y % 16) by (bit_vector);
        lemma_number_at(b, 0);
    }
}

proof fn lemma_number_at(b: Seq<u8>, pos: int)
    requires
        0 <= pos,
        pos + 2 <= b.len(),
    ensures
        crate::proto::wire::u16_at(b, pos) == b[pos] * 256 + b[pos + 1],
{
    let s = b.subrange(pos, pos + 2);
    reveal_with_fuel(be_value, 3);
    assert(s.drop_last().drop_last().len() == 0);
    assert(s.drop_last().last() == b[pos]);
    assert(s.last() == b[pos + 1]);
}

/// A question is written as its name, which ends with an empty label, the number of its type
/// and the number of its class.
pub proof fn law_question_is_written(q: QuestionView)
    ensures
        ({
            let e = encode_question(q);
            let n = q.name.len() as int;
            &&& e.len() == n + 5
            &&& e.take(n) == q.name
            &&& e[n] == 0
            &&& e[n + 1] * 256 + e[n + 2] == q.qtype.number()
            &&& e[n + 3] * 256 + e[n + 4] == q.qclass.number()
        }),
{
    lemma_two_octets(q.qtype.number() as nat);
    lemma_two_octets(q.qclass.number() as nat);
    assert(encode_question(q).take(q.name.len() as int) =~= q.name);
}

/// A record is written as its name, the numbers of its type and class, its TTL, the length of
/// its data, and its data.
pub proof fn law_record_is_written(r: RecordView)
    requires
        encode_rdata(r.data).len() < 0x1_0000,
    ensures
        ({
            let e = encode_record(r);
            let n = r.name.len() as int + 1;
            let d = encode_rdata(r.data);
            &&& e.len() == n + 10 + d.len()
            &&& e.take(n) == encode_name(r.name)
            &&& e[n] * 256 + e[n + 1] == r.data.rtype().number()
            &&& e[n + 2] * 256 + e[n + 3] == r.class.number()
            &&& be_value(e.subrange(n + 4, n + 8)) == r.ttl
            &&& e[n + 8] * 256 + e[n + 9] == d.len()
            &&& e.skip(n + 10) == d
        }),
{
    let e = encode_record(r);
    let n = r.name.len() as int + 1;
    let d = encode_rdata(r.data);
    lemma_two_octets(r.data.rtype().number() as nat);
    lemma_two_octets(r.class.number() as nat);
    lemma_two_octets(d.len());
    lemma_pow256_values();
    lemma_be_value_of_be(r.ttl as nat, 4);
    assert(e.take(n) =~= encode_name(r.name));
    assert(e.subrange(n + 4, n + 8) =~= be(r.ttl as nat, 4));
    assert(e.skip(n + 10) =~= d);
}

/// The data of an address record is the address, the most significant octet first; that of an
/// alias is the name; and that of a start of authority is its two names and its five numbers.
pub proof fn law_data_is_written(d: RDataView)
    ensures
        match d {
            RDataView::A(a) => encode_rdata(d).len() == 4 && be_value(encode_rdata(d)) == a,
            RDataView::AAAA(a) => encode_rdata(d).len() == 16 && be_value(encode_rdata(d)) == a,
            RDataView::CNAME(n) => encode_rdata(d) == n.push(0u8),
            RDataView::SOA(s) => {
                let e = encode_rdata(d);
                let m = s.mname.len() as int + 1;
                let k = m + s.rname.len() + 1;
                &&& e.len() == k + 20
                &&& e.take(m) == s.mname.push(0u8)
                &&& e.subrange(m, k) == s.rname.push(0u8)
                &&& be_value(e.subrange(k, k + 4)) == s.serial
                &&& be_value(e.subrange(k + 4, k + 8)) == s.refresh
                &&& be_value(e.subrange(k + 8, k + 12)) == s.retry
                &&& be_value(e.subrange(k + 12, k + 16)) == s.expire
                &&& be_value(e.subrange(k + 16, k + 20)) == s.minimum
            },
            RDataView::Other(_, o) => encode_rdata(d) == o,
        },
{
    lemma_pow256_values();
    match d {
        RDataView::A(a) => lemma_be_value_of_be(a as nat, 4),
        RDataView::AAAA(a) => lemma_be_value_of_be(a as nat, 16),
        RDataView::CNAME(n) => {
            assert(encode_rdata(d) =~= n.push(0u8));
        },
        RDataView::SOA(s) => {
            let e = encode_rdata(d);
            let m = s.mname.len() as int + 1;
            let k = m + s.rname.len() + 1;
            lemma_be_value_of_be(s.serial as nat, 4);
            lemma_be_value_of_be(s.refresh as nat, 4);
            lemma_be_value_of_be(s.retry as nat, 4);
            lemma_be_value_of_be(s.expire as nat, 4);
            lemma_be_value_of_be(s.minimum as nat, 4);
            assert(e.take(m) =~= s.mname.push(0u8));
            assert(e.subrange(m, k) =~= s.rname.push(0u8));
            assert(e.subrange(k, k + 4) =~= be(s.serial as nat, 4));
            assert(e.subrange(k + 4, k + 8) =~= be(s.refresh as nat, 4));
            assert(e.subrange(k + 8, k + 12) =~= be(s.retry as nat, 4));
            assert(e.subrange(k + 12, k + 16) =~= be(s.expire as nat, 4));
            assert(e.subrange(k + 16, k + 20) =~= be(s.minimum as nat, 4));
        },
        RDataView::Other(_, _) => {},
    }
}

/// The EDNS part is written as a record of the root with its type, the payload size in place
/// of the class, and the version and flags in place of the TTL.
pub proof fn law_edns_is_written(e: EdnsView)
    requires
        e.z < 0x8000,
    ensures
        ({
            let r = record_of_edns(e);
            &&& r.name.len() == 0
            &&& r.data.rtype() == RecordType::OPT
            &&& r.class.number() == e.udp_payload_size
            &&& (r.ttl >> 24) == e.ext_rcode
            &&& (r.ttl >> 16) & 0xFF == e.version
            &&& (r.ttl & 0x8000 != 0) == e.dnssec_ok
            &&& r.ttl & 0x7FFF == e.z
        }),
{
    let t = record_of_edns(e).ttl;
    let x = e.ext_rcode as u32;
    let v = e.version as u32;
    let k: u32 = if e.dnssec_ok {
        1
    } else {
        0
    };
    let z = e.z as u32;
    assert(t == x * 0x100_0000 + v * 0x1_0000 + k * 0x8000 + z);
    assert(t >> 24 == x && (t >> 16) & 0xFF == v && (t & 0x8000 != 0) == (k == 1) && t & 0x7FFF
        == z) by (bit_vector)
        requires
            x < 256,
            v < 256,
            k <= 1,
            z < 0x8000,
            t == x * 0x100_0000 + v * 0x1_0000 + k * 0x8000 + z,
    ;
}

/// An option is written as its number, eight for a subnet, the length of what it holds, and
/// that. A subnet is the number of its family, its two prefixes and the octets of its
/// address that the source prefix needs.
pub proof fn law_option_is_written(s: ClientSubnet, code: u16, data: Seq<u8>)
    requires
        data.len() < 0x1_0000,
        encode_subnet(s).len() < 0x1_0000,
    ensures
        ({
            let e = encode_option(EdnsOptionView::Subnet(s));
            let d = encode_subnet(s);
            &&& e[0] * 256 + e[1] == 8
            &&& e[2] * 256 + e[3] == d.len()
            &&& e.skip(4) == d
            &&& d[0] * 256 + d[1] == (if s.addr is V4 {
                1int
            } else {
                2
            })
            &&& d[2] == s.source_prefix
            &&& d[3] == s.scope_prefix
        }),
        ({
            let e = encode_option(EdnsOptionView::Other(code, data));
            &&& e[0] * 256 + e[1] == code
            &&& e[2] * 256 + e[3] == data.len()
            &&& e.skip(4) == data
        }),
{
    lemma_two_octets(8);
    lemma_two_octets(1);
    lemma_two_octets(2);
    lemma_two_octets(code as nat);
    lemma_two_octets(data.len());
    lemma_two_octets(encode_subnet(s).len());
    assert(encode_option(EdnsOptionView::Subnet(s)).skip(4) =~= encode_subnet(s));
    assert(encode_option(EdnsOptionView::Other(code, data)).skip(4) =~= data);
}

/// A pointer stands for the name at the place that it gives, which must come before, and
/// takes two octets.
pub proof fn law_pointer_is_followed(b: Seq<u8>, pos: int, run: int)
    requires
        0 <= pos,
        pos + 1 < b.len(),
        b[pos] >= 192,
        run >= 0,
    ensures
        ({
            let target = (b[pos] & 0x3F) * 256 + b[pos + 1];
            &&& target >= run ==> name_at(b, pos, run) is None
            &&& target < run ==> (match (name_at(b, pos, run), name_at(b, target, target)) {
                (Some((w, next)), Some((v, _))) => w == v && next == pos + 2,
                (None, None) => true,
                _ => false,
            })
        }),
{
    let x = b[pos];
    assert(x >= 192 ==> (x & 0x3F) == x - 192) by (bit_vector);
}

/// An address of another number of octets than its type has is refused.
pub proof fn law_addresses_of_other_lengths(b: Seq<u8>, pos: int, end: int)
    ensures
        end - pos != 4 ==> parse_rdata(b, pos, end, RecordType::A) is None,
        end - pos != 16 ==> parse_rdata(b, pos, end, RecordType::AAAA) is None,
{
}

/// A subnet is read where its prefix fits its family and has just the octets that it needs;
/// nothing else is.
pub proof fn law_subnets_that_fit(d: Seq<u8>)
    ensures
        d.len() < 4 ==> parse_subnet(d) is None,
        d.len() >= 4 && !(d[0] == 0 && (d[1] == 1 || d[1] == 2)) ==> parse_subnet(d) is None,
        d.len() >= 4 && d[0] == 0 && d[1] == 1 ==> (parse_subnet(d) is Some <==> d[2] <= 32 && 8 * (
        d.len() - 4) >= d[2] && 8 * (d.len() - 4) < d[2] + 8),
        d.len() >= 4 && d[0] == 0 && d[1] == 2 ==> (parse_subnet(d) is Some <==> d[2] <= 128 && 8
            * (d.len() - 4) >= d[2] && 8 * (d.len() - 4) < d[2] + 8),
        parse_subnet(d) is Some ==> parse_subnet(d)->0.source_prefix == d[2] && parse_subnet(
            d,
        )->0.scope_prefix == d[3] && (parse_subnet(d)->0.addr is V4 <==> d[1] == 1),
{
    if d.len() >= 4 {
        lemma_number_at(d, 0);
    }
}

/// A message has the settings of its extension once: another record of that kind is refused.
/// Signatures and all other records are kept apart, in order.
pub proof fn law_extension_is_given_once(rs: Seq<RecordView>, r: RecordView)
    ensures
        split_additional(Seq::empty()) == Some(
            (Seq::<RecordView>::empty(), None::<EdnsView>, Seq::<RecordView>::empty()),
        ),
        split_additional(rs) is None ==> split_additional(rs.push(r)) is None,
        split_additional(rs) matches Some((plain, edns, signatures)) ==> {
            let all = split_additional(rs.push(r));
            &&& r.data.rtype() == RecordType::OPT && edns is Some ==> all is None
            &&& r.data.rtype() == RecordType::OPT && edns is None && edns_of_record(r) is Some
                ==> all == Some((plain, edns_of_record(r), signatures))
            &&& r.data.rtype() == RecordType::TSIG ==> all == Some(
                (plain, edns, signatures.push(r)),
            )
            &&& r.data.rtype() != RecordType::OPT && r.data.rtype() != RecordType::TSIG ==> all
                == Some((plain.push(r), edns, signatures))
        },
{
    assert(rs.push(r).drop_last() =~= rs);
}

/// A question and a record end within the message that they are read from, and a name is no
/// longer than names are.
pub proof fn law_read_within_message(b: Seq<u8>, pos: int)
    ensures
        parse_question(b, pos) matches Some((q, end)) ==> end <= b.len() && q.name.len() <= 254,
        parse_record(b, pos) matches Some((r, end)) ==> end <= b.len() && r.name.len() <= 254,
{
}

/// A subnet is written where its prefix is not longer than its address, another option where
/// it has not the code of a subnet; the flags of the extension have fifteen bits.
pub proof fn law_options_that_are_written(s: ClientSubnet, code: u16, data: Seq<u8>, e: EdnsView)
    ensures
        s.addr is V4 ==> (option_encodable(EdnsOptionView::Subnet(s)) <==> s.source_prefix <= 32),
        s.addr is V6 ==> (option_encodable(EdnsOptionView::Subnet(s)) <==> s.source_prefix <= 128),
        option_encodable(EdnsOptionView::Other(code, data)) <==> code != 8 && data.len() <= 65535,
        e.z >= 32768 ==> !edns_encodable(e),
        e.options.len() == 0 && e.z < 32768 ==> edns_encodable(e),
{
    if e.options.len() == 0 {
        assert(encode_options(e.options).len() == 0);
    }
}

} // verus!
