//! The wire form of DNS messages.
//!
//! Messages are written without name compression. Reading also follows
//! compression pointers, each of which must lead strictly backwards.

use vstd::prelude::*;

use crate::bytes::{
    be, be_value, lemma_be_len, lemma_be_value_of_be, lemma_pow256_values, pow256, push_be, read_be,
    slice_bytes,
};
use crate::proto::ecs_bits::{truncate_bits, truncated};
use crate::proto::message::{
    dns_class_of, opcode_of, option_views, question_views, rcode_of, record_type_of, record_views,
    ClientSubnet, DNSClass, Edns, EdnsOption, EdnsOptionView, EdnsView, IpAddr, Message,
    MessageType, MessageView, Opcode, Question, QuestionView, RData, RDataView, Rcode, Record,
    RecordType, RecordView, Soa, SoaView,
};
use crate::proto::name::{is_label_run, is_name, Name, MAX_NAME_LEN};

verus! {

/// Why octets are not a message, or a message has no octets.
#[derive(Debug, Clone, Copy, PartialEq, Eq, Structural)]
pub enum WireError {
    /// The octets are not the wire form of a message.
    Malformed,
    /// A part of the message does not fit its field on the wire.
    NotEncodable,
}

/// The message on a problem.
pub open spec fn wire_text(e: WireError) -> Seq<char> {
    match e {
        WireError::Malformed => "malformed DNS message"@,
        WireError::NotEncodable => "DNS message cannot be encoded"@,
    }
}

impl WireError {
    /// The message on the problem.
    pub fn message(&self) -> (r: String)
        ensures
            r@ == wire_text(*self),
    {
        match self {
            WireError::Malformed => "malformed DNS message".to_owned(),
            WireError::NotEncodable => "DNS message cannot be encoded".to_owned(),
        }
    }
}

// ---------------------------------------------------------------------------
// Reading

/// The name at `pos` and the position after it. `run` is where the current run
/// of labels began: a pointer must lead before it.
pub open spec fn name_at(b: Seq<u8>, pos: int, run: int) -> Option<(Seq<u8>, int)>
    decreases run, b.len() - pos,
{
    if run < 0 || pos < 0 || pos >= b.len() {
        None
    } else if b[pos] == 0 {
        Some((Seq::empty(), pos + 1))
    } else if b[pos] <= 63 {
        if pos + 1 + b[pos] <= b.len() {
            match name_at(b, pos + 1 + b[pos], run) {
                Some((rest, next)) => Some((b.subrange(pos, pos + 1 + b[pos]) + rest, next)),
                None => None,
            }
        } else {
            None
        }
    } else if b[pos] >= 192 && pos + 1 < b.len() && (b[pos] - 192) * 256 + b[pos + 1] < run {
        let target = (b[pos] - 192) * 256 + b[pos + 1];
        match name_at(b, target, target) {
            Some((rest, _)) => Some((rest, pos + 2)),
            None => None,
        }
    } else {
        None
    }
}

/// The name at `pos`, within the length that a name may have.
pub open spec fn parse_name_at(b: Seq<u8>, pos: int) -> Option<(Seq<u8>, int)> {
    match name_at(b, pos, pos) {
        Some((w, next)) if w.len() + 1 <= 255 => Some((w, next)),
        _ => None,
    }
}

/// The 16-bit number at `pos`.
pub open spec fn u16_at(b: Seq<u8>, pos: int) -> u16 {
    be_value(b.subrange(pos, pos + 2)) as u16
}

/// The 32-bit number at `pos`.
pub open spec fn u32_at(b: Seq<u8>, pos: int) -> u32 {
    be_value(b.subrange(pos, pos + 4)) as u32
}

/// The question at `pos` and the position after it.
pub open spec fn parse_question(b: Seq<u8>, pos: int) -> Option<(QuestionView, int)> {
    match parse_name_at(b, pos) {
        Some((name, p)) if p + 4 <= b.len() => Some(
            (
                QuestionView {
                    name,
                    qtype: record_type_of(u16_at(b, p)),
                    qclass: dns_class_of(u16_at(b, p + 2)),
                },
                p + 4,
            ),
        ),
        _ => None,
    }
}

/// The `n` questions at `pos` and the position after them.
pub open spec fn parse_questions(b: Seq<u8>, pos: int, n: nat) -> Option<(Seq<QuestionView>, int)>
    decreases n,
{
    if n == 0 {
        Some((Seq::empty(), pos))
    } else {
        match parse_questions(b, pos, (n - 1) as nat) {
            Some((qs, p)) => match parse_question(b, p) {
                Some((q, e)) => Some((qs.push(q), e)),
                None => None,
            },
            None => None,
        }
    }
}

/// The record data of the given type in `b[pos..end]`.
pub open spec fn parse_rdata(b: Seq<u8>, pos: int, end: int, rtype: RecordType) -> Option<RDataView> {
    if rtype == RecordType::A {
        if end - pos == 4 {
            Some(RDataView::A(u32_at(b, pos)))
        } else {
            None
        }
    } else if rtype == RecordType::AAAA {
        if end - pos == 16 {
            Some(RDataView::AAAA(be_value(b.subrange(pos, pos + 16)) as u128))
        } else {
            None
        }
    } else if rtype == RecordType::CNAME {
        match parse_name_at(b, pos) {
            Some((name, next)) if next == end => Some(RDataView::CNAME(name)),
            _ => None,
        }
    } else if rtype == RecordType::SOA {
        match parse_name_at(b, pos) {
            Some((mname, p)) => match parse_name_at(b, p) {
                Some((rname, q)) if q + 20 == end => Some(
                    RDataView::SOA(
                        SoaView {
                            mname,
                            rname,
                            serial: u32_at(b, q),
                            refresh: u32_at(b, q + 4),
                            retry: u32_at(b, q + 8),
                            expire: u32_at(b, q + 12),
                            minimum: u32_at(b, q + 16),
                        },
                    ),
                ),
                _ => None,
            },
            None => None,
        }
    } else {
        Some(RDataView::Other(rtype, b.subrange(pos, end)))
    }
}

/// The record at `pos` and the position after it.
pub open spec fn parse_record(b: Seq<u8>, pos: int) -> Option<(RecordView, int)> {
    match parse_name_at(b, pos) {
        Some((name, p)) if p + 10 <= b.len() => {
            let end = p + 10 + u16_at(b, p + 8);
            if end <= b.len() {
                match parse_rdata(b, p + 10, end, record_type_of(u16_at(b, p))) {
                    Some(data) => Some(
                        (
                            RecordView {
                                name,
                                class: dns_class_of(u16_at(b, p + 2)),
                                ttl: u32_at(b, p + 4),
                                data,
                            },
                            end,
                        ),
                    ),
                    None => None,
                }
            } else {
                None
            }
        },
        _ => None,
    }
}

/// The `n` records at `pos` and the position after them.
pub open spec fn parse_records(b: Seq<u8>, pos: int, n: nat) -> Option<(Seq<RecordView>, int)>
    decreases n,
{
    if n == 0 {
        Some((Seq::empty(), pos))
    } else {
        match parse_records(b, pos, (n - 1) as nat) {
            Some((rs, p)) => match parse_record(b, p) {
                Some((r, e)) => Some((rs.push(r), e)),
                None => None,
            },
            None => None,
        }
    }
}

/// The number of octets that hold `bits` bits.
pub open spec fn octets_for(bits: u8) -> int {
    (bits + 7) / 8
}

/// The client subnet that the payload of its option spells.
pub open spec fn parse_subnet(d: Seq<u8>) -> Option<ClientSubnet> {
    if d.len() < 4 {
        None
    } else {
        let family = u16_at(d, 0);
        let source = d[2];
        let addr = d.skip(4);
        if family == 1 && source <= 32 && addr.len() == octets_for(source) {
            Some(
                ClientSubnet {
                    addr: IpAddr::V4(be_value(addr + zeros((4 - addr.len()) as nat)) as u32),
                    source_prefix: source,
                    scope_prefix: d[3],
                },
            )
        } else if family == 2 && source <= 128 && addr.len() == octets_for(source) {
            Some(
                ClientSubnet {
                    addr: IpAddr::V6(be_value(addr + zeros((16 - addr.len()) as nat)) as u128),
                    source_prefix: source,
                    scope_prefix: d[3],
                },
            )
        } else {
            None
        }
    }
}

/// `n` zero octets.
pub open spec fn zeros(n: nat) -> Seq<u8> {
    Seq::new(n, |i: int| 0u8)
}

/// The options in `b[pos..]`.
pub open spec fn parse_options(b: Seq<u8>, pos: int) -> Option<Seq<EdnsOptionView>>
    decreases b.len() - pos,
{
    if pos < 0 || pos > b.len() {
        None
    } else if pos == b.len() {
        Some(Seq::empty())
    } else if pos + 4 <= b.len() && pos + 4 + u16_at(b, pos + 2) <= b.len() {
        let end = pos + 4 + u16_at(b, pos + 2);
        let data = b.subrange(pos + 4, end);
        let first = if u16_at(b, pos) == 8 {
            match parse_subnet(data) {
                Some(s) => Some(EdnsOptionView::Subnet(s)),
                None => None,
            }
        } else {
            Some(EdnsOptionView::Other(u16_at(b, pos), data))
        };
        match (first, parse_options(b, end)) {
            (Some(o), Some(rest)) => Some(seq![o] + rest),
            _ => None,
        }
    } else {
        None
    }
}

/// The EDNS part that an OPT record spells.
pub open spec fn edns_of_record(r: RecordView) -> Option<EdnsView> {
    match r.data {
        RDataView::Other(_, d) => match parse_options(d, 0) {
            Some(options) => Some(
                EdnsView {
                    udp_payload_size: r.class.number(),
                    ext_rcode: (r.ttl / 0x100_0000) as u8,
                    version: ((r.ttl / 0x1_0000) % 0x100) as u8,
                    dnssec_ok: (r.ttl / 0x8000) % 2 == 1,
                    z: (r.ttl % 0x8000) as u16,
                    options,
                },
            ),
            None => None,
        },
        _ => None,
    }
}

/// The records of the additional section, told apart: ordinary ones, the EDNS
/// part and transaction signatures.
pub open spec fn split_additional(
    rs: Seq<RecordView>,
) -> Option<(Seq<RecordView>, Option<EdnsView>, Seq<RecordView>)>
    decreases rs.len(),
{
    if rs.len() == 0 {
        Some((Seq::empty(), None, Seq::empty()))
    } else {
        match split_additional(rs.drop_last()) {
            None => None,
            Some((plain, edns, sigs)) => {
                let r = rs.last();
                if r.data.rtype() == RecordType::OPT {
                    match (edns, edns_of_record(r)) {
                        (None, Some(e)) => Some((plain, Some(e), sigs)),
                        _ => None,
                    }
                } else if r.data.rtype() == RecordType::TSIG {
                    Some((plain, edns, sigs.push(r)))
                } else {
                    Some((plain.push(r), edns, sigs))
                }
            },
        }
    }
}

/// The message whose wire form is `b`.
pub open spec fn parse_message(b: Seq<u8>) -> Option<MessageView> {
    if b.len() < 12 {
        None
    } else {
        match parse_questions(b, 12, u16_at(b, 4) as nat) {
            None => None,
            Some((questions, p1)) => match parse_records(b, p1, u16_at(b, 6) as nat) {
                None => None,
                Some((answers, p2)) => match parse_records(b, p2, u16_at(b, 8) as nat) {
                    None => None,
                    Some((authorities, p3)) => match parse_records(b, p3, u16_at(b, 10) as nat) {
                        None => None,
                        Some((extra, p4)) => if p4 != b.len() {
                            None
                        } else {
                            match split_additional(extra) {
                                None => None,
                                Some((additionals, edns, signature)) => Some(
                                    MessageView {
                                        id: u16_at(b, 0),
                                        message_type: if b[2] / 128 == 1 {
                                            MessageType::Response
                                        } else {
                                            MessageType::Query
                                        },
                                        opcode: opcode_of((b[2] / 8) % 16),
                                        authoritative: (b[2] / 4) % 2 == 1,
                                        truncated: (b[2] / 2) % 2 == 1,
                                        recursion_desired: b[2] % 2 == 1,
                                        recursion_available: b[3] / 128 == 1,
                                        authentic_data: (b[3] / 32) % 2 == 1,
                                        checking_disabled: (b[3] / 16) % 2 == 1,
                                        rcode: rcode_of(b[3] % 16),
                                        questions,
                                        answers,
                                        authorities,
                                        additionals,
                                        edns,
                                        signature,
                                    },
                                ),
                            }
                        },
                    },
                },
            },
        }
    }
}

// ---------------------------------------------------------------------------
// Writing

pub open spec fn encode_name(w: Seq<u8>) -> Seq<u8> {
    w + seq![0u8]
}

pub open spec fn encode_question(q: QuestionView) -> Seq<u8> {
    encode_name(q.name) + be(q.qtype.number() as nat, 2) + be(q.qclass.number() as nat, 2)
}

pub open spec fn encode_questions(qs: Seq<QuestionView>) -> Seq<u8>
    decreases qs.len(),
{
    if qs.len() == 0 {
        Seq::empty()
    } else {
        encode_questions(qs.drop_last()) + encode_question(qs.last())
    }
}

pub open spec fn encode_rdata(d: RDataView) -> Seq<u8> {
    match d {
        RDataView::A(a) => be(a as nat, 4),
        RDataView::AAAA(a) => be(a as nat, 16),
        RDataView::CNAME(n) => encode_name(n),
        RDataView::SOA(s) => encode_name(s.mname) + encode_name(s.rname) + be(s.serial as nat, 4)
            + be(s.refresh as nat, 4) + be(s.retry as nat, 4) + be(s.expire as nat, 4) + be(
            s.minimum as nat,
            4,
        ),
        RDataView::Other(_, d) => d,
    }
}

pub open spec fn encode_record(r: RecordView) -> Seq<u8> {
    encode_name(r.name) + be(r.data.rtype().number() as nat, 2) + be(r.class.number() as nat, 2) + be(
        r.ttl as nat,
        4,
    ) + be(encode_rdata(r.data).len(), 2) + encode_rdata(r.data)
}

pub open spec fn encode_records(rs: Seq<RecordView>) -> Seq<u8>
    decreases rs.len(),
{
    if rs.len() == 0 {
        Seq::empty()
    } else {
        encode_records(rs.drop_last()) + encode_record(rs.last())
    }
}

/// The octets of an address.
pub open spec fn addr_octets(a: IpAddr) -> Seq<u8> {
    match a {
        IpAddr::V4(v) => be(v as nat, 4),
        IpAddr::V6(v) => be(v as nat, 16),
    }
}

/// The number of bits of an address of the family of `a`.
pub open spec fn addr_bits(a: IpAddr) -> int {
    match a {
        IpAddr::V4(_) => 32,
        IpAddr::V6(_) => 128,
    }
}

pub open spec fn family_of(a: IpAddr) -> u16 {
    match a {
        IpAddr::V4(_) => 1,
        IpAddr::V6(_) => 2,
    }
}

/// The payload of a client subnet option: the address cut to the source prefix.
pub open spec fn encode_subnet(s: ClientSubnet) -> Seq<u8> {
    be(family_of(s.addr) as nat, 2) + seq![s.source_prefix, s.scope_prefix] + truncated(
        addr_octets(s.addr),
        s.source_prefix,
    )
}

pub open spec fn option_code(o: EdnsOptionView) -> u16 {
    match o {
        EdnsOptionView::Subnet(_) => 8,
        EdnsOptionView::Other(code, _) => code,
    }
}

pub open spec fn option_payload(o: EdnsOptionView) -> Seq<u8> {
    match o {
        EdnsOptionView::Subnet(s) => encode_subnet(s),
        EdnsOptionView::Other(_, d) => d,
    }
}

pub open spec fn encode_option(o: EdnsOptionView) -> Seq<u8> {
    be(option_code(o) as nat, 2) + be(option_payload(o).len(), 2) + option_payload(o)
}

pub open spec fn encode_options(os: Seq<EdnsOptionView>) -> Seq<u8>
    decreases os.len(),
{
    if os.len() == 0 {
        Seq::empty()
    } else {
        encode_option(os[0]) + encode_options(os.skip(1))
    }
}

/// The OPT record of an EDNS part.
pub open spec fn record_of_edns(e: EdnsView) -> RecordView {
    RecordView {
        name: Seq::empty(),
        class: dns_class_of(e.udp_payload_size),
        ttl: (e.ext_rcode * 0x100_0000 + e.version * 0x1_0000 + (if e.dnssec_ok {
            0x8000int
        } else {
            0
        }) + e.z) as u32,
        data: RDataView::Other(RecordType::OPT, encode_options(e.options)),
    }
}

/// The records of the additional section in the order in which they are written.
pub open spec fn additional_section(m: MessageView) -> Seq<RecordView> {
    match m.edns {
        Some(e) => m.additionals.push(record_of_edns(e)) + m.signature,
        None => m.additionals + m.signature,
    }
}

pub open spec fn bit(b: bool) -> int {
    if b {
        1
    } else {
        0
    }
}

pub open spec fn encode_header(m: MessageView) -> Seq<u8> {
    be(m.id as nat, 2) + seq![
        (bit(m.message_type == MessageType::Response) * 128 + m.opcode.number() * 8 + bit(
            m.authoritative,
        ) * 4 + bit(m.truncated) * 2 + bit(m.recursion_desired)) as u8,
        (bit(m.recursion_available) * 128 + bit(m.authentic_data) * 32 + bit(m.checking_disabled)
            * 16 + m.rcode.number()) as u8,
    ] + be(m.questions.len(), 2) + be(m.answers.len(), 2) + be(m.authorities.len(), 2) + be(
        additional_section(m).len(),
        2,
    )
}

pub open spec fn encode_message(m: MessageView) -> Seq<u8> {
    encode_header(m) + encode_questions(m.questions) + encode_records(m.answers) + encode_records(
        m.authorities,
    ) + encode_records(additional_section(m))
}

/// Whether a record type is read into a variant of its own.
pub open spec fn is_structured(t: RecordType) -> bool {
    t == RecordType::A || t == RecordType::AAAA || t == RecordType::CNAME || t == RecordType::SOA
}

pub open spec fn question_encodable(q: QuestionView) -> bool {
    is_name(q.name) && q.qtype.canonical() && q.qclass.canonical()
}

pub open spec fn record_encodable(r: RecordView) -> bool {
    is_name(r.name) && r.class.canonical() && match r.data {
        RDataView::A(_) => true,
        RDataView::AAAA(_) => true,
        RDataView::CNAME(n) => is_name(n),
        RDataView::SOA(s) => is_name(s.mname) && is_name(s.rname),
        RDataView::Other(t, d) => t.canonical() && !is_structured(t) && d.len() <= 0xFFFF,
    }
}

pub open spec fn option_encodable(o: EdnsOptionView) -> bool {
    match o {
        EdnsOptionView::Subnet(s) => s.source_prefix <= addr_bits(s.addr),
        EdnsOptionView::Other(code, d) => code != 8 && d.len() <= 0xFFFF,
    }
}

pub open spec fn edns_encodable(e: EdnsView) -> bool {
    &&& e.z < 0x8000
    &&& forall|i: int| 0 <= i < e.options.len() ==> option_encodable(#[trigger] e.options[i])
    &&& encode_options(e.options).len() <= 0xFFFF
}

pub open spec fn questions_encodable(qs: Seq<QuestionView>) -> bool {
    forall|i: int| 0 <= i < qs.len() ==> question_encodable(#[trigger] qs[i])
}

pub open spec fn records_encodable(rs: Seq<RecordView>) -> bool {
    forall|i: int| 0 <= i < rs.len() ==> record_encodable(#[trigger] rs[i])
}

/// Whether no record belongs to the EDNS part or the signatures.
pub open spec fn records_plain(rs: Seq<RecordView>) -> bool {
    forall|i: int|
        0 <= i < rs.len() ==> (#[trigger] rs[i]).data.rtype() != RecordType::OPT
            && rs[i].data.rtype() != RecordType::TSIG
}

/// Whether every record is a transaction signature.
pub open spec fn records_signing(rs: Seq<RecordView>) -> bool {
    forall|i: int| 0 <= i < rs.len() ==> (#[trigger] rs[i]).data.rtype() == RecordType::TSIG
}

/// Whether every part of `m` fits its field on the wire.
pub open spec fn encodable(m: MessageView) -> bool {
    &&& m.opcode.canonical()
    &&& m.rcode.canonical()
    &&& m.questions.len() <= 0xFFFF
    &&& m.answers.len() <= 0xFFFF
    &&& m.authorities.len() <= 0xFFFF
    &&& additional_section(m).len() <= 0xFFFF
    &&& questions_encodable(m.questions)
    &&& records_encodable(m.answers)
    &&& records_encodable(m.authorities)
    &&& records_encodable(m.additionals)
    &&& records_plain(m.additionals)
    &&& records_encodable(m.signature)
    &&& records_signing(m.signature)
    &&& (m.edns matches Some(e) ==> edns_encodable(e))
}

// ---------------------------------------------------------------------------
// Reading back what was written

/// Whether `s` stands in `b` at `pos`.
pub open spec fn holds_at(b: Seq<u8>, pos: int, s: Seq<u8>) -> bool {
    0 <= pos && pos + s.len() <= b.len() && b.subrange(pos, pos + s.len()) == s
}

proof fn lemma_holds_parts(b: Seq<u8>, pos: int, x: Seq<u8>, y: Seq<u8>)
    requires
        holds_at(b, pos, x + y),
    ensures
        holds_at(b, pos, x),
        holds_at(b, pos + x.len(), y),
{
    let whole = b.subrange(pos, pos + (x + y).len());
    assert(whole.subrange(0, x.len() as int) =~= x);
    assert(whole.subrange(x.len() as int, (x.len() + y.len()) as int) =~= y);
    assert(b.subrange(pos, pos + x.len()) =~= whole.subrange(0, x.len() as int));
    assert(b.subrange(pos + x.len(), pos + x.len() + y.len()) =~= whole.subrange(
        x.len() as int,
        (x.len() + y.len()) as int,
    ));
}

proof fn lemma_u16_at(b: Seq<u8>, pos: int, v: u16)
    requires
        holds_at(b, pos, be(v as nat, 2)),
    ensures
        u16_at(b, pos) == v,
        pos + 2 <= b.len(),
{
    lemma_pow256_values();
    lemma_be_value_of_be(v as nat, 2);
}

proof fn lemma_u32_at(b: Seq<u8>, pos: int, v: u32)
    requires
        holds_at(b, pos, be(v as nat, 4)),
    ensures
        u32_at(b, pos) == v,
        pos + 4 <= b.len(),
{
    lemma_pow256_values();
    lemma_be_value_of_be(v as nat, 4);
}

proof fn lemma_name_reads_back(b: Seq<u8>, pos: int, run: int, w: Seq<u8>)
    requires
        is_label_run(w),
        0 <= run,
        holds_at(b, pos, encode_name(w)),
    ensures
        name_at(b, pos, run) == Some((w, pos + w.len() + 1)),
    decreases w.len(),
{
    let e = encode_name(w);
    assert(b.subrange(pos, pos + e.len())[0] == b[pos]);
    if w.len() == 0 {
        assert(e[0] == 0);
        assert(Seq::<u8>::empty() =~= w);
    } else {
        let n = 1 + w[0] as int;
        assert(e[0] == w[0]);
        assert(w.subrange(0, n) + encode_name(w.skip(n)) =~= e);
        lemma_holds_parts(b, pos, w.subrange(0, n), encode_name(w.skip(n)));
        lemma_name_reads_back(b, pos + n, run, w.skip(n));
        assert(b.subrange(pos, pos + n) + w.skip(n) =~= w);
    }
}

proof fn lemma_parse_name_reads_back(b: Seq<u8>, pos: int, w: Seq<u8>)
    requires
        is_name(w),
        holds_at(b, pos, encode_name(w)),
    ensures
        parse_name_at(b, pos) == Some((w, pos + w.len() + 1)),
{
    lemma_name_reads_back(b, pos, pos, w);
}

proof fn lemma_question_reads_back(b: Seq<u8>, pos: int, q: QuestionView)
    requires
        question_encodable(q),
        holds_at(b, pos, encode_question(q)),
    ensures
        parse_question(b, pos) == Some((q, pos + encode_question(q).len())),
{
    let n = encode_name(q.name);
    let t = be(q.qtype.number() as nat, 2);
    let c = be(q.qclass.number() as nat, 2);
    lemma_be_len(q.qtype.number() as nat, 2);
    lemma_be_len(q.qclass.number() as nat, 2);
    lemma_holds_parts(b, pos, n + t, c);
    lemma_holds_parts(b, pos, n, t);
    lemma_parse_name_reads_back(b, pos, q.name);
    lemma_u16_at(b, pos + n.len(), q.qtype.number());
    lemma_u16_at(b, pos + n.len() + 2, q.qclass.number());
}

proof fn lemma_questions_read_back(b: Seq<u8>, pos: int, qs: Seq<QuestionView>)
    requires
        forall|i: int| 0 <= i < qs.len() ==> question_encodable(#[trigger] qs[i]),
        holds_at(b, pos, encode_questions(qs)),
    ensures
        parse_questions(b, pos, qs.len()) == Some((qs, pos + encode_questions(qs).len())),
    decreases qs.len(),
{
    if qs.len() > 0 {
        let init = qs.drop_last();
        lemma_holds_parts(b, pos, encode_questions(init), encode_question(qs.last()));
        assert forall|i: int| 0 <= i < init.len() implies question_encodable(#[trigger] init[i]) by {
            assert(init[i] == qs[i]);
        }
        lemma_questions_read_back(b, pos, init);
        assert(question_encodable(qs[qs.len() - 1]));
        lemma_question_reads_back(b, pos + encode_questions(init).len(), qs.last());
        assert(init.push(qs.last()) =~= qs);
    } else {
        assert(qs =~= Seq::empty());
    }
}

proof fn lemma_rdata_len(d: RDataView)
    ensures
        d matches RDataView::A(_) ==> encode_rdata(d).len() == 4,
        d matches RDataView::AAAA(_) ==> encode_rdata(d).len() == 16,
        d matches RDataView::CNAME(n) ==> encode_rdata(d).len() == n.len() + 1,
        d matches RDataView::SOA(s) ==> encode_rdata(d).len() == s.mname.len() + s.rname.len() + 22,
{
    match d {
        RDataView::A(a) => lemma_be_len(a as nat, 4),
        RDataView::AAAA(a) => lemma_be_len(a as nat, 16),
        RDataView::CNAME(_) => {},
        RDataView::SOA(s) => {
            lemma_be_len(s.serial as nat, 4);
            lemma_be_len(s.refresh as nat, 4);
            lemma_be_len(s.retry as nat, 4);
            lemma_be_len(s.expire as nat, 4);
            lemma_be_len(s.minimum as nat, 4);
        },
        RDataView::Other(_, _) => {},
    }
}

proof fn lemma_rdata_reads_back(b: Seq<u8>, pos: int, d: RDataView)
    requires
        holds_at(b, pos, encode_rdata(d)),
        match d {
            RDataView::CNAME(n) => is_name(n),
            RDataView::SOA(s) => is_name(s.mname) && is_name(s.rname),
            RDataView::Other(t, _) => !is_structured(t),
            _ => true,
        },
    ensures
        parse_rdata(b, pos, pos + encode_rdata(d).len(), d.rtype()) == Some(d),
{
    lemma_rdata_len(d);
    match d {
        RDataView::A(a) => lemma_u32_at(b, pos, a),
        RDataView::AAAA(a) => {
            lemma_pow256_values();
            lemma_be_value_of_be(a as nat, 16);
        },
        RDataView::CNAME(n) => lemma_parse_name_reads_back(b, pos, n),
        RDataView::SOA(s) => {
            let m = encode_name(s.mname);
            let r = encode_name(s.rname);
            let v1 = be(s.serial as nat, 4);
            let v2 = be(s.refresh as nat, 4);
            let v3 = be(s.retry as nat, 4);
            let v4 = be(s.expire as nat, 4);
            let v5 = be(s.minimum as nat, 4);
            lemma_be_len(s.serial as nat, 4);
            lemma_be_len(s.refresh as nat, 4);
            lemma_be_len(s.retry as nat, 4);
            lemma_be_len(s.expire as nat, 4);
            lemma_holds_parts(b, pos, m + r + v1 + v2 + v3 + v4, v5);
            lemma_holds_parts(b, pos, m + r + v1 + v2 + v3, v4);
            lemma_holds_parts(b, pos, m + r + v1 + v2, v3);
            lemma_holds_parts(b, pos, m + r + v1, v2);
            lemma_holds_parts(b, pos, m + r, v1);
            lemma_holds_parts(b, pos, m, r);
            lemma_parse_name_reads_back(b, pos, s.mname);
            lemma_parse_name_reads_back(b, pos + m.len(), s.rname);
            let q = pos + m.len() + r.len();
            lemma_u32_at(b, q, s.serial);
            lemma_u32_at(b, q + 4, s.refresh);
            lemma_u32_at(b, q + 8, s.retry);
            lemma_u32_at(b, q + 12, s.expire);
            lemma_u32_at(b, q + 16, s.minimum);
        },
        RDataView::Other(_, _) => {},
    }
}

proof fn lemma_record_reads_back(b: Seq<u8>, pos: int, r: RecordView)
    requires
        record_encodable(r),
        holds_at(b, pos, encode_record(r)),
    ensures
        parse_record(b, pos) == Some((r, pos + encode_record(r).len())),
{
    let n = encode_name(r.name);
    let t = be(r.data.rtype().number() as nat, 2);
    let c = be(r.class.number() as nat, 2);
    let l = be(r.ttl as nat, 4);
    let d = encode_rdata(r.data);
    let dl = be(d.len(), 2);
    lemma_rdata_len(r.data);
    lemma_be_len(r.data.rtype().number() as nat, 2);
    lemma_be_len(r.class.number() as nat, 2);
    lemma_be_len(r.ttl as nat, 4);
    lemma_be_len(d.len(), 2);
    assert(d.len() <= 0xFFFF);
    lemma_holds_parts(b, pos, n + t + c + l + dl, d);
    lemma_holds_parts(b, pos, n + t + c + l, dl);
    lemma_holds_parts(b, pos, n + t + c, l);
    lemma_holds_parts(b, pos, n + t, c);
    lemma_holds_parts(b, pos, n, t);
    lemma_parse_name_reads_back(b, pos, r.name);
    let p = pos + n.len();
    lemma_u16_at(b, p, r.data.rtype().number());
    lemma_u16_at(b, p + 2, r.class.number());
    lemma_u32_at(b, p + 4, r.ttl);
    lemma_u16_at(b, p + 8, d.len() as u16);
    lemma_rdata_reads_back(b, p + 10, r.data);
    assert(r.data.rtype().canonical());
}

proof fn lemma_records_read_back(b: Seq<u8>, pos: int, rs: Seq<RecordView>)
    requires
        forall|i: int| 0 <= i < rs.len() ==> record_encodable(#[trigger] rs[i]),
        holds_at(b, pos, encode_records(rs)),
    ensures
        parse_records(b, pos, rs.len()) == Some((rs, pos + encode_records(rs).len())),
    decreases rs.len(),
{
    if rs.len() > 0 {
        let init = rs.drop_last();
        lemma_holds_parts(b, pos, encode_records(init), encode_record(rs.last()));
        assert forall|i: int| 0 <= i < init.len() implies record_encodable(#[trigger] init[i]) by {
            assert(init[i] == rs[i]);
        }
        lemma_records_read_back(b, pos, init);
        assert(record_encodable(rs[rs.len() - 1]));
        lemma_record_reads_back(b, pos + encode_records(init).len(), rs.last());
        assert(init.push(rs.last()) =~= rs);
    } else {
        assert(rs =~= Seq::empty());
    }
}

/// Whether the address of a subnet has no bits past its source prefix.
pub open spec fn subnet_canonical(s: ClientSubnet) -> bool {
    let all = addr_octets(s.addr);
    truncated(all, s.source_prefix) + zeros((all.len() - octets_for(s.source_prefix)) as nat) == all
}

proof fn lemma_subnet_reads_back(s: ClientSubnet)
    requires
        s.source_prefix <= addr_bits(s.addr),
        subnet_canonical(s),
    ensures
        parse_subnet(encode_subnet(s)) == Some(s),
        encode_subnet(s).len() <= 20,
{
    let d = encode_subnet(s);
    let f = be(family_of(s.addr) as nat, 2);
    lemma_be_len(family_of(s.addr) as nat, 2);
    lemma_pow256_values();
    lemma_be_value_of_be(family_of(s.addr) as nat, 2);
    assert(d.subrange(0, 2) =~= f);
    match s.addr {
        IpAddr::V4(v) => {
            lemma_be_value_of_be(v as nat, 4);
        },
        IpAddr::V6(v) => {
            lemma_be_value_of_be(v as nat, 16);
        },
    }
    let cut = truncated(addr_octets(s.addr), s.source_prefix);
    assert(d.skip(4) =~= cut);
    assert(cut.len() == octets_for(s.source_prefix));
}

proof fn lemma_options_read_back(b: Seq<u8>, pos: int, os: Seq<EdnsOptionView>)
    requires
        holds_at(b, pos, encode_options(os)),
        pos + encode_options(os).len() == b.len(),
        forall|i: int| 0 <= i < os.len() ==> option_encodable(#[trigger] os[i]),
        forall|i: int|
            0 <= i < os.len() ==> ((#[trigger] os[i]) matches EdnsOptionView::Subnet(s)
                ==> subnet_canonical(s)),
    ensures
        parse_options(b, pos) == Some(os),
    decreases os.len(),
{
    if os.len() == 0 {
        assert(os =~= Seq::empty());
    } else {
        let o = os[0];
        let rest = os.skip(1);
        let code = be(option_code(o) as nat, 2);
        let d = option_payload(o);
        let dl = be(d.len(), 2);
        if let EdnsOptionView::Subnet(s) = o {
            lemma_subnet_reads_back(s);
        }
        lemma_be_len(option_code(o) as nat, 2);
        lemma_be_len(d.len(), 2);
        lemma_holds_parts(b, pos, encode_option(o), encode_options(rest));
        lemma_holds_parts(b, pos, code + dl, d);
        lemma_holds_parts(b, pos, code, dl);
        lemma_u16_at(b, pos, option_code(o));
        lemma_u16_at(b, pos + 2, d.len() as u16);
        assert forall|i: int| 0 <= i < rest.len() implies option_encodable(#[trigger] rest[i]) && (
        rest[i] matches EdnsOptionView::Subnet(s) ==> subnet_canonical(s)) by {
            assert(rest[i] == os[i + 1]);
        }
        lemma_options_read_back(b, pos + encode_option(o).len(), rest);
        assert(seq![o] + rest =~= os);
        assert(b.subrange(pos + 4, pos + 4 + d.len()) =~= d);
    }
}

/// Whether every subnet of an EDNS part is free of bits past its prefix.
pub open spec fn edns_canonical(e: EdnsView) -> bool {
    forall|i: int|
        0 <= i < e.options.len() ==> ((#[trigger] e.options[i]) matches EdnsOptionView::Subnet(s)
            ==> subnet_canonical(s))
}

proof fn lemma_edns_reads_back(e: EdnsView)
    requires
        edns_encodable(e),
        edns_canonical(e),
    ensures
        edns_of_record(record_of_edns(e)) == Some(e),
        record_encodable(record_of_edns(e)),
        record_of_edns(e).data.rtype() == RecordType::OPT,
{
    let d = encode_options(e.options);
    assert(d.subrange(0, d.len() as int) =~= d);
    lemma_options_read_back(d, 0, e.options);
}

proof fn lemma_split_plain(plain: Seq<RecordView>)
    requires
        forall|i: int|
            0 <= i < plain.len() ==> (#[trigger] plain[i]).data.rtype() != RecordType::OPT
                && plain[i].data.rtype() != RecordType::TSIG,
    ensures
        split_additional(plain) == Some((plain, None::<EdnsView>, Seq::<RecordView>::empty())),
    decreases plain.len(),
{
    if plain.len() > 0 {
        let init = plain.drop_last();
        assert forall|i: int| 0 <= i < init.len() implies (#[trigger] init[i]).data.rtype()
            != RecordType::OPT && init[i].data.rtype() != RecordType::TSIG by {
            assert(init[i] == plain[i]);
        }
        lemma_split_plain(init);
        let last = plain[plain.len() - 1];
        assert(last.data.rtype() != RecordType::OPT);
        assert(init.push(plain.last()) =~= plain);
    } else {
        assert(plain =~= Seq::empty());
    }
}

proof fn lemma_split_signed(
    head: Seq<RecordView>,
    plain: Seq<RecordView>,
    edns: Option<EdnsView>,
    sigs: Seq<RecordView>,
)
    requires
        split_additional(head) == Some((plain, edns, Seq::<RecordView>::empty())),
        forall|i: int| 0 <= i < sigs.len() ==> (#[trigger] sigs[i]).data.rtype() == RecordType::TSIG,
    ensures
        split_additional(head + sigs) == Some((plain, edns, sigs)),
    decreases sigs.len(),
{
    if sigs.len() > 0 {
        let init = sigs.drop_last();
        assert forall|i: int| 0 <= i < init.len() implies (#[trigger] init[i]).data.rtype()
            == RecordType::TSIG by {
            assert(init[i] == sigs[i]);
        }
        lemma_split_signed(head, plain, edns, init);
        assert((head + sigs).drop_last() =~= head + init);
        let last = sigs[sigs.len() - 1];
        assert(last.data.rtype() == RecordType::TSIG);
        assert((head + sigs).last() == last);
        assert(init.push(sigs.last()) =~= sigs);
    } else {
        assert(head + sigs =~= head);
        assert(sigs =~= Seq::empty());
    }
}

/// Whether a message can be written without loss: it fits the wire, and its
/// subnets carry no bits past their prefixes.
pub open spec fn lossless(m: MessageView) -> bool {
    encodable(m) && (m.edns matches Some(e) ==> edns_canonical(e))
}

proof fn lemma_additional_reads_back(m: MessageView)
    requires
        lossless(m),
    ensures
        split_additional(additional_section(m)) == Some((m.additionals, m.edns, m.signature)),
        forall|i: int|
            0 <= i < additional_section(m).len() ==> record_encodable(
                #[trigger] additional_section(m)[i],
            ),
{
    lemma_split_plain(m.additionals);
    match m.edns {
        Some(e) => {
            lemma_edns_reads_back(e);
            let head = m.additionals.push(record_of_edns(e));
            assert(head.drop_last() =~= m.additionals);
            lemma_split_signed(head, m.additionals, m.edns, m.signature);
            assert forall|i: int| 0 <= i < additional_section(m).len() implies record_encodable(
                #[trigger] additional_section(m)[i],
            ) by {
                if i < m.additionals.len() {
                    assert(additional_section(m)[i] == m.additionals[i]);
                } else if i == m.additionals.len() {
                } else {
                    assert(additional_section(m)[i] == m.signature[i - m.additionals.len() - 1]);
                }
            }
        },
        None => {
            lemma_split_signed(m.additionals, m.additionals, m.edns, m.signature);
            assert forall|i: int| 0 <= i < additional_section(m).len() implies record_encodable(
                #[trigger] additional_section(m)[i],
            ) by {
                if i < m.additionals.len() {
                    assert(additional_section(m)[i] == m.additionals[i]);
                } else {
                    assert(additional_section(m)[i] == m.signature[i - m.additionals.len()]);
                }
            }
        },
    }
}

proof fn lemma_flag_octet(a: int, field: int, c: int, d: int, e: int)
    requires
        0 <= a <= 1,
        0 <= field < 16,
        0 <= c <= 1,
        0 <= d <= 1,
        0 <= e <= 1,
    ensures
        ({
            let f = a * 128 + field * 8 + c * 4 + d * 2 + e;
            &&& 0 <= f < 256
            &&& f / 128 == a
            &&& (f / 8) % 16 == field
            &&& (f / 4) % 2 == c
            &&& (f / 2) % 2 == d
            &&& f % 2 == e
        }),
{
}

proof fn lemma_code_octet(a: int, c: int, d: int, field: int)
    requires
        0 <= a <= 1,
        0 <= c <= 1,
        0 <= d <= 1,
        0 <= field < 16,
    ensures
        ({
            let f = a * 128 + c * 32 + d * 16 + field;
            &&& 0 <= f < 256
            &&& f / 128 == a
            &&& (f / 32) % 2 == c
            &&& (f / 16) % 2 == d
            &&& f % 16 == field
        }),
{
}

proof fn lemma_header_reads_back(b: Seq<u8>, m: MessageView)
    requires
        encodable(m),
        holds_at(b, 0, encode_header(m)),
    ensures
        b.len() >= 12,
        encode_header(m).len() == 12,
        u16_at(b, 0) == m.id,
        u16_at(b, 4) == m.questions.len(),
        u16_at(b, 6) == m.answers.len(),
        u16_at(b, 8) == m.authorities.len(),
        u16_at(b, 10) == additional_section(m).len(),
        b[2] / 128 == bit(m.message_type == MessageType::Response),
        opcode_of((b[2] / 8) % 16) == m.opcode,
        (b[2] / 4) % 2 == bit(m.authoritative),
        (b[2] / 2) % 2 == bit(m.truncated),
        b[2] % 2 == bit(m.recursion_desired),
        b[3] / 128 == bit(m.recursion_available),
        (b[3] / 32) % 2 == bit(m.authentic_data),
        (b[3] / 16) % 2 == bit(m.checking_disabled),
        rcode_of(b[3] % 16) == m.rcode,
{
    let x0 = be(m.id as nat, 2);
    let f2 = (bit(m.message_type == MessageType::Response) * 128 + m.opcode.number() * 8 + bit(
        m.authoritative,
    ) * 4 + bit(m.truncated) * 2 + bit(m.recursion_desired)) as u8;
    let f3 = (bit(m.recursion_available) * 128 + bit(m.authentic_data) * 32 + bit(
        m.checking_disabled,
    ) * 16 + m.rcode.number()) as u8;
    lemma_flag_octet(
        bit(m.message_type == MessageType::Response),
        m.opcode.number() as int,
        bit(m.authoritative),
        bit(m.truncated),
        bit(m.recursion_desired),
    );
    lemma_code_octet(
        bit(m.recursion_available),
        bit(m.authentic_data),
        bit(m.checking_disabled),
        m.rcode.number() as int,
    );
    let x1 = seq![f2, f3];
    let x2 = be(m.questions.len(), 2);
    let x3 = be(m.answers.len(), 2);
    let x4 = be(m.authorities.len(), 2);
    let x5 = be(additional_section(m).len(), 2);
    lemma_be_len(m.id as nat, 2);
    lemma_be_len(m.questions.len(), 2);
    lemma_be_len(m.answers.len(), 2);
    lemma_be_len(m.authorities.len(), 2);
    lemma_be_len(additional_section(m).len(), 2);
    lemma_holds_parts(b, 0, x0 + x1 + x2 + x3 + x4, x5);
    lemma_holds_parts(b, 0, x0 + x1 + x2 + x3, x4);
    lemma_holds_parts(b, 0, x0 + x1 + x2, x3);
    lemma_holds_parts(b, 0, x0 + x1, x2);
    lemma_holds_parts(b, 0, x0, x1);
    lemma_u16_at(b, 0, m.id);
    lemma_u16_at(b, 4, m.questions.len() as u16);
    lemma_u16_at(b, 6, m.answers.len() as u16);
    lemma_u16_at(b, 8, m.authorities.len() as u16);
    lemma_u16_at(b, 10, additional_section(m).len() as u16);
    assert(b.subrange(2, 4)[0] == b[2] && b.subrange(2, 4)[1] == b[3]);
    assert(b[2] == f2 && b[3] == f3);
}

/// Reading back what was written gives the message that was written.
pub proof fn lemma_message_reads_back(m: MessageView)
    requires
        lossless(m),
    ensures
        parse_message(encode_message(m)) == Some(m),
{
    let b = encode_message(m);
    let h = encode_header(m);
    let q = encode_questions(m.questions);
    let an = encode_records(m.answers);
    let au = encode_records(m.authorities);
    let ad = encode_records(additional_section(m));
    assert(b.subrange(0, b.len() as int) =~= b);
    lemma_holds_parts(b, 0, h + q + an + au, ad);
    lemma_holds_parts(b, 0, h + q + an, au);
    lemma_holds_parts(b, 0, h + q, an);
    lemma_holds_parts(b, 0, h, q);
    lemma_header_reads_back(b, m);
    lemma_questions_read_back(b, 12, m.questions);
    lemma_records_read_back(b, (12 + q.len()) as int, m.answers);
    lemma_records_read_back(b, (12 + q.len() + an.len()) as int, m.authorities);
    lemma_additional_reads_back(m);
    lemma_records_read_back(b, (12 + q.len() + an.len() + au.len()) as int, additional_section(m));
}

// ---------------------------------------------------------------------------
// The decoder

proof fn lemma_name_at_run(b: Seq<u8>, pos: int, run: int)
    ensures
        name_at(b, pos, run) matches Some((w, next)) ==> is_label_run(w) && pos < next <= b.len(),
    decreases run, b.len() - pos,
{
    if run < 0 || pos < 0 || pos >= b.len() {
    } else if b[pos] == 0 {
    } else if b[pos] <= 63 {
        if pos + 1 + b[pos] <= b.len() {
            lemma_name_at_run(b, pos + 1 + b[pos], run);
            if let Some((rest, next)) = name_at(b, pos + 1 + b[pos], run) {
                let w = b.subrange(pos, pos + 1 + b[pos]) + rest;
                assert(w[0] == b[pos]);
                assert(w.skip(1 + w[0] as int) =~= rest);
            }
        }
    } else if b[pos] >= 192 && pos + 1 < b.len() && (b[pos] - 192) * 256 + b[pos + 1] < run {
        let target = (b[pos] - 192) * 256 + b[pos + 1];
        lemma_name_at_run(b, target, target);
    }
}

/// `name_at` seen from a later point: `wire` is what was read before it, and
/// `next` the position after the name once a pointer has been followed.
spec fn name_from(
    wire: Seq<u8>,
    next: Option<usize>,
    rest: Option<(Seq<u8>, int)>,
) -> Option<(Seq<u8>, int)> {
    match rest {
        Some((w, end)) => Some(
            (
                wire + w,
                match next {
                    Some(n) => n as int,
                    None => end,
                },
            ),
        ),
        None => None,
    }
}

/// The name at `start` and the position after it.
fn read_name(b: &[u8], start: usize) -> (r: Option<(Name, usize)>)
    ensures
        match r {
            Some((name, next)) => parse_name_at(b@, start as int) == Some((name@, next as int))
                && is_name(name@) && start < next <= b@.len(),
            None => parse_name_at(b@, start as int) is None,
        },
{
    let mut wire: Vec<u8> = Vec::new();
    let mut pos: usize = start;
    let mut run: usize = start;
    let mut next: Option<usize> = None;
    let total: usize = b.len();
    proof {
        if let Some((w, e)) = name_at(b@, start as int, start as int) {
            assert(wire@ + w =~= w);
        }
        lemma_name_at_run(b@, start as int, start as int);
    }
    loop
        invariant
            total == b@.len(),
            wire@.len() <= 254,
            name_at(b@, start as int, start as int) == name_from(
                wire@,
                next,
                name_at(b@, pos as int, run as int),
            ),
            name_at(b@, start as int, start as int) matches Some((w, e)) ==> is_label_run(w)
                && start < e <= b@.len(),
        decreases run, total - pos,
    {
        if pos >= total {
            return None;
        }
        let l: u8 = b[pos];
        if l == 0 {
            let end: usize = match next {
                Some(n) => n,
                None => pos + 1,
            };
            assert(wire@ + Seq::<u8>::empty() =~= wire@);
            return Some((Name::from_wire(wire), end));
        } else if l <= 63 {
            let n: usize = 1 + l as usize;
            if total - pos < n {
                return None;
            }
            let mut label = slice_bytes(b, pos, pos + n);
            let ghost before = wire@;
            let ghost lab = label@;
            if wire.len() + n > MAX_NAME_LEN - 1 {
                return None;
            }
            wire.append(&mut label);
            proof {
                if let Some((w, e)) = name_at(b@, pos + n, run as int) {
                    assert(before + (lab + w) =~= wire@ + w);
                }
            }
            pos = pos + n;
        } else if l >= 192 {
            if total - pos < 2 {
                return None;
            }
            let target: usize = (l as usize - 192) * 256 + b[pos + 1] as usize;
            if target >= run {
                return None;
            }
            if next.is_none() {
                next = Some(pos + 2);
            }
            pos = target;
            run = target;
        } else {
            return None;
        }
    }
}

fn read_u16(b: &[u8], pos: usize) -> (r: u16)
    requires
        pos + 2 <= b@.len(),
    ensures
        r == u16_at(b@, pos as int),
{
    proof {
        lemma_pow256_values();
    }
    read_be(b, pos, 2) as u16
}

fn read_u32(b: &[u8], pos: usize) -> (r: u32)
    requires
        pos + 4 <= b@.len(),
    ensures
        r == u32_at(b@, pos as int),
{
    proof {
        lemma_pow256_values();
    }
    read_be(b, pos, 4) as u32
}

fn read_question(b: &[u8], pos: usize) -> (r: Option<(Question, usize)>)
    ensures
        match r {
            Some((q, next)) => parse_question(b@, pos as int) == Some((q@, next as int)),
            None => parse_question(b@, pos as int) is None,
        },
{
    match read_name(b, pos) {
        None => None,
        Some((name, p)) => {
            if b.len() - p < 4 {
                return None;
            }
            let qtype = RecordType::from_u16(read_u16(b, p));
            let qclass = DNSClass::from_u16(read_u16(b, p + 2));
            Some((Question { name, qtype, qclass }, p + 4))
        },
    }
}

proof fn lemma_questions_fail(b: Seq<u8>, pos: int, k: nat, n: nat)
    requires
        k <= n,
        parse_questions(b, pos, k) is None,
    ensures
        parse_questions(b, pos, n) is None,
    decreases n,
{
    if k < n {
        lemma_questions_fail(b, pos, k, (n - 1) as nat);
    }
}

fn read_questions(b: &[u8], pos: usize, n: u16) -> (r: Option<(Vec<Question>, usize)>)
    ensures
        match r {
            Some((qs, next)) => parse_questions(b@, pos as int, n as nat) == Some(
                (question_views(qs@), next as int),
            ),
            None => parse_questions(b@, pos as int, n as nat) is None,
        },
{
    let mut out: Vec<Question> = Vec::new();
    let mut p: usize = pos;
    let mut i: u16 = 0;
    assert(question_views(out@) =~= Seq::empty());
    while i < n
        invariant
            i <= n,
            parse_questions(b@, pos as int, i as nat) == Some((question_views(out@), p as int)),
        decreases n - i,
    {
        match read_question(b, p) {
            None => {
                proof {
                    lemma_questions_fail(b@, pos as int, (i + 1) as nat, n as nat);
                }
                return None;
            },
            Some((q, next)) => {
                let ghost before = question_views(out@);
                let ghost v = q@;
                out.push(q);
                p = next;
                assert(question_views(out@) =~= before.push(v));
            },
        }
        i = i + 1;
    }
    Some((out, p))
}

fn read_rdata(b: &[u8], pos: usize, end: usize, rtype: RecordType) -> (r: Option<RData>)
    requires
        pos <= end <= b@.len(),
    ensures
        match r {
            Some(d) => parse_rdata(b@, pos as int, end as int, rtype) == Some(d@),
            None => parse_rdata(b@, pos as int, end as int, rtype) is None,
        },
{
    match rtype {
        RecordType::A => {
            if end - pos != 4 {
                return None;
            }
            Some(RData::A(read_u32(b, pos)))
        },
        RecordType::AAAA => {
            if end - pos != 16 {
                return None;
            }
            Some(RData::AAAA(read_be(b, pos, 16)))
        },
        RecordType::CNAME => match read_name(b, pos) {
            Some((name, next)) if next == end => Some(RData::CNAME(name)),
            _ => None,
        },
        RecordType::SOA => match read_name(b, pos) {
            None => None,
            Some((mname, p)) => match read_name(b, p) {
                None => None,
                Some((rname, q)) => {
                    if q > end || end - q != 20 {
                        return None;
                    }
                    let s = Soa {
                        mname,
                        rname,
                        serial: read_u32(b, q),
                        refresh: read_u32(b, q + 4),
                        retry: read_u32(b, q + 8),
                        expire: read_u32(b, q + 12),
                        minimum: read_u32(b, q + 16),
                    };
                    Some(RData::SOA(s))
                },
            },
        },
        _ => Some(RData::Other(rtype, slice_bytes(b, pos, end))),
    }
}

fn read_record(b: &[u8], pos: usize) -> (r: Option<(Record, usize)>)
    ensures
        match r {
            Some((rec, next)) => parse_record(b@, pos as int) == Some((rec@, next as int)),
            None => parse_record(b@, pos as int) is None,
        },
{
    match read_name(b, pos) {
        None => None,
        Some((name, p)) => {
            if b.len() - p < 10 {
                return None;
            }
            let rtype = RecordType::from_u16(read_u16(b, p));
            let class = DNSClass::from_u16(read_u16(b, p + 2));
            let ttl: u32 = read_u32(b, p + 4);
            let len: usize = read_u16(b, p + 8) as usize;
            if b.len() - p - 10 < len {
                return None;
            }
            let end: usize = p + 10 + len;
            match read_rdata(b, p + 10, end, rtype) {
                None => None,
                Some(data) => Some((Record { name, class, ttl, data }, end)),
            }
        },
    }
}

proof fn lemma_records_fail(b: Seq<u8>, pos: int, k: nat, n: nat)
    requires
        k <= n,
        parse_records(b, pos, k) is None,
    ensures
        parse_records(b, pos, n) is None,
    decreases n,
{
    if k < n {
        lemma_records_fail(b, pos, k, (n - 1) as nat);
    }
}

fn read_records(b: &[u8], pos: usize, n: u16) -> (r: Option<(Vec<Record>, usize)>)
    ensures
        match r {
            Some((rs, next)) => parse_records(b@, pos as int, n as nat) == Some(
                (record_views(rs@), next as int),
            ),
            None => parse_records(b@, pos as int, n as nat) is None,
        },
{
    let mut out: Vec<Record> = Vec::new();
    let mut p: usize = pos;
    let mut i: u16 = 0;
    assert(record_views(out@) =~= Seq::empty());
    while i < n
        invariant
            i <= n,
            parse_records(b@, pos as int, i as nat) == Some((record_views(out@), p as int)),
        decreases n - i,
    {
        match read_record(b, p) {
            None => {
                proof {
                    lemma_records_fail(b@, pos as int, (i + 1) as nat, n as nat);
                }
                return None;
            },
            Some((r, next)) => {
                let ghost before = record_views(out@);
                let ghost v = r@;
                out.push(r);
                p = next;
                assert(record_views(out@) =~= before.push(v));
            },
        }
        i = i + 1;
    }
    Some((out, p))
}

/// The number that `d[4..]`, padded with zero octets to `n`, spells.
fn read_padded(d: &[u8], n: usize) -> (r: u128)
    requires
        4 <= d@.len() <= 4 + n,
        n <= 16,
    ensures
        r == be_value(d@.skip(4) + zeros((n - (d@.len() - 4)) as nat)),
        r < pow256(n as nat),
{
    let mut padded = slice_bytes(d, 4, d.len());
    assert(padded@ =~= d@.skip(4));
    while padded.len() < n
        invariant
            d@.len() - 4 <= padded@.len() <= n,
            d@.len() >= 4,
            padded@ == d@.skip(4) + zeros((padded@.len() - (d@.len() - 4)) as nat),
        decreases n - padded@.len(),
    {
        let ghost before = padded@;
        padded.push(0u8);
        assert(padded@ =~= d@.skip(4) + zeros((padded@.len() - (d@.len() - 4)) as nat));
    }
    assert(padded@.subrange(0, n as int) =~= padded@);
    read_be(padded.as_slice(), 0, n)
}

fn read_subnet(d: &[u8]) -> (r: Option<ClientSubnet>)
    ensures
        r == parse_subnet(d@),
{
    if d.len() < 4 {
        return None;
    }
    let family: u16 = read_u16(d, 0);
    let source: u8 = d[2];
    let octets: usize = (source as usize + 7) / 8;
    proof {
        lemma_pow256_values();
    }
    if d.len() - 4 != octets {
        return None;
    }
    if family == 1 && source <= 32 {
        let v: u128 = read_padded(d, 4);
        Some(ClientSubnet { addr: IpAddr::V4(v as u32), source_prefix: source, scope_prefix: d[3] })
    } else if family == 2 && source <= 128 {
        let v: u128 = read_padded(d, 16);
        Some(ClientSubnet { addr: IpAddr::V6(v), source_prefix: source, scope_prefix: d[3] })
    } else {
        None
    }
}

/// `done` followed by the options still to be read.
spec fn options_from(
    done: Seq<EdnsOptionView>,
    rest: Option<Seq<EdnsOptionView>>,
) -> Option<Seq<EdnsOptionView>> {
    match rest {
        Some(r) => Some(done + r),
        None => None,
    }
}

fn read_options(d: &[u8]) -> (r: Option<Vec<EdnsOption>>)
    ensures
        match r {
            Some(os) => parse_options(d@, 0) == Some(option_views(os@)),
            None => parse_options(d@, 0) is None,
        },
{
    let mut out: Vec<EdnsOption> = Vec::new();
    let mut pos: usize = 0;
    proof {
        if let Some(r) = parse_options(d@, 0) {
            assert(option_views(out@) + r =~= r);
        }
    }
    while pos < d.len()
        invariant
            pos <= d@.len(),
            parse_options(d@, 0) == options_from(option_views(out@), parse_options(d@, pos as int)),
        decreases d@.len() - pos,
    {
        if d.len() - pos < 4 {
            return None;
        }
        let code: u16 = read_u16(d, pos);
        let len: usize = read_u16(d, pos + 2) as usize;
        if d.len() - pos - 4 < len {
            return None;
        }
        let end: usize = pos + 4 + len;
        let payload = slice_bytes(d, pos + 4, end);
        let o = if code == 8 {
            match read_subnet(payload.as_slice()) {
                Some(s) => EdnsOption::Subnet(s),
                None => {
                    return None;
                },
            }
        } else {
            EdnsOption::Other(code, payload)
        };
        let ghost before = option_views(out@);
        let ghost v = o@;
        out.push(o);
        proof {
            assert(option_views(out@) =~= before.push(v));
            if let Some(rest) = parse_options(d@, end as int) {
                assert(before + (seq![v] + rest) =~= option_views(out@) + rest);
            }
        }
        pos = end;
    }
    assert(option_views(out@) + Seq::<EdnsOptionView>::empty() =~= option_views(out@));
    Some(out)
}

fn read_edns(rec: &Record) -> (r: Option<Edns>)
    ensures
        match r {
            Some(e) => edns_of_record(rec@) == Some(e@),
            None => edns_of_record(rec@) is None,
        },
{
    match &rec.data {
        RData::Other(_, d) => match read_options(d.as_slice()) {
            None => None,
            Some(options) => Some(
                Edns {
                    udp_payload_size: rec.class.to_u16(),
                    ext_rcode: (rec.ttl / 0x100_0000) as u8,
                    version: ((rec.ttl / 0x1_0000) % 0x100) as u8,
                    dnssec_ok: (rec.ttl / 0x8000) % 2 == 1,
                    z: (rec.ttl % 0x8000) as u16,
                    options,
                },
            ),
        },
        _ => None,
    }
}

proof fn lemma_split_fail(rs: Seq<RecordView>, k: int)
    requires
        0 <= k <= rs.len(),
        split_additional(rs.take(k)) is None,
    ensures
        split_additional(rs) is None,
    decreases rs.len() - k,
{
    if k < rs.len() {
        assert(rs.take(k + 1).drop_last() =~= rs.take(k));
        lemma_split_fail(rs, k + 1);
    } else {
        assert(rs.take(k) =~= rs);
    }
}

fn read_additional(rs: &Vec<Record>) -> (r: Option<(Vec<Record>, Option<Edns>, Vec<Record>)>)
    ensures
        match r {
            Some((plain, edns, sigs)) => split_additional(record_views(rs@)) == Some(
                (
                    record_views(plain@),
                    crate::proto::message::edns_view(edns),
                    record_views(sigs@),
                ),
            ),
            None => split_additional(record_views(rs@)) is None,
        },
{
    let ghost all = record_views(rs@);
    let mut plain: Vec<Record> = Vec::new();
    let mut edns: Option<Edns> = None;
    let mut sigs: Vec<Record> = Vec::new();
    let mut i: usize = 0;
    proof {
        assert(all.take(0) =~= Seq::empty());
        assert(record_views(plain@) =~= Seq::empty());
        assert(record_views(sigs@) =~= Seq::empty());
    }
    while i < rs.len()
        invariant
            i <= rs@.len(),
            all == record_views(rs@),
            split_additional(all.take(i as int)) == Some(
                (
                    record_views(plain@),
                    crate::proto::message::edns_view(edns),
                    record_views(sigs@),
                ),
            ),
        decreases rs@.len() - i,
    {
        let ghost next = all.take(i + 1);
        let ghost p0 = record_views(plain@);
        let ghost s0 = record_views(sigs@);
        proof {
            assert(next.drop_last() =~= all.take(i as int));
            assert(next.last() == rs@[i as int]@);
        }
        let rtype = rs[i].data.rtype();
        match rtype {
            RecordType::OPT => {
                if edns.is_some() {
                    proof {
                        lemma_split_fail(all, i + 1);
                    }
                    return None;
                }
                match read_edns(&rs[i]) {
                    None => {
                        proof {
                            lemma_split_fail(all, i + 1);
                        }
                        return None;
                    },
                    Some(e) => {
                        edns = Some(e);
                    },
                }
            },
            RecordType::TSIG => {
                sigs.push(rs[i].copy());
                assert(record_views(sigs@) =~= s0.push(rs@[i as int]@));
            },
            _ => {
                plain.push(rs[i].copy());
                assert(record_views(plain@) =~= p0.push(rs@[i as int]@));
            },
        }
        i = i + 1;
    }
    assert(all.take(i as int) =~= all);
    Some((plain, edns, sigs))
}

impl Message {
    /// Reads a message from its wire form.
    pub fn from_bytes(b: &[u8]) -> (r: Result<Message, WireError>)
        ensures
            match r {
                Ok(m) => parse_message(b@) == Some(m@),
                Err(e) => parse_message(b@) is None && e == WireError::Malformed,
            },
    {
        if b.len() < 12 {
            return Err(WireError::Malformed);
        }
        let (questions, p1) = match read_questions(b, 12, read_u16(b, 4)) {
            Some(x) => x,
            None => {
                return Err(WireError::Malformed);
            },
        };
        let (answers, p2) = match read_records(b, p1, read_u16(b, 6)) {
            Some(x) => x,
            None => {
                return Err(WireError::Malformed);
            },
        };
        let (authorities, p3) = match read_records(b, p2, read_u16(b, 8)) {
            Some(x) => x,
            None => {
                return Err(WireError::Malformed);
            },
        };
        let (extra, p4) = match read_records(b, p3, read_u16(b, 10)) {
            Some(x) => x,
            None => {
                return Err(WireError::Malformed);
            },
        };
        if p4 != b.len() {
            return Err(WireError::Malformed);
        }
        match read_additional(&extra) {
            None => Err(WireError::Malformed),
            Some((additionals, edns, signature)) => {
                let f2: u8 = b[2];
                let f3: u8 = b[3];
                Ok(
                    Message {
                        id: read_u16(b, 0),
                        message_type: if f2 / 128 == 1 {
                            MessageType::Response
                        } else {
                            MessageType::Query
                        },
                        opcode: Opcode::from_u8((f2 / 8) % 16),
                        authoritative: (f2 / 4) % 2 == 1,
                        truncated: (f2 / 2) % 2 == 1,
                        recursion_desired: f2 % 2 == 1,
                        recursion_available: f3 / 128 == 1,
                        authentic_data: (f3 / 32) % 2 == 1,
                        checking_disabled: (f3 / 16) % 2 == 1,
                        rcode: Rcode::from_u8(f3 % 16),
                        questions,
                        answers,
                        authorities,
                        additionals,
                        edns,
                        signature,
                    },
                )
            },
        }
    }
}

// ---------------------------------------------------------------------------
// The encoder

/// Whether `w` is the wire form of a name.
pub fn check_name(w: &[u8]) -> (r: bool)
    ensures
        r == is_name(w@),
{
    if w.len() > MAX_NAME_LEN - 1 {
        return false;
    }
    let mut i: usize = 0;
    assert(w@.skip(0) =~= w@);
    while i < w.len()
        invariant
            i <= w@.len() <= 254,
            is_label_run(w@) == is_label_run(w@.skip(i as int)),
        decreases w@.len() - i,
    {
        let l: usize = w[i] as usize;
        assert(w@.skip(i as int)[0] == w@[i as int]);
        if l < 1 || l > 63 || w.len() - i < 1 + l {
            return false;
        }
        assert(w@.skip(i as int).skip(1 + l as int) =~= w@.skip(i + 1 + l));
        i = i + 1 + l;
    }
    true
}

fn check_type(t: RecordType) -> (r: bool)
    ensures
        r == t.canonical(),
{
    RecordType::from_u16(t.to_u16()) == t
}

fn check_class(c: DNSClass) -> (r: bool)
    ensures
        r == c.canonical(),
{
    DNSClass::from_u16(c.to_u16()) == c
}

fn check_questions(v: &Vec<Question>) -> (r: bool)
    ensures
        r == questions_encodable(question_views(v@)),
{
    let mut i: usize = 0;
    while i < v.len()
        invariant
            i <= v@.len(),
            forall|k: int| 0 <= k < i ==> question_encodable(#[trigger] question_views(v@)[k]),
        decreases v@.len() - i,
    {
        if !(check_name(v[i].name.octets()) && check_type(v[i].qtype) && check_class(
            v[i].qclass,
        )) {
            assert(!question_encodable(question_views(v@)[i as int]));
            return false;
        }
        i = i + 1;
    }
    true
}

fn check_record(rec: &Record) -> (r: bool)
    ensures
        r == record_encodable(rec@),
{
    if !check_name(rec.name.octets()) || !check_class(rec.class) {
        return false;
    }
    match &rec.data {
        RData::A(_) => true,
        RData::AAAA(_) => true,
        RData::CNAME(n) => check_name(n.octets()),
        RData::SOA(s) => check_name(s.mname.octets()) && check_name(s.rname.octets()),
        RData::Other(t, d) => {
            let structured = match t {
                RecordType::A | RecordType::AAAA | RecordType::CNAME | RecordType::SOA => true,
                _ => false,
            };
            check_type(*t) && !structured && d.len() <= 0xFFFF
        },
    }
}

fn check_records(v: &Vec<Record>) -> (r: bool)
    ensures
        r == records_encodable(record_views(v@)),
{
    let mut i: usize = 0;
    while i < v.len()
        invariant
            i <= v@.len(),
            forall|k: int| 0 <= k < i ==> record_encodable(#[trigger] record_views(v@)[k]),
        decreases v@.len() - i,
    {
        if !check_record(&v[i]) {
            assert(!record_encodable(record_views(v@)[i as int]));
            return false;
        }
        i = i + 1;
    }
    true
}

/// Whether no record of `v` belongs to the EDNS part or the signatures.
fn check_plain(v: &Vec<Record>) -> (r: bool)
    ensures
        r == records_plain(record_views(v@)),
{
    let mut i: usize = 0;
    while i < v.len()
        invariant
            i <= v@.len(),
            forall|k: int|
                0 <= k < i ==> (#[trigger] record_views(v@)[k]).data.rtype() != RecordType::OPT
                    && record_views(v@)[k].data.rtype() != RecordType::TSIG,
        decreases v@.len() - i,
    {
        let t = v[i].data.rtype();
        if t == RecordType::OPT || t == RecordType::TSIG {
            assert(record_views(v@)[i as int].data.rtype() == t);
            return false;
        }
        i = i + 1;
    }
    true
}

fn check_signature(v: &Vec<Record>) -> (r: bool)
    ensures
        r == records_signing(record_views(v@)),
{
    let mut i: usize = 0;
    while i < v.len()
        invariant
            i <= v@.len(),
            forall|k: int|
                0 <= k < i ==> (#[trigger] record_views(v@)[k]).data.rtype() == RecordType::TSIG,
        decreases v@.len() - i,
    {
        let t = v[i].data.rtype();
        if t != RecordType::TSIG {
            assert(record_views(v@)[i as int].data.rtype() == t);
            return false;
        }
        i = i + 1;
    }
    true
}

fn push_all(out: &mut Vec<u8>, s: &[u8])
    ensures
        final(out)@ == old(out)@ + s@,
{
    let mut copy = crate::bytes::copy_bytes(s);
    let ghost before = out@;
    out.append(&mut copy);
    assert(out@ =~= before + s@);
}

fn push_name(out: &mut Vec<u8>, n: &Name)
    ensures
        final(out)@ == old(out)@ + encode_name(n@),
{
    let ghost before = out@;
    push_all(out, n.octets());
    out.push(0u8);
    assert(out@ =~= before + encode_name(n@));
}

fn push_questions(out: &mut Vec<u8>, v: &Vec<Question>)
    ensures
        final(out)@ == old(out)@ + encode_questions(question_views(v@)),
{
    let ghost before = out@;
    let ghost all = question_views(v@);
    let mut i: usize = 0;
    assert(all.take(0) =~= Seq::empty());
    assert(out@ =~= before + encode_questions(all.take(0)));
    while i < v.len()
        invariant
            i <= v@.len(),
            all == question_views(v@),
            out@ == before + encode_questions(all.take(i as int)),
        decreases v@.len() - i,
    {
        push_name(out, &v[i].name);
        push_be(out, v[i].qtype.to_u16() as u128, 2);
        push_be(out, v[i].qclass.to_u16() as u128, 2);
        i = i + 1;
        proof {
            assert(all.take(i as int).drop_last() =~= all.take(i - 1));
            assert(all.take(i as int).last() == all[i - 1]);
            assert(out@ =~= before + encode_questions(all.take(i as int)));
        }
    }
    assert(all.take(i as int) =~= all);
}

fn rdata_bytes(d: &RData) -> (r: Vec<u8>)
    ensures
        r@ == encode_rdata(d@),
{
    let mut out: Vec<u8> = Vec::new();
    let ghost none = Seq::<u8>::empty();
    assert(out@ =~= none);
    match d {
        RData::A(a) => {
            push_be(&mut out, *a as u128, 4);
        },
        RData::AAAA(a) => {
            push_be(&mut out, *a, 16);
        },
        RData::CNAME(n) => {
            push_name(&mut out, n);
        },
        RData::SOA(s) => {
            push_name(&mut out, &s.mname);
            push_name(&mut out, &s.rname);
            push_be(&mut out, s.serial as u128, 4);
            push_be(&mut out, s.refresh as u128, 4);
            push_be(&mut out, s.retry as u128, 4);
            push_be(&mut out, s.expire as u128, 4);
            push_be(&mut out, s.minimum as u128, 4);
        },
        RData::Other(_, b) => {
            push_all(&mut out, b.as_slice());
        },
    }
    assert(out@ =~= encode_rdata(d@));
    out
}

fn push_record(out: &mut Vec<u8>, rec: &Record)
    ensures
        final(out)@ == old(out)@ + encode_record(rec@),
{
    let ghost before = out@;
    push_name(out, &rec.name);
    push_be(out, rec.data.rtype().to_u16() as u128, 2);
    push_be(out, rec.class.to_u16() as u128, 2);
    push_be(out, rec.ttl as u128, 4);
    let d = rdata_bytes(&rec.data);
    push_be(out, d.len() as u128, 2);
    push_all(out, d.as_slice());
    assert(out@ =~= before + encode_record(rec@));
}

fn push_records(out: &mut Vec<u8>, v: &Vec<Record>)
    ensures
        final(out)@ == old(out)@ + encode_records(record_views(v@)),
{
    let ghost before = out@;
    let ghost all = record_views(v@);
    let mut i: usize = 0;
    assert(all.take(0) =~= Seq::empty());
    assert(out@ =~= before + encode_records(all.take(0)));
    while i < v.len()
        invariant
            i <= v@.len(),
            all == record_views(v@),
            out@ == before + encode_records(all.take(i as int)),
        decreases v@.len() - i,
    {
        push_record(out, &v[i]);
        i = i + 1;
        proof {
            assert(all.take(i as int).drop_last() =~= all.take(i - 1));
            assert(all.take(i as int).last() == all[i - 1]);
            assert(out@ =~= before + encode_records(all.take(i as int)));
        }
    }
    assert(all.take(i as int) =~= all);
}

/// The octets of an address.
pub fn octets_of(a: &IpAddr) -> (r: Vec<u8>)
    ensures
        r@ == addr_octets(*a),
        r@.len() * 8 == addr_bits(*a),
{
    let mut out: Vec<u8> = Vec::new();
    match a {
        IpAddr::V4(v) => {
            push_be(&mut out, *v as u128, 4);
            proof {
                lemma_be_len(*v as nat, 4);
            }
        },
        IpAddr::V6(v) => {
            push_be(&mut out, *v, 16);
            proof {
                lemma_be_len(*v as nat, 16);
            }
        },
    }
    assert(out@ =~= addr_octets(*a));
    out
}

fn payload_bytes(o: &EdnsOption) -> (r: Vec<u8>)
    ensures
        r@ == option_payload(o@),
{
    let mut out: Vec<u8> = Vec::new();
    match o {
        EdnsOption::Subnet(s) => {
            let octets = octets_of(&s.addr);
            let family: u128 = match s.addr {
                IpAddr::V4(_) => 1,
                IpAddr::V6(_) => 2,
            };
            push_be(&mut out, family, 2);
            out.push(s.source_prefix);
            out.push(s.scope_prefix);
            let cut = truncate_bits(octets.as_slice(), s.source_prefix);
            push_all(&mut out, cut.as_slice());
        },
        EdnsOption::Other(_, d) => {
            push_all(&mut out, d.as_slice());
        },
    }
    assert(out@ =~= option_payload(o@));
    out
}

proof fn lemma_encode_options_snoc(os: Seq<EdnsOptionView>, o: EdnsOptionView)
    ensures
        encode_options(os.push(o)) == encode_options(os) + encode_option(o),
    decreases os.len(),
{
    if os.len() == 0 {
        let tail = os.push(o).skip(1);
        assert(tail.len() == 0);
        assert(encode_options(tail) =~= Seq::empty());
        assert(os.push(o)[0] == o);
        assert(encode_options(os.push(o)) =~= encode_options(os) + encode_option(o));
    } else {
        lemma_encode_options_snoc(os.skip(1), o);
        assert(os.push(o).skip(1) =~= os.skip(1).push(o));
        assert(os.push(o)[0] == os[0]);
        assert(encode_options(os.push(o)) =~= encode_options(os) + encode_option(o));
    }
}

/// The payload of the OPT record, when every option fits.
fn options_bytes(v: &Vec<EdnsOption>) -> (r: Option<Vec<u8>>)
    ensures
        match r {
            Some(b) => b@ == encode_options(option_views(v@)) && forall|i: int|
                0 <= i < option_views(v@).len() ==> option_encodable(#[trigger] option_views(v@)[i]),
            None => exists|i: int|
                0 <= i < option_views(v@).len() && !option_encodable(#[trigger] option_views(v@)[i]),
        },
{
    let mut out: Vec<u8> = Vec::new();
    let ghost all = option_views(v@);
    let mut i: usize = 0;
    assert(all.take(0) =~= Seq::empty());
    assert(out@ =~= encode_options(all.take(0)));
    while i < v.len()
        invariant
            i <= v@.len(),
            all == option_views(v@),
            out@ == encode_options(all.take(i as int)),
            forall|k: int| 0 <= k < i ==> option_encodable(#[trigger] all[k]),
        decreases v@.len() - i,
    {
        let ghost before = out@;
        let (ok, code): (bool, u16) = match &v[i] {
            EdnsOption::Subnet(s) => {
                let max: u8 = match s.addr {
                    IpAddr::V4(_) => 32,
                    IpAddr::V6(_) => 128,
                };
                (s.source_prefix <= max, 8)
            },
            EdnsOption::Other(code, d) => (*code != 8 && d.len() <= 0xFFFF, *code),
        };
        if !ok {
            assert(!option_encodable(all[i as int]));
            return None;
        }
        let payload = payload_bytes(&v[i]);
        push_be(&mut out, code as u128, 2);
        push_be(&mut out, payload.len() as u128, 2);
        push_all(&mut out, payload.as_slice());
        proof {
            assert(out@ =~= before + encode_option(all[i as int]));
            lemma_encode_options_snoc(all.take(i as int), all[i as int]);
            assert(all.take(i + 1) =~= all.take(i as int).push(all[i as int]));
        }
        i = i + 1;
    }
    assert(all.take(i as int) =~= all);
    Some(out)
}

/// The OPT record of an EDNS part that fits the wire.
fn edns_record(e: &Edns) -> (r: Option<Record>)
    ensures
        match r {
            Some(rec) => edns_encodable(e@) && rec@ == record_of_edns(e@),
            None => !edns_encodable(e@),
        },
{
    if e.z >= 0x8000 {
        return None;
    }
    match options_bytes(&e.options) {
        None => None,
        Some(b) => {
            if b.len() > 0xFFFF {
                return None;
            }
            let flag: u32 = if e.dnssec_ok {
                0x8000
            } else {
                0
            };
            let ttl: u32 = (e.ext_rcode as u32) * 0x100_0000 + (e.version as u32) * 0x1_0000 + flag
                + (e.z as u32);
            Some(
                Record {
                    name: Name::root(),
                    class: DNSClass::from_u16(e.udp_payload_size),
                    ttl,
                    data: RData::Other(RecordType::OPT, b),
                },
            )
        },
    }
}

fn flag(b: bool) -> (r: u8)
    ensures
        r == bit(b),
{
    if b {
        1
    } else {
        0
    }
}

proof fn lemma_encode_records_concat(a: Seq<RecordView>, b: Seq<RecordView>)
    ensures
        encode_records(a + b) == encode_records(a) + encode_records(b),
    decreases b.len(),
{
    if b.len() == 0 {
        assert(a + b =~= a);
        assert(encode_records(a) + encode_records(b) =~= encode_records(a));
    } else {
        lemma_encode_records_concat(a, b.drop_last());
        assert((a + b).drop_last() =~= a + b.drop_last());
        assert(encode_records(a + b) =~= encode_records(a) + encode_records(b));
    }
}

/// Whether every question and record of a message fits the wire.
spec fn sections_encodable(m: MessageView) -> bool {
    &&& questions_encodable(m.questions)
    &&& records_encodable(m.answers)
    &&& records_encodable(m.authorities)
    &&& records_encodable(m.additionals)
    &&& records_plain(m.additionals)
    &&& records_encodable(m.signature)
    &&& records_signing(m.signature)
}

impl Message {
    fn check_sections(&self) -> (r: bool)
        ensures
            r == sections_encodable(self@),
    {
        let a = check_questions(&self.questions);
        let b = check_records(&self.answers);
        let c = check_records(&self.authorities);
        let d = check_records(&self.additionals);
        let e = check_plain(&self.additionals);
        let f = check_records(&self.signature);
        let g = check_signature(&self.signature);
        a && b && c && d && e && f && g
    }

    fn header_bytes(&self, extra: u128) -> (r: Vec<u8>)
        requires
            extra == additional_section(self@).len(),
            self.opcode.canonical(),
            self.rcode.canonical(),
        ensures
            r@ == encode_header(self@),
    {
        let op: u8 = self.opcode.to_u8();
        let rc: u8 = self.rcode.to_u8();
        let qr: u8 = match self.message_type {
            MessageType::Response => 1,
            MessageType::Query => 0,
        };
        let f2: u8 = qr * 128 + op * 8 + flag(self.authoritative) * 4 + flag(self.truncated) * 2
            + flag(self.recursion_desired);
        let f3: u8 = flag(self.recursion_available) * 128 + flag(self.authentic_data) * 32 + flag(
            self.checking_disabled,
        ) * 16 + rc;
        let mut out: Vec<u8> = Vec::new();
        push_be(&mut out, self.id as u128, 2);
        out.push(f2);
        out.push(f3);
        push_be(&mut out, self.questions.len() as u128, 2);
        push_be(&mut out, self.answers.len() as u128, 2);
        push_be(&mut out, self.authorities.len() as u128, 2);
        push_be(&mut out, extra, 2);
        assert(out@ =~= encode_header(self@));
        out
    }

    fn push_additional(&self, out: &mut Vec<u8>, edns_rec: &Option<Record>)
        requires
            match (self@.edns, *edns_rec) {
                (None, None) => true,
                (Some(e), Some(rec)) => rec@ == record_of_edns(e),
                _ => false,
            },
        ensures
            final(out)@ == old(out)@ + encode_records(additional_section(self@)),
    {
        let ghost head = out@;
        push_records(out, &self.additionals);
        if let Some(rec) = edns_rec {
            push_record(out, rec);
        }
        push_records(out, &self.signature);
        proof {
            let plain = self@.additionals;
            let sig = self@.signature;
            match self@.edns {
                Some(e) => {
                    let with = plain.push(record_of_edns(e));
                    assert(with.drop_last() =~= plain);
                    lemma_encode_records_concat(with, sig);
                    assert(out@ =~= head + encode_records(with + sig));
                },
                None => {
                    lemma_encode_records_concat(plain, sig);
                    assert(out@ =~= head + encode_records(plain + sig));
                },
            }
        }
    }

    /// The wire form of the message.
    pub fn to_bytes(&self) -> (r: Result<Vec<u8>, WireError>)
        ensures
            match r {
                Ok(b) => encodable(self@) && b@ == encode_message(self@),
                Err(e) => !encodable(self@) && e == WireError::NotEncodable,
            },
    {
        let op: u8 = self.opcode.to_u8();
        let rc: u8 = self.rcode.to_u8();
        if op >= 16 || Opcode::from_u8(op) != self.opcode || rc >= 16 || Rcode::from_u8(rc)
            != self.rcode {
            return Err(WireError::NotEncodable);
        }
        let edns_rec = match &self.edns {
            None => None,
            Some(e) => match edns_record(e) {
                None => {
                    return Err(WireError::NotEncodable);
                },
                Some(rec) => Some(rec),
            },
        };
        let extra: u128 = self.additionals.len() as u128 + self.signature.len() as u128 + (
        if edns_rec.is_some() {
            1
        } else {
            0
        });
        assert(extra == additional_section(self@).len());
        if self.questions.len() > 0xFFFF || self.answers.len() > 0xFFFF || self.authorities.len()
            > 0xFFFF || extra > 0xFFFF {
            return Err(WireError::NotEncodable);
        }
        if !self.check_sections() {
            return Err(WireError::NotEncodable);
        }
        let mut out = self.header_bytes(extra);
        push_questions(&mut out, &self.questions);
        push_records(&mut out, &self.answers);
        push_records(&mut out, &self.authorities);
        self.push_additional(&mut out, &edns_rec);
        Ok(out)
    }
}

} // verus!
