//! DNS messages as plain values.

use vstd::prelude::*;

use crate::bytes::copy_bytes;
use crate::proto::name::Name;

verus! {

/// A resource record type.
#[derive(Debug, Clone, Copy, PartialEq, Eq, Hash, Structural)]
pub enum RecordType {
    A,
    NS,
    CNAME,
    SOA,
    PTR,
    MX,
    TXT,
    AAAA,
    SRV,
    OPT,
    SVCB,
    HTTPS,
    TSIG,
    ANY,
    Unknown(u16),
}

/// The type that a number on the wire stands for.
pub open spec fn record_type_of(v: u16) -> RecordType {
    if v == 1 {
        RecordType::A
    } else if v == 2 {
        RecordType::NS
    } else if v == 5 {
        RecordType::CNAME
    } else if v == 6 {
        RecordType::SOA
    } else if v == 12 {
        RecordType::PTR
    } else if v == 15 {
        RecordType::MX
    } else if v == 16 {
        RecordType::TXT
    } else if v == 28 {
        RecordType::AAAA
    } else if v == 33 {
        RecordType::SRV
    } else if v == 41 {
        RecordType::OPT
    } else if v == 64 {
        RecordType::SVCB
    } else if v == 65 {
        RecordType::HTTPS
    } else if v == 250 {
        RecordType::TSIG
    } else if v == 255 {
        RecordType::ANY
    } else {
        RecordType::Unknown(v)
    }
}

impl RecordType {
    /// The number of the type on the wire.
    pub open spec fn number(self) -> u16 {
        match self {
            RecordType::A => 1,
            RecordType::NS => 2,
            RecordType::CNAME => 5,
            RecordType::SOA => 6,
            RecordType::PTR => 12,
            RecordType::MX => 15,
            RecordType::TXT => 16,
            RecordType::AAAA => 28,
            RecordType::SRV => 33,
            RecordType::OPT => 41,
            RecordType::SVCB => 64,
            RecordType::HTTPS => 65,
            RecordType::TSIG => 250,
            RecordType::ANY => 255,
            RecordType::Unknown(v) => v,
        }
    }

    /// Whether this is the value that its number stands for.
    pub open spec fn canonical(self) -> bool {
        record_type_of(self.number()) == self
    }

    /// What a number stands for.
    pub fn from_u16(v: u16) -> (r: RecordType)
        ensures
            r == record_type_of(v),
            r.canonical(),
            r.number() == v,
    {
        match v {
            1 => RecordType::A,
            2 => RecordType::NS,
            5 => RecordType::CNAME,
            6 => RecordType::SOA,
            12 => RecordType::PTR,
            15 => RecordType::MX,
            16 => RecordType::TXT,
            28 => RecordType::AAAA,
            33 => RecordType::SRV,
            41 => RecordType::OPT,
            64 => RecordType::SVCB,
            65 => RecordType::HTTPS,
            250 => RecordType::TSIG,
            255 => RecordType::ANY,
            _ => RecordType::Unknown(v),
        }
    }

    /// The number on the wire.
    pub fn to_u16(self) -> (r: u16)
        ensures
            r == self.number(),
    {
        match self {
            RecordType::A => 1,
            RecordType::NS => 2,
            RecordType::CNAME => 5,
            RecordType::SOA => 6,
            RecordType::PTR => 12,
            RecordType::MX => 15,
            RecordType::TXT => 16,
            RecordType::AAAA => 28,
            RecordType::SRV => 33,
            RecordType::OPT => 41,
            RecordType::SVCB => 64,
            RecordType::HTTPS => 65,
            RecordType::TSIG => 250,
            RecordType::ANY => 255,
            RecordType::Unknown(v) => v,
        }
    }
}

/// A resource record class.
#[derive(Debug, Clone, Copy, PartialEq, Eq, Hash, Structural)]
pub enum DNSClass {
    IN,
    CH,
    HS,
    NONE,
    ANY,
    /// What stands in place of the class in an OPT record: a payload size.
    OPT(u16),
    Unknown(u16),
}

/// The class that a number on the wire stands for.
pub open spec fn dns_class_of(v: u16) -> DNSClass {
    if v == 1 {
        DNSClass::IN
    } else if v == 3 {
        DNSClass::CH
    } else if v == 4 {
        DNSClass::HS
    } else if v == 254 {
        DNSClass::NONE
    } else if v == 255 {
        DNSClass::ANY
    } else {
        DNSClass::Unknown(v)
    }
}

impl DNSClass {
    /// The number of the class on the wire.
    pub open spec fn number(self) -> u16 {
        match self {
            DNSClass::IN => 1,
            DNSClass::CH => 3,
            DNSClass::HS => 4,
            DNSClass::NONE => 254,
            DNSClass::ANY => 255,
            DNSClass::OPT(v) => v,
            DNSClass::Unknown(v) => v,
        }
    }

    /// Whether this is the value that its number stands for.
    pub open spec fn canonical(self) -> bool {
        dns_class_of(self.number()) == self
    }

    /// What a number stands for.
    pub fn from_u16(v: u16) -> (r: DNSClass)
        ensures
            r == dns_class_of(v),
            r.canonical(),
            r.number() == v,
    {
        match v {
            1 => DNSClass::IN,
            3 => DNSClass::CH,
            4 => DNSClass::HS,
            254 => DNSClass::NONE,
            255 => DNSClass::ANY,
            _ => DNSClass::Unknown(v),
        }
    }

    /// The number on the wire.
    pub fn to_u16(self) -> (r: u16)
        ensures
            r == self.number(),
    {
        match self {
            DNSClass::IN => 1,
            DNSClass::CH => 3,
            DNSClass::HS => 4,
            DNSClass::NONE => 254,
            DNSClass::ANY => 255,
            DNSClass::OPT(v) => v,
            DNSClass::Unknown(v) => v,
        }
    }
}

/// A response code: the four bits of the message header.
#[derive(Debug, Clone, Copy, PartialEq, Eq, Structural)]
pub enum Rcode {
    NoError,
    FormErr,
    ServFail,
    NXDomain,
    NotImp,
    Refused,
    Unknown(u8),
}

/// The response code that a number on the wire stands for.
pub open spec fn rcode_of(v: u8) -> Rcode {
    if v == 0 {
        Rcode::NoError
    } else if v == 1 {
        Rcode::FormErr
    } else if v == 2 {
        Rcode::ServFail
    } else if v == 3 {
        Rcode::NXDomain
    } else if v == 4 {
        Rcode::NotImp
    } else if v == 5 {
        Rcode::Refused
    } else {
        Rcode::Unknown(v)
    }
}

impl Rcode {
    pub open spec fn number(self) -> u8 {
        match self {
            Rcode::NoError => 0,
            Rcode::FormErr => 1,
            Rcode::ServFail => 2,
            Rcode::NXDomain => 3,
            Rcode::NotImp => 4,
            Rcode::Refused => 5,
            Rcode::Unknown(v) => v,
        }
    }

    pub open spec fn canonical(self) -> bool {
        rcode_of(self.number()) == self && self.number() < 16
    }

    /// What a number stands for.
    pub fn from_u8(v: u8) -> (r: Rcode)
        ensures
            r == rcode_of(v),
    {
        match v {
            0 => Rcode::NoError,
            1 => Rcode::FormErr,
            2 => Rcode::ServFail,
            3 => Rcode::NXDomain,
            4 => Rcode::NotImp,
            5 => Rcode::Refused,
            _ => Rcode::Unknown(v),
        }
    }

    /// The number on the wire.
    pub fn to_u8(self) -> (r: u8)
        ensures
            r == self.number(),
    {
        match self {
            Rcode::NoError => 0,
            Rcode::FormErr => 1,
            Rcode::ServFail => 2,
            Rcode::NXDomain => 3,
            Rcode::NotImp => 4,
            Rcode::Refused => 5,
            Rcode::Unknown(v) => v,
        }
    }
}

/// A message opcode.
#[derive(Debug, Clone, Copy, PartialEq, Eq, Structural)]
pub enum Opcode {
    Query,
    Status,
    Notify,
    Update,
    Unknown(u8),
}

/// The opcode that a number on the wire stands for.
pub open spec fn opcode_of(v: u8) -> Opcode {
    if v == 0 {
        Opcode::Query
    } else if v == 2 {
        Opcode::Status
    } else if v == 4 {
        Opcode::Notify
    } else if v == 5 {
        Opcode::Update
    } else {
        Opcode::Unknown(v)
    }
}

impl Opcode {
    pub open spec fn number(self) -> u8 {
        match self {
            Opcode::Query => 0,
            Opcode::Status => 2,
            Opcode::Notify => 4,
            Opcode::Update => 5,
            Opcode::Unknown(v) => v,
        }
    }

    pub open spec fn canonical(self) -> bool {
        opcode_of(self.number()) == self && self.number() < 16
    }

    /// What a number stands for.
    pub fn from_u8(v: u8) -> (r: Opcode)
        ensures
            r == opcode_of(v),
    {
        match v {
            0 => Opcode::Query,
            2 => Opcode::Status,
            4 => Opcode::Notify,
            5 => Opcode::Update,
            _ => Opcode::Unknown(v),
        }
    }

    /// The number on the wire.
    pub fn to_u8(self) -> (r: u8)
        ensures
            r == self.number(),
    {
        match self {
            Opcode::Query => 0,
            Opcode::Status => 2,
            Opcode::Notify => 4,
            Opcode::Update => 5,
            Opcode::Unknown(v) => v,
        }
    }
}

/// Whether a message asks or answers.
#[derive(Debug, Clone, Copy, PartialEq, Eq, Structural)]
pub enum MessageType {
    Query,
    Response,
}

/// An IP address: IPv4 as its 32 bits, IPv6 as its 128 bits, most significant
/// octet first.
#[derive(Debug, Clone, Copy, PartialEq, Eq, Hash, Structural)]
pub enum IpAddr {
    V4(u32),
    V6(u128),
}

/// An EDNS client subnet option.
#[derive(Debug, Clone, Copy, PartialEq, Eq, Structural)]
pub struct ClientSubnet {
    pub addr: IpAddr,
    pub source_prefix: u8,
    pub scope_prefix: u8,
}

impl ClientSubnet {
    pub fn new(addr: IpAddr, source_prefix: u8, scope_prefix: u8) -> (r: ClientSubnet)
        ensures
            r == (ClientSubnet { addr, source_prefix, scope_prefix }),
    {
        ClientSubnet { addr, source_prefix, scope_prefix }
    }
}

/// An EDNS option: a client subnet, or the code and payload of any other.
#[derive(Debug, PartialEq, Eq)]
pub enum EdnsOption {
    Subnet(ClientSubnet),
    Other(u16, Vec<u8>),
}

/// The mathematical content of an [`EdnsOption`].
pub enum EdnsOptionView {
    Subnet(ClientSubnet),
    Other(u16, Seq<u8>),
}

impl View for EdnsOption {
    type V = EdnsOptionView;

    open spec fn view(&self) -> EdnsOptionView {
        match self {
            EdnsOption::Subnet(s) => EdnsOptionView::Subnet(*s),
            EdnsOption::Other(code, data) => EdnsOptionView::Other(*code, data@),
        }
    }
}

/// The EDNS part of a message.
#[derive(Debug, PartialEq, Eq)]
pub struct Edns {
    pub udp_payload_size: u16,
    pub ext_rcode: u8,
    pub version: u8,
    pub dnssec_ok: bool,
    /// The fifteen reserved flag bits.
    pub z: u16,
    pub options: Vec<EdnsOption>,
}

/// The mathematical content of an [`Edns`].
pub struct EdnsView {
    pub udp_payload_size: u16,
    pub ext_rcode: u8,
    pub version: u8,
    pub dnssec_ok: bool,
    pub z: u16,
    pub options: Seq<EdnsOptionView>,
}

/// The views of a list of options.
pub open spec fn option_views(v: Seq<EdnsOption>) -> Seq<EdnsOptionView> {
    Seq::new(v.len(), |i: int| v[i]@)
}

impl View for Edns {
    type V = EdnsView;

    open spec fn view(&self) -> EdnsView {
        EdnsView {
            udp_payload_size: self.udp_payload_size,
            ext_rcode: self.ext_rcode,
            version: self.version,
            dnssec_ok: self.dnssec_ok,
            z: self.z,
            options: option_views(self.options@),
        }
    }
}

/// The first client subnet among `options`.
pub open spec fn first_subnet(options: Seq<EdnsOptionView>) -> Option<ClientSubnet>
    decreases options.len(),
{
    if options.len() == 0 {
        None
    } else {
        match options[0] {
            EdnsOptionView::Subnet(s) => Some(s),
            EdnsOptionView::Other(_, _) => first_subnet(options.skip(1)),
        }
    }
}

impl Edns {
    /// An EDNS part without options.
    pub fn new() -> (r: Edns)
        ensures
            r@ == (EdnsView {
                udp_payload_size: 1232,
                ext_rcode: 0,
                version: 0,
                dnssec_ok: false,
                z: 0,
                options: Seq::empty(),
            }),
    {
        let r = Edns {
            udp_payload_size: 1232,
            ext_rcode: 0,
            version: 0,
            dnssec_ok: false,
            z: 0,
            options: Vec::new(),
        };
        assert(r@.options =~= Seq::empty());
        r
    }

    /// The client subnet of the message, when it carries one.
    pub fn subnet(&self) -> (r: Option<ClientSubnet>)
        ensures
            r == first_subnet(self@.options),
    {
        let mut i: usize = 0;
        assert(self@.options.skip(0) =~= self@.options);
        while i < self.options.len()
            invariant
                i <= self.options@.len(),
                first_subnet(self@.options) == first_subnet(self@.options.skip(i as int)),
            decreases self.options@.len() - i,
        {
            let ghost rest = self@.options.skip(i as int);
            assert(rest[0] == self.options@[i as int]@);
            assert(rest.skip(1) =~= self@.options.skip(i + 1));
            match &self.options[i] {
                EdnsOption::Subnet(s) => {
                    return Some(*s);
                },
                EdnsOption::Other(_, _) => {},
            }
            i = i + 1;
        }
        None
    }

    /// The same value once more.
    pub fn copy(&self) -> (r: Edns)
        ensures
            r@ == self@,
    {
        let mut options: Vec<EdnsOption> = Vec::new();
        let mut i: usize = 0;
        while i < self.options.len()
            invariant
                i <= self.options@.len(),
                option_views(options@) == option_views(self.options@).take(i as int),
            decreases self.options@.len() - i,
        {
            let ghost before = options@;
            let o = match &self.options[i] {
                EdnsOption::Subnet(s) => EdnsOption::Subnet(*s),
                EdnsOption::Other(code, data) => EdnsOption::Other(*code, copy_bytes(data.as_slice())),
            };
            options.push(o);
            i = i + 1;
            assert(option_views(options@) =~= option_views(before).push(self.options@[i - 1]@));
            assert(option_views(self.options@).take(i as int) =~= option_views(self.options@).take(
                i - 1,
            ).push(self.options@[i - 1]@));
        }
        assert(option_views(self.options@).take(i as int) =~= option_views(self.options@));
        Edns {
            udp_payload_size: self.udp_payload_size,
            ext_rcode: self.ext_rcode,
            version: self.version,
            dnssec_ok: self.dnssec_ok,
            z: self.z,
            options,
        }
    }
}

/// A question.
#[derive(Debug, PartialEq, Eq)]
pub struct Question {
    pub name: Name,
    pub qtype: RecordType,
    pub qclass: DNSClass,
}

/// The mathematical content of a [`Question`].
pub struct QuestionView {
    pub name: Seq<u8>,
    pub qtype: RecordType,
    pub qclass: DNSClass,
}

impl View for Question {
    type V = QuestionView;

    open spec fn view(&self) -> QuestionView {
        QuestionView { name: self.name@, qtype: self.qtype, qclass: self.qclass }
    }
}

impl Question {
    pub fn new(name: Name, qtype: RecordType, qclass: DNSClass) -> (r: Question)
        ensures
            r@ == (QuestionView { name: name@, qtype, qclass }),
    {
        Question { name, qtype, qclass }
    }

    /// The same value once more.
    pub fn copy(&self) -> (r: Question)
        ensures
            r@ == self@,
    {
        Question { name: self.name.copy(), qtype: self.qtype, qclass: self.qclass }
    }
}

/// The data of a start-of-authority record.
#[derive(Debug, PartialEq, Eq)]
pub struct Soa {
    pub mname: Name,
    pub rname: Name,
    pub serial: u32,
    pub refresh: u32,
    pub retry: u32,
    pub expire: u32,
    pub minimum: u32,
}

/// The mathematical content of a [`Soa`].
pub struct SoaView {
    pub mname: Seq<u8>,
    pub rname: Seq<u8>,
    pub serial: u32,
    pub refresh: u32,
    pub retry: u32,
    pub expire: u32,
    pub minimum: u32,
}

impl View for Soa {
    type V = SoaView;

    open spec fn view(&self) -> SoaView {
        SoaView {
            mname: self.mname@,
            rname: self.rname@,
            serial: self.serial,
            refresh: self.refresh,
            retry: self.retry,
            expire: self.expire,
            minimum: self.minimum,
        }
    }
}

/// The data of a record: the kinds that the plugins look into, and the type
/// and octets of any other.
#[derive(Debug, PartialEq, Eq)]
pub enum RData {
    A(u32),
    AAAA(u128),
    CNAME(Name),
    SOA(Soa),
    Other(RecordType, Vec<u8>),
}

/// The mathematical content of an [`RData`].
pub enum RDataView {
    A(u32),
    AAAA(u128),
    CNAME(Seq<u8>),
    SOA(SoaView),
    Other(RecordType, Seq<u8>),
}

impl View for RData {
    type V = RDataView;

    open spec fn view(&self) -> RDataView {
        match self {
            RData::A(a) => RDataView::A(*a),
            RData::AAAA(a) => RDataView::AAAA(*a),
            RData::CNAME(n) => RDataView::CNAME(n@),
            RData::SOA(s) => RDataView::SOA(s@),
            RData::Other(t, d) => RDataView::Other(*t, d@),
        }
    }
}

impl RDataView {
    /// The record type that the data belongs to.
    pub open spec fn rtype(self) -> RecordType {
        match self {
            RDataView::A(_) => RecordType::A,
            RDataView::AAAA(_) => RecordType::AAAA,
            RDataView::CNAME(_) => RecordType::CNAME,
            RDataView::SOA(_) => RecordType::SOA,
            RDataView::Other(t, _) => t,
        }
    }
}

impl RData {
    /// The type of the record that holds the data.
    pub fn rtype(&self) -> (r: RecordType)
        ensures
            r == self@.rtype(),
    {
        match self {
            RData::A(_) => RecordType::A,
            RData::AAAA(_) => RecordType::AAAA,
            RData::CNAME(_) => RecordType::CNAME,
            RData::SOA(_) => RecordType::SOA,
            RData::Other(t, _) => *t,
        }
    }

    /// The same value once more.
    pub fn copy(&self) -> (r: RData)
        ensures
            r@ == self@,
    {
        match self {
            RData::A(a) => RData::A(*a),
            RData::AAAA(a) => RData::AAAA(*a),
            RData::CNAME(n) => RData::CNAME(n.copy()),
            RData::SOA(s) => RData::SOA(
                Soa {
                    mname: s.mname.copy(),
                    rname: s.rname.copy(),
                    serial: s.serial,
                    refresh: s.refresh,
                    retry: s.retry,
                    expire: s.expire,
                    minimum: s.minimum,
                },
            ),
            RData::Other(t, d) => RData::Other(*t, copy_bytes(d.as_slice())),
        }
    }
}

/// A resource record.
#[derive(Debug, PartialEq, Eq)]
pub struct Record {
    pub name: Name,
    pub class: DNSClass,
    pub ttl: u32,
    pub data: RData,
}

/// The mathematical content of a [`Record`].
pub struct RecordView {
    pub name: Seq<u8>,
    pub class: DNSClass,
    pub ttl: u32,
    pub data: RDataView,
}

impl View for Record {
    type V = RecordView;

    open spec fn view(&self) -> RecordView {
        RecordView { name: self.name@, class: self.class, ttl: self.ttl, data: self.data@ }
    }
}

impl Record {
    /// A record of class `IN`.
    pub fn from_rdata(name: Name, ttl: u32, data: RData) -> (r: Record)
        ensures
            r@ == (RecordView { name: name@, class: DNSClass::IN, ttl, data: data@ }),
    {
        Record { name, class: DNSClass::IN, ttl, data }
    }

    /// The same value once more.
    pub fn copy(&self) -> (r: Record)
        ensures
            r@ == self@,
    {
        Record {
            name: self.name.copy(),
            class: self.class,
            ttl: self.ttl,
            data: self.data.copy(),
        }
    }

    /// The address that the record holds, when it is an address record.
    pub fn ip_addr(&self) -> (r: Option<IpAddr>)
        ensures
            r == record_addr(self@),
    {
        match &self.data {
            RData::A(a) => Some(IpAddr::V4(*a)),
            RData::AAAA(a) => Some(IpAddr::V6(*a)),
            _ => None,
        }
    }
}

/// The address of an address record.
pub open spec fn record_addr(r: RecordView) -> Option<IpAddr> {
    match r.data {
        RDataView::A(a) => Some(IpAddr::V4(a)),
        RDataView::AAAA(a) => Some(IpAddr::V6(a)),
        _ => None,
    }
}

/// The views of a list of questions.
pub open spec fn question_views(v: Seq<Question>) -> Seq<QuestionView> {
    Seq::new(v.len(), |i: int| v[i]@)
}

/// The views of a list of records.
pub open spec fn record_views(v: Seq<Record>) -> Seq<RecordView> {
    Seq::new(v.len(), |i: int| v[i]@)
}

/// A DNS message.
#[derive(Debug, PartialEq, Eq)]
pub struct Message {
    pub id: u16,
    pub message_type: MessageType,
    pub opcode: Opcode,
    pub authoritative: bool,
    pub truncated: bool,
    pub recursion_desired: bool,
    pub recursion_available: bool,
    pub authentic_data: bool,
    pub checking_disabled: bool,
    pub rcode: Rcode,
    pub questions: Vec<Question>,
    pub answers: Vec<Record>,
    pub authorities: Vec<Record>,
    pub additionals: Vec<Record>,
    pub edns: Option<Edns>,
    /// Transaction signatures.
    pub signature: Vec<Record>,
}

/// The mathematical content of a [`Message`].
pub struct MessageView {
    pub id: u16,
    pub message_type: MessageType,
    pub opcode: Opcode,
    pub authoritative: bool,
    pub truncated: bool,
    pub recursion_desired: bool,
    pub recursion_available: bool,
    pub authentic_data: bool,
    pub checking_disabled: bool,
    pub rcode: Rcode,
    pub questions: Seq<QuestionView>,
    pub answers: Seq<RecordView>,
    pub authorities: Seq<RecordView>,
    pub additionals: Seq<RecordView>,
    pub edns: Option<EdnsView>,
    pub signature: Seq<RecordView>,
}

/// The view of an optional EDNS part.
pub open spec fn edns_view(e: Option<Edns>) -> Option<EdnsView> {
    match e {
        Some(e) => Some(e@),
        None => None,
    }
}

impl View for Message {
    type V = MessageView;

    open spec fn view(&self) -> MessageView {
        MessageView {
            id: self.id,
            message_type: self.message_type,
            opcode: self.opcode,
            authoritative: self.authoritative,
            truncated: self.truncated,
            recursion_desired: self.recursion_desired,
            recursion_available: self.recursion_available,
            authentic_data: self.authentic_data,
            checking_disabled: self.checking_disabled,
            rcode: self.rcode,
            questions: question_views(self.questions@),
            answers: record_views(self.answers@),
            authorities: record_views(self.authorities@),
            additionals: record_views(self.additionals@),
            edns: edns_view(self.edns),
            signature: record_views(self.signature@),
        }
    }
}

/// The client subnet that a message carries.
pub open spec fn message_subnet(m: MessageView) -> Option<ClientSubnet> {
    match m.edns {
        Some(e) => first_subnet(e.options),
        None => None,
    }
}

/// The smallest TTL among `records`.
pub open spec fn min_ttl(records: Seq<RecordView>) -> Option<u32>
    decreases records.len(),
{
    if records.len() == 0 {
        None
    } else {
        match min_ttl(records.drop_last()) {
            None => Some(records.last().ttl),
            Some(t) => Some(
                if records.last().ttl < t {
                    records.last().ttl
                } else {
                    t
                },
            ),
        }
    }
}

/// `records` with every TTL set to `ttl`.
pub open spec fn with_ttl(records: Seq<RecordView>, ttl: u32) -> Seq<RecordView> {
    Seq::new(records.len(), |i: int| RecordView { ttl, ..records[i] })
}

/// A TTL after `age` seconds, at most `cap`.
pub open spec fn aged_ttl(ttl: u32, age: u32, cap: u32) -> u32 {
    let left = if ttl >= age {
        (ttl - age) as u32
    } else {
        0
    };
    if left < cap {
        left
    } else {
        cap
    }
}

/// The records that have not run out after `age` seconds, with their TTLs aged and
/// capped at `cap`.
pub open spec fn with_aged_ttls(records: Seq<RecordView>, age: u32, cap: u32) -> Seq<RecordView>
    decreases records.len(),
{
    if records.len() == 0 {
        Seq::empty()
    } else {
        let init = with_aged_ttls(records.drop_last(), age, cap);
        let last = records.last();
        if last.ttl > age {
            init.push(RecordView { ttl: aged_ttl(last.ttl, age, cap), ..last })
        } else {
            init
        }
    }
}

/// Every aged record was there before and has not run out.
pub proof fn lemma_aged_record(records: Seq<RecordView>, age: u32, cap: u32, i: int) -> (j: int)
    requires
        0 <= i < with_aged_ttls(records, age, cap).len(),
    ensures
        0 <= j < records.len(),
        records[j].ttl > age,
        with_aged_ttls(records, age, cap)[i] == (RecordView {
            ttl: aged_ttl(records[j].ttl, age, cap),
            ..records[j]
        }),
    decreases records.len(),
{
    let init = records.drop_last();
    if i < with_aged_ttls(init, age, cap).len() {
        let j = lemma_aged_record(init, age, cap, i);
        assert(init[j] == records[j]);
        j
    } else {
        records.len() - 1
    }
}

/// Where none has run out, all records stay.
pub proof fn lemma_all_aged(records: Seq<RecordView>, age: u32, cap: u32)
    requires
        forall|i: int| 0 <= i < records.len() ==> (#[trigger] records[i]).ttl > age,
    ensures
        with_aged_ttls(records, age, cap).len() == records.len(),
        forall|i: int|
            0 <= i < records.len() ==> #[trigger] with_aged_ttls(records, age, cap)[i] == (
            RecordView { ttl: aged_ttl(records[i].ttl, age, cap), ..records[i] }),
    decreases records.len(),
{
    if records.len() > 0 {
        let init = records.drop_last();
        assert forall|i: int| 0 <= i < init.len() implies (#[trigger] init[i]).ttl > age by {
            assert(init[i] == records[i]);
        }
        lemma_all_aged(init, age, cap);
        assert(records[records.len() - 1] == records.last());
        let all = with_aged_ttls(records, age, cap);
        assert forall|i: int| 0 <= i < records.len() implies #[trigger] all[i] == (RecordView {
            ttl: aged_ttl(records[i].ttl, age, cap),
            ..records[i]
        }) by {
            if i < init.len() {
                assert(init[i] == records[i]);
                assert(all[i] == with_aged_ttls(init, age, cap)[i]);
            }
        }
    }
}

/// The same questions once more.
pub fn copy_questions(v: &Vec<Question>) -> (r: Vec<Question>)
    ensures
        question_views(r@) == question_views(v@),
{
    let mut out: Vec<Question> = Vec::new();
    let mut i: usize = 0;
    while i < v.len()
        invariant
            i <= v@.len(),
            out@.len() == i,
            forall|k: int| 0 <= k < i ==> (#[trigger] out@[k])@ == v@[k]@,
        decreases v@.len() - i,
    {
        out.push(v[i].copy());
        i = i + 1;
    }
    assert(question_views(out@) =~= question_views(v@));
    out
}

/// The same records once more.
pub fn copy_records(v: &Vec<Record>) -> (r: Vec<Record>)
    ensures
        record_views(r@) == record_views(v@),
{
    let mut out: Vec<Record> = Vec::new();
    let mut i: usize = 0;
    while i < v.len()
        invariant
            i <= v@.len(),
            out@.len() == i,
            forall|k: int| 0 <= k < i ==> (#[trigger] out@[k])@ == v@[k]@,
        decreases v@.len() - i,
    {
        out.push(v[i].copy());
        i = i + 1;
    }
    assert(record_views(out@) =~= record_views(v@));
    out
}

/// A copy of `v` whose TTLs are `ttl`.
fn copy_records_with_ttl(v: &Vec<Record>, ttl: u32) -> (r: Vec<Record>)
    ensures
        record_views(r@) == with_ttl(record_views(v@), ttl),
{
    let mut out: Vec<Record> = Vec::new();
    let mut i: usize = 0;
    while i < v.len()
        invariant
            i <= v@.len(),
            out@.len() == i,
            forall|k: int| 0 <= k < i ==> (#[trigger] out@[k])@ == (RecordView { ttl, ..v@[k]@ }),
        decreases v@.len() - i,
    {
        let mut rec = v[i].copy();
        rec.ttl = ttl;
        out.push(rec);
        i = i + 1;
    }
    assert(record_views(out@) =~= with_ttl(record_views(v@), ttl));
    out
}

/// A copy of what has not run out of `v`, with aged TTLs.
fn copy_records_aged(v: &Vec<Record>, age: u32, cap: u32) -> (r: Vec<Record>)
    ensures
        record_views(r@) == with_aged_ttls(record_views(v@), age, cap),
{
    let mut out: Vec<Record> = Vec::new();
    let ghost all = record_views(v@);
    let mut i: usize = 0;
    assert(record_views(out@) =~= with_aged_ttls(all.take(0), age, cap));
    while i < v.len()
        invariant
            i <= v@.len(),
            all == record_views(v@),
            record_views(out@) == with_aged_ttls(all.take(i as int), age, cap),
        decreases v@.len() - i,
    {
        let ghost before = out@;
        assert(all.take(i + 1).drop_last() =~= all.take(i as int));
        assert(all[i as int] == v@[i as int]@);
        if v[i].ttl > age {
            let mut rec = v[i].copy();
            let left: u32 = rec.ttl - age;
            rec.ttl = if left < cap {
                left
            } else {
                cap
            };
            out.push(rec);
            assert(record_views(out@) =~= record_views(before).push(rec@));
        }
        i = i + 1;
    }
    assert(all.take(i as int) =~= all);
    out
}

/// The same options once more.
pub fn copy_edns(e: &Option<Edns>) -> (r: Option<Edns>)
    ensures
        edns_view(r) == edns_view(*e),
{
    match e {
        Some(e) => Some(e.copy()),
        None => None,
    }
}

impl Message {
    /// An empty query.
    pub fn new() -> (r: Message)
        ensures
            r@ == (MessageView {
                id: 0,
                message_type: MessageType::Query,
                opcode: Opcode::Query,
                authoritative: false,
                truncated: false,
                recursion_desired: false,
                recursion_available: false,
                authentic_data: false,
                checking_disabled: false,
                rcode: Rcode::NoError,
                questions: Seq::empty(),
                answers: Seq::empty(),
                authorities: Seq::empty(),
                additionals: Seq::empty(),
                edns: None,
                signature: Seq::empty(),
            }),
    {
        let r = Message {
            id: 0,
            message_type: MessageType::Query,
            opcode: Opcode::Query,
            authoritative: false,
            truncated: false,
            recursion_desired: false,
            recursion_available: false,
            authentic_data: false,
            checking_disabled: false,
            rcode: Rcode::NoError,
            questions: Vec::new(),
            answers: Vec::new(),
            authorities: Vec::new(),
            additionals: Vec::new(),
            edns: None,
            signature: Vec::new(),
        };
        proof {
            assert(r@.questions =~= Seq::empty());
            assert(r@.answers =~= Seq::empty());
            assert(r@.authorities =~= Seq::empty());
            assert(r@.additionals =~= Seq::empty());
            assert(r@.signature =~= Seq::empty());
        }
        r
    }

    /// The same value once more.
    pub fn copy(&self) -> (r: Message)
        ensures
            r@ == self@,
    {
        Message {
            id: self.id,
            message_type: self.message_type,
            opcode: self.opcode,
            authoritative: self.authoritative,
            truncated: self.truncated,
            recursion_desired: self.recursion_desired,
            recursion_available: self.recursion_available,
            authentic_data: self.authentic_data,
            checking_disabled: self.checking_disabled,
            rcode: self.rcode,
            questions: copy_questions(&self.questions),
            answers: copy_records(&self.answers),
            authorities: copy_records(&self.authorities),
            additionals: copy_records(&self.additionals),
            edns: copy_edns(&self.edns),
            signature: copy_records(&self.signature),
        }
    }

    /// The client subnet of the message, when it carries one.
    pub fn subnet(&self) -> (r: Option<ClientSubnet>)
        ensures
            r == message_subnet(self@),
    {
        match &self.edns {
            Some(e) => e.subnet(),
            None => None,
        }
    }

    /// The smallest TTL of the answers.
    pub fn min_answer_ttl(&self) -> (r: Option<u32>)
        ensures
            r == min_ttl(self@.answers),
    {
        let mut best: Option<u32> = None;
        let mut i: usize = 0;
        while i < self.answers.len()
            invariant
                i <= self.answers@.len(),
                best == min_ttl(self@.answers.take(i as int)),
            decreases self.answers@.len() - i,
        {
            let ttl: u32 = self.answers[i].ttl;
            best = match best {
                None => Some(ttl),
                Some(t) => Some(
                    if ttl < t {
                        ttl
                    } else {
                        t
                    },
                ),
            };
            i = i + 1;
            assert(self@.answers.take(i as int).drop_last() =~= self@.answers.take(i - 1));
        }
        assert(self@.answers.take(i as int) =~= self@.answers);
        best
    }

    /// A copy with the given id and every record TTL set to `ttl`. The EDNS
    /// part carries no TTL and is unchanged.
    pub fn clone_with_id_and_record_ttl(&self, id: u16, ttl: u32) -> (r: Message)
        ensures
            r@ == (MessageView {
                id,
                answers: with_ttl(self@.answers, ttl),
                authorities: with_ttl(self@.authorities, ttl),
                additionals: with_ttl(self@.additionals, ttl),
                ..self@
            }),
    {
        let mut r = self.copy();
        r.id = id;
        r.answers = copy_records_with_ttl(&self.answers, ttl);
        r.authorities = copy_records_with_ttl(&self.authorities, ttl);
        r.additionals = copy_records_with_ttl(&self.additionals, ttl);
        r
    }

    /// A copy with the given id and every record TTL reduced by `age` seconds
    /// and capped at `cap`. Records that have run out are left out.
    pub fn clone_with_id_and_aged_record_ttls(&self, id: u16, age: u32, cap: u32) -> (r: Message)
        ensures
            r@ == (MessageView {
                id,
                answers: with_aged_ttls(self@.answers, age, cap),
                authorities: with_aged_ttls(self@.authorities, age, cap),
                additionals: with_aged_ttls(self@.additionals, age, cap),
                ..self@
            }),
    {
        let mut r = self.copy();
        r.id = id;
        r.answers = copy_records_aged(&self.answers, age, cap);
        r.authorities = copy_records_aged(&self.authorities, age, cap);
        r.additionals = copy_records_aged(&self.additionals, age, cap);
        r
    }
}

} // verus!
