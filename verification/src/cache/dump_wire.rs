//! The octets of a cache dump.
//!
//! A dump is written with `wincode`: integers have a fixed width and are least
//! significant octet first, booleans and the presence of optional values take one
//! octet, and texts and lists follow their length. A current dump is a header and
//! then one frame per entry, each with its length; earlier dumps are one value.

use vstd::layout::size_of;
use vstd::prelude::*;
use vstd::utf8::{encode_utf8, encode_utf8_decode_utf8};

use crate::bytes::{le, lemma_le_len, lemma_le_value_of_le, lemma_pow256_values, pow256};
use crate::text::decimal;

verus! {

/// A stored entry.
#[derive(Debug, PartialEq, Eq)]
pub struct PersistedCacheEntry {
    pub domain: String,
    pub record_type: u16,
    pub dns_class: u16,
    pub do_bit: bool,
    pub cd_bit: bool,
    pub ecs_family: Option<u16>,
    pub ecs_source_prefix: Option<u8>,
    pub ecs_scope_prefix: Option<u8>,
    pub ecs_network: Option<Vec<u8>>,
    pub resp_bytes: Vec<u8>,
    pub cache_age_ms: u64,
    pub last_access_age_ms: u64,
    pub ttl: u32,
    pub remaining_ttl_ms: u64,
}

/// The mathematical content of a [`PersistedCacheEntry`].
pub struct PersistedView {
    pub domain: Seq<char>,
    pub record_type: u16,
    pub dns_class: u16,
    pub do_bit: bool,
    pub cd_bit: bool,
    pub ecs_family: Option<u16>,
    pub ecs_source_prefix: Option<u8>,
    pub ecs_scope_prefix: Option<u8>,
    pub ecs_network: Option<Seq<u8>>,
    pub resp_bytes: Seq<u8>,
    pub cache_age_ms: u64,
    pub last_access_age_ms: u64,
    pub ttl: u32,
    pub remaining_ttl_ms: u64,
}

/// The view of optional octets.
pub open spec fn octets_view(o: Option<Vec<u8>>) -> Option<Seq<u8>> {
    match o {
        Some(v) => Some(v@),
        None => None,
    }
}

impl View for PersistedCacheEntry {
    type V = PersistedView;

    open spec fn view(&self) -> PersistedView {
        PersistedView {
            domain: self.domain@,
            record_type: self.record_type,
            dns_class: self.dns_class,
            do_bit: self.do_bit,
            cd_bit: self.cd_bit,
            ecs_family: self.ecs_family,
            ecs_source_prefix: self.ecs_source_prefix,
            ecs_scope_prefix: self.ecs_scope_prefix,
            ecs_network: octets_view(self.ecs_network),
            resp_bytes: self.resp_bytes@,
            cache_age_ms: self.cache_age_ms,
            last_access_age_ms: self.last_access_age_ms,
            ttl: self.ttl,
            remaining_ttl_ms: self.remaining_ttl_ms,
        }
    }
}

/// The views of a list of stored entries.
pub open spec fn persisted_views(v: Seq<PersistedCacheEntry>) -> Seq<PersistedView> {
    Seq::new(v.len(), |i: int| v[i]@)
}

/// The header of a current dump: magic number, version, time and entry count.
pub type HeaderTuple = (u64, u32, u64, u64);

/// The fields of a stored entry in their order.
pub type EntryTuple = (
    String,
    u16,
    u16,
    bool,
    bool,
    Option<u16>,
    Option<u8>,
    Option<u8>,
    Option<Vec<u8>>,
    Vec<u8>,
    u64,
    u64,
    u32,
    u64,
);

pub open spec fn bool_wire(b: bool) -> Seq<u8> {
    seq![
        if b {
            1u8
        } else {
            0u8
        },
    ]
}

pub open spec fn opt_u16_wire(o: Option<u16>) -> Seq<u8> {
    match o {
        None => seq![0u8],
        Some(v) => seq![1u8] + le(v as nat, 2),
    }
}

pub open spec fn opt_u8_wire(o: Option<u8>) -> Seq<u8> {
    match o {
        None => seq![0u8],
        Some(v) => seq![1u8, v],
    }
}

pub open spec fn octets_wire(s: Seq<u8>) -> Seq<u8> {
    le(s.len(), 8) + s
}

pub open spec fn opt_octets_wire(o: Option<Seq<u8>>) -> Seq<u8> {
    match o {
        None => seq![0u8],
        Some(s) => seq![1u8] + octets_wire(s),
    }
}

pub open spec fn text_wire(s: Seq<char>) -> Seq<u8> {
    octets_wire(encode_utf8(s))
}

/// The octets of a stored entry.
#[verifier::opaque]
pub open spec fn entry_wire(e: PersistedView) -> Seq<u8> {
    text_wire(e.domain) + (le(e.record_type as nat, 2) + (le(e.dns_class as nat, 2) + (bool_wire(
        e.do_bit,
    ) + (bool_wire(e.cd_bit) + (opt_u16_wire(e.ecs_family) + (opt_u8_wire(e.ecs_source_prefix) + (
    opt_u8_wire(e.ecs_scope_prefix) + (opt_octets_wire(e.ecs_network) + (octets_wire(e.resp_bytes)
        + (le(e.cache_age_ms as nat, 8) + (le(e.last_access_age_ms as nat, 8) + (le(
        e.ttl as nat,
        4,
    ) + le(e.remaining_ttl_ms as nat, 8)))))))))))))
}

/// Whether no text or list of an entry is longer than a limit on what is allocated
/// at once.
pub open spec fn entry_fits(e: PersistedView, limit: usize) -> bool {
    &&& encode_utf8(e.domain).len() <= limit
    &&& e.ecs_network is Some ==> e.ecs_network->0.len() <= limit
    &&& e.resp_bytes.len() <= limit
}

/// The octets of the header of a current dump.
pub open spec fn header_wire(h: HeaderTuple) -> Seq<u8> {
    le(h.0 as nat, 8) + (le(h.1 as nat, 4) + (le(h.2 as nat, 8) + le(h.3 as nat, 8)))
}

/// The octets with which every dump begins.
pub open spec fn prefix_wire(magic: u64, version: u32) -> Seq<u8> {
    le(magic as nat, 8) + le(version as nat, 4)
}

/// The octets of a list of entries.
pub open spec fn entries_wire(entries: Seq<PersistedView>) -> Seq<u8>
    decreases entries.len(),
{
    if entries.len() == 0 {
        Seq::empty()
    } else {
        entry_wire(entries[0]) + entries_wire(entries.skip(1))
    }
}

/// The octets of a dump that is one value.
pub open spec fn legacy_wire(magic: u64, version: u32, dumped_at: u64, entries: Seq<PersistedView>) -> Seq<
    u8,
> {
    le(magic as nat, 8) + (le(version as nat, 4) + (le(dumped_at as nat, 8) + (le(
        entries.len(),
        8,
    ) + entries_wire(entries))))
}

/// What one entry of a dump that is one value takes in memory.
pub open spec fn slot_size() -> nat {
    if size_of::<EntryTuple>() >= 1 {
        size_of::<EntryTuple>()
    } else {
        1
    }
}

/// Whether the entries of a dump that is one value may be allocated at once.
pub open spec fn legacy_fits(entries: Seq<PersistedView>, limit: usize) -> bool {
    &&& entries.len() * slot_size() <= limit
    &&& forall|i: int| 0 <= i < entries.len() ==> entry_fits(#[trigger] entries[i], limit)
}

/// The octets of an entry with their number before them.
pub open spec fn frame_wire(e: PersistedView) -> Seq<u8> {
    le(entry_wire(e).len(), 8) + entry_wire(e)
}

/// The octets of the frames of a current dump.
pub open spec fn frames_wire(entries: Seq<PersistedView>) -> Seq<u8>
    decreases entries.len(),
{
    if entries.len() == 0 {
        Seq::empty()
    } else {
        frames_wire(entries.drop_last()) + frame_wire(entries.last())
    }
}

/// The entry whose fields a tuple holds.
pub open spec fn tuple_view(t: EntryTuple) -> PersistedView {
    PersistedView {
        domain: t.0@,
        record_type: t.1,
        dns_class: t.2,
        do_bit: t.3,
        cd_bit: t.4,
        ecs_family: t.5,
        ecs_source_prefix: t.6,
        ecs_scope_prefix: t.7,
        ecs_network: octets_view(t.8),
        resp_bytes: t.9@,
        cache_age_ms: t.10,
        last_access_age_ms: t.11,
        ttl: t.12,
        remaining_ttl_ms: t.13,
    }
}

impl PersistedCacheEntry {
    /// The fields of the entry.
    pub fn into_tuple(self) -> (r: EntryTuple)
        ensures
            tuple_view(r) == self@,
    {
        (
            self.domain,
            self.record_type,
            self.dns_class,
            self.do_bit,
            self.cd_bit,
            self.ecs_family,
            self.ecs_source_prefix,
            self.ecs_scope_prefix,
            self.ecs_network,
            self.resp_bytes,
            self.cache_age_ms,
            self.last_access_age_ms,
            self.ttl,
            self.remaining_ttl_ms,
        )
    }

    /// The entry with the given fields.
    pub fn from_tuple(t: EntryTuple) -> (r: PersistedCacheEntry)
        ensures
            r@ == tuple_view(t),
    {
        PersistedCacheEntry {
            domain: t.0,
            record_type: t.1,
            dns_class: t.2,
            do_bit: t.3,
            cd_bit: t.4,
            ecs_family: t.5,
            ecs_source_prefix: t.6,
            ecs_scope_prefix: t.7,
            ecs_network: t.8,
            resp_bytes: t.9,
            cache_age_ms: t.10,
            last_access_age_ms: t.11,
            ttl: t.12,
            remaining_ttl_ms: t.13,
        }
    }
}

/// `wincode::config::serialized_size` of an entry: the number of octets that it takes.
#[verifier::external_body]
pub(crate) fn entry_size(t: &EntryTuple) -> (r: Result<u64, String>)
    requires
        entry_wire(tuple_view(*t)).len() <= usize::MAX,
    ensures
        r is Ok,
        r->Ok_0 == entry_wire(tuple_view(*t)).len(),
{
    let config = wincode::config::Configuration::default();
    wincode::config::serialized_size(t, config).map_err(|e| e.to_string())
}

/// The length of the first part of an entry that is longer than a limit on what is
/// allocated at once.
pub open spec fn first_over(e: PersistedView, limit: usize) -> nat {
    if encode_utf8(e.domain).len() > limit {
        encode_utf8(e.domain).len()
    } else if e.ecs_network is Some && e.ecs_network->0.len() > limit {
        e.ecs_network->0.len()
    } else {
        e.resp_bytes.len()
    }
}

/// What is said of a part that is longer than a limit on what is allocated at once.
pub open spec fn over_limit_text(needed: nat, limit: usize) -> Seq<char> {
    "Encoded sequence length exceeded preallocation limit of "@ + decimal(limit as nat)
        + " bytes (needed "@ + decimal(needed) + " bytes)"@
}

/// `wincode::config::serialize` of an entry, with a limit on what is allocated at
/// once: the octets of the entry, where none of its parts is over the limit, and else the
/// text of the error on the first that is.
#[verifier::external_body]
pub(crate) fn write_entry<const LIMIT: usize>(t: &EntryTuple) -> (r: Result<Vec<u8>, String>)
    requires
        entry_wire(tuple_view(*t)).len() <= isize::MAX,
    ensures
        r is Ok <==> entry_fits(tuple_view(*t), LIMIT),
        r is Ok ==> r->Ok_0@ == entry_wire(tuple_view(*t)),
        r is Err ==> r->Err_0@ == over_limit_text(first_over(tuple_view(*t), LIMIT), LIMIT),
{
    let config = wincode::config::Configuration::default().with_preallocation_size_limit::<LIMIT>();
    wincode::config::serialize(t, config).map_err(|e| e.to_string())
}

/// `wincode::config::serialize` of a header.
#[verifier::external_body]
pub(crate) fn write_header(h: HeaderTuple) -> (r: Result<Vec<u8>, String>)
    ensures
        r is Ok,
        r->Ok_0@ == header_wire(h),
{
    let config = wincode::config::Configuration::default();
    wincode::config::serialize(&h, config).map_err(|e| e.to_string())
}

/// `wincode::config::serialize` of a number.
#[verifier::external_body]
pub(crate) fn write_u64(v: u64) -> (r: Result<Vec<u8>, String>)
    ensures
        r is Ok,
        r->Ok_0@ == le(v as nat, 8),
{
    let config = wincode::config::Configuration::default();
    wincode::config::serialize(&v, config).map_err(|e| e.to_string())
}

/// `wincode::config::deserialize_exact` of a number, from as many octets as it has.
#[verifier::external_body]
pub(crate) fn read_u64(data: &[u8]) -> (r: Result<u64, String>)
    requires
        data@.len() == 8,
    ensures
        r is Ok,
        le(r->Ok_0 as nat, 8) == data@,
{
    let config = wincode::config::Configuration::default();
    wincode::config::deserialize_exact::<u64, _>(data, config).map_err(|e| e.to_string())
}

/// `wincode::config::deserialize_exact` of the octets with which a dump begins, from as
/// many as there are of them.
#[verifier::external_body]
pub(crate) fn read_prefix(data: &[u8]) -> (r: Result<(u64, u32), String>)
    requires
        data@.len() == 12,
    ensures
        r is Ok,
        prefix_wire((r->Ok_0).0, (r->Ok_0).1) == data@,
{
    let config = wincode::config::Configuration::default();
    wincode::config::deserialize_exact::<(u64, u32), _>(data, config).map_err(|e| e.to_string())
}

/// `wincode::config::deserialize_exact` of a header, from as many octets as it has.
#[verifier::external_body]
pub(crate) fn read_header(data: &[u8]) -> (r: Result<HeaderTuple, String>)
    requires
        data@.len() == 28,
    ensures
        r is Ok,
        header_wire(r->Ok_0) == data@,
{
    let config = wincode::config::Configuration::default();
    wincode::config::deserialize_exact::<HeaderTuple, _>(data, config).map_err(|e| e.to_string())
}

/// The text of the error with which `wincode` refuses to read an entry: of the octets, of
/// the limit on what is allocated at once and of the largest size.
pub uninterp spec fn entry_read_error(octets: Seq<u8>, limit: usize, largest: usize) -> Seq<char>;

/// The text of the error with which `wincode` refuses to read a dump that is one value: of
/// the octets, of the limit on what is allocated at once, of what an entry takes in memory
/// and of the largest size.
pub uninterp spec fn legacy_read_error(
    octets: Seq<u8>,
    limit: usize,
    slot: nat,
    largest: usize,
) -> Seq<char>;

/// Why octets cannot be read as an entry.
pub open spec fn entry_problem(data: Seq<u8>, limit: usize) -> Seq<char> {
    entry_read_error(data, limit, usize::MAX)
}

/// Why octets cannot be read as a dump that is one value.
pub open spec fn legacy_problem(data: Seq<u8>, limit: usize) -> Seq<char> {
    legacy_read_error(data, limit, slot_size(), usize::MAX)
}

/// Whether octets are those of an entry that may be allocated.
pub open spec fn is_entry(data: Seq<u8>, limit: usize) -> bool {
    exists|e: PersistedView| entry_fits(e, limit) && #[trigger] entry_wire(e) == data
}

/// `wincode::config::deserialize_exact` of an entry, with a limit on what is allocated
/// at once: the entry that has these octets, where there is one and none of its parts
/// is over the limit, and else the text of the error.
#[verifier::external_body]
pub(crate) fn read_entry<const LIMIT: usize>(data: &[u8]) -> (r: Result<EntryTuple, String>)
    ensures
        r is Ok <==> is_entry(data@, LIMIT),
        r is Ok ==> entry_fits(tuple_view(r->Ok_0), LIMIT) && entry_wire(tuple_view(r->Ok_0)) == data@,
        r is Err ==> r->Err_0@ == entry_read_error(data@, LIMIT, usize::MAX),
{
    let config = wincode::config::Configuration::default().with_preallocation_size_limit::<LIMIT>();
    wincode::config::deserialize_exact::<EntryTuple, _>(data, config).map_err(|e| e.to_string())
}

/// The entries whose fields tuples hold.
pub open spec fn tuple_views(v: Seq<EntryTuple>) -> Seq<PersistedView> {
    Seq::new(v.len(), |i: int| tuple_view(v[i]))
}

/// A dump that is one value: magic number, version, time and entries.
pub type LegacyTuple = (u64, u32, u64, Vec<EntryTuple>);

/// The mathematical content of a [`LegacyTuple`].
pub type LegacyView = (u64, u32, u64, Seq<PersistedView>);

pub open spec fn legacy_view(d: LegacyTuple) -> LegacyView {
    (d.0, d.1, d.2, tuple_views(d.3@))
}

/// The octets of a dump that is one value.
pub open spec fn legacy_octets(d: LegacyView) -> Seq<u8> {
    legacy_wire(d.0, d.1, d.2, d.3)
}

/// Whether octets are those of a dump that is one value and may be allocated.
pub open spec fn is_legacy(data: Seq<u8>, limit: usize) -> bool {
    exists|d: LegacyView| legacy_fits(d.3, limit) && #[trigger] legacy_octets(d) == data
}

/// `wincode::config::deserialize_exact` of a dump that is one value, with a limit on
/// what is allocated at once: the dump that has these octets, where there is one that may
/// be allocated, and else the text of the error. Room for the entries is made before they
/// are read, so the limit has to be one up to which a list can be allocated.
#[verifier::external_body]
pub(crate) fn read_legacy<const LIMIT: usize>(data: &[u8]) -> (r: Result<LegacyTuple, String>)
    requires
        LIMIT <= isize::MAX,
    ensures
        r is Ok <==> is_legacy(data@, LIMIT),
        r is Ok ==> legacy_fits(legacy_view(r->Ok_0).3, LIMIT),
        r is Ok ==> legacy_octets(legacy_view(r->Ok_0)) == data@,
        r is Err ==> r->Err_0@ == legacy_read_error(data@, LIMIT, slot_size(), usize::MAX),
{
    let config = wincode::config::Configuration::default().with_preallocation_size_limit::<LIMIT>();
    wincode::config::deserialize_exact::<LegacyTuple, _>(data, config).map_err(|e| e.to_string())
}

proof fn lemma_assoc(p: Seq<u8>, q: Seq<u8>, x: Seq<u8>)
    ensures
        (p + q) + x == p + (q + x),
{
    assert((p + q) + x =~= p + (q + x));
}

proof fn lemma_le_split(a: nat, b: nat, n: nat, x: Seq<u8>, y: Seq<u8>)
    requires
        a < pow256(n),
        b < pow256(n),
        le(a, n) + x == le(b, n) + y,
    ensures
        a == b,
        x == y,
{
    lemma_le_value_of_le(a, n);
    lemma_le_value_of_le(b, n);
    let l = le(a, n) + x;
    let r = le(b, n) + y;
    assert(l.take(n as int) =~= le(a, n));
    assert(r.take(n as int) =~= le(b, n));
    assert(l.skip(n as int) =~= x);
    assert(r.skip(n as int) =~= y);
}

proof fn lemma_octets_split(a: Seq<u8>, b: Seq<u8>, x: Seq<u8>, y: Seq<u8>)
    requires
        a.len() <= u64::MAX,
        b.len() <= u64::MAX,
        octets_wire(a) + x == octets_wire(b) + y,
    ensures
        a == b,
        x == y,
{
    lemma_pow256_values();
    assert(octets_wire(a) + x =~= le(a.len(), 8) + (a + x));
    assert(octets_wire(b) + y =~= le(b.len(), 8) + (b + y));
    lemma_le_split(a.len(), b.len(), 8, a + x, b + y);
    let n = a.len() as int;
    assert((a + x).take(n) =~= a);
    assert((b + y).take(n) =~= b);
    assert((a + x).skip(n) =~= x);
    assert((b + y).skip(n) =~= y);
}

proof fn lemma_text_split(a: Seq<char>, b: Seq<char>, x: Seq<u8>, y: Seq<u8>)
    requires
        encode_utf8(a).len() <= u64::MAX,
        encode_utf8(b).len() <= u64::MAX,
        text_wire(a) + x == text_wire(b) + y,
    ensures
        a == b,
        x == y,
{
    lemma_octets_split(encode_utf8(a), encode_utf8(b), x, y);
    encode_utf8_decode_utf8(a);
    encode_utf8_decode_utf8(b);
}

proof fn lemma_bool_split(a: bool, b: bool, x: Seq<u8>, y: Seq<u8>)
    requires
        bool_wire(a) + x == bool_wire(b) + y,
    ensures
        a == b,
        x == y,
{
    let l = bool_wire(a) + x;
    let r = bool_wire(b) + y;
    assert(l[0] == r[0]);
    assert(l.skip(1) =~= x);
    assert(r.skip(1) =~= y);
}

proof fn lemma_opt_u16_split(a: Option<u16>, b: Option<u16>, x: Seq<u8>, y: Seq<u8>)
    requires
        opt_u16_wire(a) + x == opt_u16_wire(b) + y,
    ensures
        a == b,
        x == y,
{
    lemma_pow256_values();
    let l = opt_u16_wire(a) + x;
    let r = opt_u16_wire(b) + y;
    assert(l[0] == r[0]);
    if a is Some {
        assert(l.skip(1) =~= le(a->0 as nat, 2) + x);
        assert(r.skip(1) =~= le(b->0 as nat, 2) + y);
        lemma_le_split(a->0 as nat, b->0 as nat, 2, x, y);
    } else {
        assert(l.skip(1) =~= x);
        assert(r.skip(1) =~= y);
    }
}

proof fn lemma_opt_u8_split(a: Option<u8>, b: Option<u8>, x: Seq<u8>, y: Seq<u8>)
    requires
        opt_u8_wire(a) + x == opt_u8_wire(b) + y,
    ensures
        a == b,
        x == y,
{
    let l = opt_u8_wire(a) + x;
    let r = opt_u8_wire(b) + y;
    assert(l[0] == r[0]);
    if a is Some {
        assert(l[1] == r[1]);
        assert(l.skip(2) =~= x);
        assert(r.skip(2) =~= y);
    } else {
        assert(l.skip(1) =~= x);
        assert(r.skip(1) =~= y);
    }
}

proof fn lemma_opt_octets_split(a: Option<Seq<u8>>, b: Option<Seq<u8>>, x: Seq<u8>, y: Seq<u8>)
    requires
        a is Some ==> a->0.len() <= u64::MAX,
        b is Some ==> b->0.len() <= u64::MAX,
        opt_octets_wire(a) + x == opt_octets_wire(b) + y,
    ensures
        a == b,
        x == y,
{
    let l = opt_octets_wire(a) + x;
    let r = opt_octets_wire(b) + y;
    assert(l[0] == r[0]);
    if a is Some {
        assert(l.skip(1) =~= octets_wire(a->0) + x);
        assert(r.skip(1) =~= octets_wire(b->0) + y);
        lemma_octets_split(a->0, b->0, x, y);
    } else {
        assert(l.skip(1) =~= x);
        assert(r.skip(1) =~= y);
    }
}

/// The part of an entry's octets from the subnet on.
spec fn tail_wire(e: PersistedView) -> Seq<u8> {
    opt_u16_wire(e.ecs_family) + (opt_u8_wire(e.ecs_source_prefix) + (opt_u8_wire(
        e.ecs_scope_prefix,
    ) + (opt_octets_wire(e.ecs_network) + (octets_wire(e.resp_bytes) + (le(
        e.cache_age_ms as nat,
        8,
    ) + (le(e.last_access_age_ms as nat, 8) + (le(e.ttl as nat, 4) + le(
        e.remaining_ttl_ms as nat,
        8,
    ))))))))
}

proof fn lemma_tail_split(a: PersistedView, b: PersistedView, x: Seq<u8>, y: Seq<u8>, limit: usize)
    requires
        entry_fits(a, limit),
        entry_fits(b, limit),
        tail_wire(a) + x == tail_wire(b) + y,
    ensures
        a.ecs_family == b.ecs_family,
        a.ecs_source_prefix == b.ecs_source_prefix,
        a.ecs_scope_prefix == b.ecs_scope_prefix,
        a.ecs_network == b.ecs_network,
        a.resp_bytes == b.resp_bytes,
        a.cache_age_ms == b.cache_age_ms,
        a.last_access_age_ms == b.last_access_age_ms,
        a.ttl == b.ttl,
        a.remaining_ttl_ms == b.remaining_ttl_ms,
        x == y,
{
    lemma_pow256_values();
    let a8 = le(a.remaining_ttl_ms as nat, 8);
    let b8 = le(b.remaining_ttl_ms as nat, 8);
    let a7 = le(a.ttl as nat, 4) + a8;
    let b7 = le(b.ttl as nat, 4) + b8;
    let a6 = le(a.last_access_age_ms as nat, 8) + a7;
    let b6 = le(b.last_access_age_ms as nat, 8) + b7;
    let a5 = le(a.cache_age_ms as nat, 8) + a6;
    let b5 = le(b.cache_age_ms as nat, 8) + b6;
    let a4 = octets_wire(a.resp_bytes) + a5;
    let b4 = octets_wire(b.resp_bytes) + b5;
    let a3 = opt_octets_wire(a.ecs_network) + a4;
    let b3 = opt_octets_wire(b.ecs_network) + b4;
    let a2 = opt_u8_wire(a.ecs_scope_prefix) + a3;
    let b2 = opt_u8_wire(b.ecs_scope_prefix) + b3;
    let a1 = opt_u8_wire(a.ecs_source_prefix) + a2;
    let b1 = opt_u8_wire(b.ecs_source_prefix) + b2;
    lemma_assoc(opt_u16_wire(a.ecs_family), a1, x);
    lemma_assoc(opt_u16_wire(b.ecs_family), b1, y);
    lemma_opt_u16_split(a.ecs_family, b.ecs_family, a1 + x, b1 + y);
    lemma_assoc(opt_u8_wire(a.ecs_source_prefix), a2, x);
    lemma_assoc(opt_u8_wire(b.ecs_source_prefix), b2, y);
    lemma_opt_u8_split(a.ecs_source_prefix, b.ecs_source_prefix, a2 + x, b2 + y);
    lemma_assoc(opt_u8_wire(a.ecs_scope_prefix), a3, x);
    lemma_assoc(opt_u8_wire(b.ecs_scope_prefix), b3, y);
    lemma_opt_u8_split(a.ecs_scope_prefix, b.ecs_scope_prefix, a3 + x, b3 + y);
    lemma_assoc(opt_octets_wire(a.ecs_network), a4, x);
    lemma_assoc(opt_octets_wire(b.ecs_network), b4, y);
    lemma_opt_octets_split(a.ecs_network, b.ecs_network, a4 + x, b4 + y);
    lemma_assoc(octets_wire(a.resp_bytes), a5, x);
    lemma_assoc(octets_wire(b.resp_bytes), b5, y);
    lemma_octets_split(a.resp_bytes, b.resp_bytes, a5 + x, b5 + y);
    lemma_assoc(le(a.cache_age_ms as nat, 8), a6, x);
    lemma_assoc(le(b.cache_age_ms as nat, 8), b6, y);
    lemma_le_split(a.cache_age_ms as nat, b.cache_age_ms as nat, 8, a6 + x, b6 + y);
    lemma_assoc(le(a.last_access_age_ms as nat, 8), a7, x);
    lemma_assoc(le(b.last_access_age_ms as nat, 8), b7, y);
    lemma_le_split(
        a.last_access_age_ms as nat,
        b.last_access_age_ms as nat,
        8,
        a7 + x,
        b7 + y,
    );
    lemma_assoc(le(a.ttl as nat, 4), a8, x);
    lemma_assoc(le(b.ttl as nat, 4), b8, y);
    lemma_le_split(a.ttl as nat, b.ttl as nat, 4, a8 + x, b8 + y);
    lemma_le_split(a.remaining_ttl_ms as nat, b.remaining_ttl_ms as nat, 8, x, y);
}

/// The octets of an entry determine it, and where it ends.
pub proof fn lemma_entry_split(a: PersistedView, b: PersistedView, x: Seq<u8>, y: Seq<u8>, limit: usize)
    requires
        entry_fits(a, limit),
        entry_fits(b, limit),
        entry_wire(a) + x == entry_wire(b) + y,
    ensures
        a == b,
        x == y,
{
    reveal(entry_wire);
    lemma_pow256_values();
    let a5 = tail_wire(a);
    let b5 = tail_wire(b);
    let a4 = bool_wire(a.cd_bit) + a5;
    let b4 = bool_wire(b.cd_bit) + b5;
    let a3 = bool_wire(a.do_bit) + a4;
    let b3 = bool_wire(b.do_bit) + b4;
    let a2 = le(a.dns_class as nat, 2) + a3;
    let b2 = le(b.dns_class as nat, 2) + b3;
    let a1 = le(a.record_type as nat, 2) + a2;
    let b1 = le(b.record_type as nat, 2) + b2;
    lemma_assoc(text_wire(a.domain), a1, x);
    lemma_assoc(text_wire(b.domain), b1, y);
    lemma_text_split(a.domain, b.domain, a1 + x, b1 + y);
    lemma_assoc(le(a.record_type as nat, 2), a2, x);
    lemma_assoc(le(b.record_type as nat, 2), b2, y);
    lemma_le_split(a.record_type as nat, b.record_type as nat, 2, a2 + x, b2 + y);
    lemma_assoc(le(a.dns_class as nat, 2), a3, x);
    lemma_assoc(le(b.dns_class as nat, 2), b3, y);
    lemma_le_split(a.dns_class as nat, b.dns_class as nat, 2, a3 + x, b3 + y);
    lemma_assoc(bool_wire(a.do_bit), a4, x);
    lemma_assoc(bool_wire(b.do_bit), b4, y);
    lemma_bool_split(a.do_bit, b.do_bit, a4 + x, b4 + y);
    lemma_assoc(bool_wire(a.cd_bit), a5, x);
    lemma_assoc(bool_wire(b.cd_bit), b5, y);
    lemma_bool_split(a.cd_bit, b.cd_bit, a5 + x, b5 + y);
    lemma_tail_split(a, b, x, y, limit);
}

/// The octets of an entry determine it.
pub proof fn lemma_entry_wire_injective(a: PersistedView, b: PersistedView, limit: usize)
    requires
        entry_fits(a, limit),
        entry_fits(b, limit),
        entry_wire(a) == entry_wire(b),
    ensures
        a == b,
{
    lemma_entry_split(a, b, Seq::empty(), Seq::empty(), limit);
}

proof fn lemma_entries_split(
    a: Seq<PersistedView>,
    b: Seq<PersistedView>,
    x: Seq<u8>,
    y: Seq<u8>,
    limit: usize,
)
    requires
        a.len() == b.len(),
        forall|i: int| 0 <= i < a.len() ==> entry_fits(#[trigger] a[i], limit),
        forall|i: int| 0 <= i < b.len() ==> entry_fits(#[trigger] b[i], limit),
        entries_wire(a) + x == entries_wire(b) + y,
    ensures
        a == b,
        x == y,
    decreases a.len(),
{
    if a.len() > 0 {
        let a1 = entries_wire(a.skip(1));
        let b1 = entries_wire(b.skip(1));
        lemma_assoc(entry_wire(a[0]), a1, x);
        lemma_assoc(entry_wire(b[0]), b1, y);
        lemma_entry_split(a[0], b[0], a1 + x, b1 + y, limit);
        lemma_entries_split(a.skip(1), b.skip(1), x, y, limit);
        assert forall|i: int| 0 <= i < a.len() implies a[i] == b[i] by {
            if i > 0 {
                assert(a.skip(1)[i - 1] == b.skip(1)[i - 1]);
            }
        }
    } else {
        assert(entries_wire(a) + x =~= x);
        assert(entries_wire(b) + y =~= y);
    }
    assert(a =~= b);
}

/// The octets of a dump that is one value determine it, whatever follows them, and what
/// follows.
pub proof fn lemma_legacy_split(a: LegacyView, b: LegacyView, x: Seq<u8>, y: Seq<u8>, limit: usize)
    requires
        legacy_fits(a.3, limit),
        legacy_fits(b.3, limit),
        legacy_octets(a) + x == legacy_octets(b) + y,
    ensures
        a == b,
        x == y,
{
    lemma_pow256_values();
    lemma_legacy_len(a.3, limit);
    lemma_legacy_len(b.3, limit);
    let a3 = le(a.3.len(), 8) + (entries_wire(a.3) + x);
    let b3 = le(b.3.len(), 8) + (entries_wire(b.3) + y);
    let a2 = le(a.2 as nat, 8) + a3;
    let b2 = le(b.2 as nat, 8) + b3;
    let a1 = le(a.1 as nat, 4) + a2;
    let b1 = le(b.1 as nat, 4) + b2;
    assert(legacy_octets(a) + x =~= le(a.0 as nat, 8) + a1);
    assert(legacy_octets(b) + y =~= le(b.0 as nat, 8) + b1);
    lemma_le_split(a.0 as nat, b.0 as nat, 8, a1, b1);
    lemma_le_split(a.1 as nat, b.1 as nat, 4, a2, b2);
    lemma_le_split(a.2 as nat, b.2 as nat, 8, a3, b3);
    lemma_le_split(a.3.len(), b.3.len(), 8, entries_wire(a.3) + x, entries_wire(b.3) + y);
    lemma_entries_split(a.3, b.3, x, y, limit);
}

/// The octets of a dump that is one value determine it.
pub proof fn lemma_legacy_injective(a: LegacyView, b: LegacyView, limit: usize)
    requires
        legacy_fits(a.3, limit),
        legacy_fits(b.3, limit),
        legacy_octets(a) == legacy_octets(b),
    ensures
        a == b,
{
    lemma_legacy_split(a, b, Seq::empty(), Seq::empty(), limit);
}

pub proof fn lemma_legacy_len(entries: Seq<PersistedView>, limit: usize)
    requires
        legacy_fits(entries, limit),
    ensures
        entries.len() <= limit,
{
    assert(entries.len() <= entries.len() * slot_size()) by (nonlinear_arith)
        requires
            slot_size() >= 1,
    ;
}

/// The lengths of the fixed parts.
pub proof fn lemma_wire_lens(h: HeaderTuple, magic: u64, version: u32, n: u64)
    ensures
        header_wire(h).len() == 28,
        prefix_wire(magic, version).len() == 12,
        le(n as nat, 8).len() == 8,
        header_wire(h).take(12) == prefix_wire(h.0, h.1),
{
    lemma_le_len(h.0 as nat, 8);
    lemma_le_len(h.1 as nat, 4);
    lemma_le_len(h.2 as nat, 8);
    lemma_le_len(h.3 as nat, 8);
    lemma_le_len(magic as nat, 8);
    lemma_le_len(version as nat, 4);
    lemma_le_len(n as nat, 8);
    assert(header_wire(h).take(12) =~= prefix_wire(h.0, h.1));
}

/// The number of octets of an entry.
pub proof fn lemma_entry_len(e: PersistedView)
    ensures
        entry_wire(e).len() == 8 + encode_utf8(e.domain).len() + 6 + (if e.ecs_family is Some {
            3int
        } else {
            1
        }) + (if e.ecs_source_prefix is Some {
            2int
        } else {
            1
        }) + (if e.ecs_scope_prefix is Some {
            2int
        } else {
            1
        }) + (match e.ecs_network {
            Some(n) => 9 + n.len(),
            None => 1,
        }) + 8 + e.resp_bytes.len() + 28,
{
    reveal(entry_wire);
    lemma_le_len(encode_utf8(e.domain).len(), 8);
    lemma_le_len(e.record_type as nat, 2);
    lemma_le_len(e.dns_class as nat, 2);
    if e.ecs_family is Some {
        lemma_le_len(e.ecs_family->0 as nat, 2);
    }
    if e.ecs_network is Some {
        lemma_le_len(e.ecs_network->0.len(), 8);
    }
    lemma_le_len(e.resp_bytes.len(), 8);
    lemma_le_len(e.cache_age_ms as nat, 8);
    lemma_le_len(e.last_access_age_ms as nat, 8);
    lemma_le_len(e.ttl as nat, 4);
    lemma_le_len(e.remaining_ttl_ms as nat, 8);
}

} // verus!
