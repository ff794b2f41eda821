//! Pages of cache entries.

use vstd::prelude::*;
use vstd::utf8::encode_utf8;

use crate::cache::entry_id::{base64_text, encode_cache_entry_id, key_json};
use crate::cache::item::{later, since, CacheItem, CacheItemView};
use crate::cache::key::{CacheKey, CacheKeyView};
use crate::cache::query::{
    asked_for, cache_entry_matches_query, in_order, key_before, key_rank, law_key_order_total,
    lemma_place_between, rank_before, rank_of, text_view, CacheEntriesQuery, QueryView,
};
use crate::cache::store::{entries_of, slot_view, CacheMap, DnsCacheStore, StoreView};
use crate::proto::message::{DNSClass, RData, RDataView, Rcode, Record, RecordType, RecordView};
use crate::proto::name::fqdn_text;
use crate::text::{between, concat, decimal, decimal_of};
use crate::ttl_cache::{key_views, slot_of, Slot, TtlEntry};

verus! {

/// The name of a record type.
pub open spec fn type_text(t: RecordType) -> Seq<char> {
    match t {
        RecordType::A => "A"@,
        RecordType::NS => "NS"@,
        RecordType::CNAME => "CNAME"@,
        RecordType::SOA => "SOA"@,
        RecordType::PTR => "PTR"@,
        RecordType::MX => "MX"@,
        RecordType::TXT => "TXT"@,
        RecordType::AAAA => "AAAA"@,
        RecordType::SRV => "SRV"@,
        RecordType::OPT => "OPT"@,
        RecordType::SVCB => "SVCB"@,
        RecordType::HTTPS => "HTTPS"@,
        RecordType::TSIG => "TSIG"@,
        RecordType::ANY => "ANY"@,
        RecordType::Unknown(v) => "TYPE"@ + decimal(v as nat),
    }
}

/// The name of a record type.
pub fn record_type_name(record_type: RecordType) -> (r: String)
    ensures
        r@ == type_text(record_type),
{
    match record_type {
        RecordType::A => "A".to_owned(),
        RecordType::NS => "NS".to_owned(),
        RecordType::CNAME => "CNAME".to_owned(),
        RecordType::SOA => "SOA".to_owned(),
        RecordType::PTR => "PTR".to_owned(),
        RecordType::MX => "MX".to_owned(),
        RecordType::TXT => "TXT".to_owned(),
        RecordType::AAAA => "AAAA".to_owned(),
        RecordType::SRV => "SRV".to_owned(),
        RecordType::OPT => "OPT".to_owned(),
        RecordType::SVCB => "SVCB".to_owned(),
        RecordType::HTTPS => "HTTPS".to_owned(),
        RecordType::TSIG => "TSIG".to_owned(),
        RecordType::ANY => "ANY".to_owned(),
        RecordType::Unknown(v) => concat("TYPE", decimal_of(v as u64).as_str()),
    }
}

/// The name of a class.
pub open spec fn class_text(c: DNSClass) -> Seq<char> {
    match c {
        DNSClass::IN => "IN"@,
        DNSClass::CH => "CH"@,
        DNSClass::HS => "HS"@,
        DNSClass::NONE => "NONE"@,
        DNSClass::ANY => "ANY"@,
        DNSClass::OPT(v) => "OPT("@ + decimal(v as nat) + ")"@,
        DNSClass::Unknown(v) => "CLASS"@ + decimal(v as nat),
    }
}

/// The name of a class.
pub fn dns_class_name(class: DNSClass) -> (r: String)
    ensures
        r@ == class_text(class),
{
    match class {
        DNSClass::IN => "IN".to_owned(),
        DNSClass::CH => "CH".to_owned(),
        DNSClass::HS => "HS".to_owned(),
        DNSClass::NONE => "NONE".to_owned(),
        DNSClass::ANY => "ANY".to_owned(),
        DNSClass::OPT(v) => between("OPT(", decimal_of(v as u64).as_str(), ")"),
        DNSClass::Unknown(v) => concat("CLASS", decimal_of(v as u64).as_str()),
    }
}

/// The name of a response code.
pub open spec fn rcode_text(c: Rcode) -> Seq<char> {
    match c {
        Rcode::NoError => "NoError"@,
        Rcode::FormErr => "FormErr"@,
        Rcode::ServFail => "ServFail"@,
        Rcode::NXDomain => "NXDomain"@,
        Rcode::NotImp => "NotImp"@,
        Rcode::Refused => "Refused"@,
        Rcode::Unknown(v) => "RCODE"@ + decimal(v as nat),
    }
}

/// The name of a response code.
pub fn rcode_name(rcode: Rcode) -> (r: String)
    ensures
        r@ == rcode_text(rcode),
{
    match rcode {
        Rcode::NoError => "NoError".to_owned(),
        Rcode::FormErr => "FormErr".to_owned(),
        Rcode::ServFail => "ServFail".to_owned(),
        Rcode::NXDomain => "NXDomain".to_owned(),
        Rcode::NotImp => "NotImp".to_owned(),
        Rcode::Refused => "Refused".to_owned(),
        Rcode::Unknown(v) => concat("RCODE", decimal_of(v as u64).as_str()),
    }
}

/// A time of the process clock as wall-clock time.
pub open spec fn unix_time(elapsed_ms: u64, now_ms: u64, now_unix_ms: u64) -> u64 {
    if elapsed_ms <= now_ms {
        since(now_unix_ms, (now_ms - elapsed_ms) as u64)
    } else {
        later(now_unix_ms, elapsed_ms - now_ms)
    }
}

/// A time of the process clock as Unix time.
pub fn elapsed_to_unix_ms(elapsed_ms: u64, now_ms: u64, now_unix_ms: u64) -> (r: u64)
    ensures
        r == unix_time(elapsed_ms, now_ms, now_unix_ms),
{
    if elapsed_ms <= now_ms {
        now_unix_ms.saturating_sub(now_ms - elapsed_ms)
    } else {
        now_unix_ms.saturating_add(elapsed_ms - now_ms)
    }
}

pub open spec fn hex_char(v: int) -> char {
    if v < 10 {
        ((48 + v) as u32) as char
    } else {
        ((87 + v) as u32) as char
    }
}

/// Octets in hexadecimal digits.
pub open spec fn hex_text(v: Seq<u8>) -> Seq<char>
    decreases v.len(),
{
    if v.len() == 0 {
        Seq::empty()
    } else {
        hex_text(v.drop_last()).push(hex_char((v.last() / 16) as int)).push(
            hex_char((v.last() % 16) as int),
        )
    }
}

fn hex_char_of(v: u8) -> (r: char)
    requires
        v < 16,
    ensures
        r == hex_char(v as int),
{
    if v < 10 {
        (48 + v) as char
    } else {
        (87 + v) as char
    }
}

/// The first octets of an array in hexadecimal digits.
pub fn hex_of_octets(v: &[u8], n: usize) -> (r: String)
    requires
        n <= v@.len(),
    ensures
        r@ == hex_text(v@.take(n as int)),
{
    let mut out = String::new();
    let mut i: usize = 0;
    assert(out@ =~= hex_text(v@.take(0)));
    while i < n
        invariant
            i <= n <= v@.len(),
            out@ == hex_text(v@.take(i as int)),
        decreases n - i,
    {
        let b: u8 = v[i];
        out.push(hex_char_of(b / 16));
        out.push(hex_char_of(b % 16));
        assert(v@.take(i + 1).drop_last() =~= v@.take(i as int));
        i = i + 1;
    }
    out
}

/// A record for display.
#[derive(Debug, PartialEq, Eq)]
pub struct CacheRecordRow {
    pub name: String,
    pub class: String,
    pub ttl: u32,
    pub rr_type: String,
    pub data: RData,
}

/// The mathematical content of a [`CacheRecordRow`].
pub struct RecordRowView {
    pub name: Seq<char>,
    pub class: Seq<char>,
    pub ttl: u32,
    pub rr_type: Seq<char>,
    pub data: RDataView,
}

impl View for CacheRecordRow {
    type V = RecordRowView;

    open spec fn view(&self) -> RecordRowView {
        RecordRowView {
            name: self.name@,
            class: self.class@,
            ttl: self.ttl,
            rr_type: self.rr_type@,
            data: self.data@,
        }
    }
}

pub open spec fn record_row(r: RecordView) -> RecordRowView {
    RecordRowView {
        name: fqdn_text(r.name),
        class: class_text(r.class),
        ttl: r.ttl,
        rr_type: type_text(r.data.rtype()),
        data: r.data,
    }
}

pub open spec fn record_rows(v: Seq<RecordView>) -> Seq<RecordRowView> {
    Seq::new(v.len(), |i: int| record_row(v[i]))
}

pub open spec fn record_row_views(v: Seq<CacheRecordRow>) -> Seq<RecordRowView> {
    Seq::new(v.len(), |i: int| v[i]@)
}

/// A record for display.
pub fn cache_record_row(record: &Record) -> (r: CacheRecordRow)
    ensures
        r@ == record_row(record@),
{
    CacheRecordRow {
        name: record.name.to_fqdn(),
        class: dns_class_name(record.class),
        ttl: record.ttl,
        rr_type: record_type_name(record.data.rtype()),
        data: record.data.copy(),
    }
}

fn rows_of_records(records: &Vec<Record>) -> (r: Vec<CacheRecordRow>)
    ensures
        record_row_views(r@) == record_rows(crate::proto::message::record_views(records@)),
{
    let mut out: Vec<CacheRecordRow> = Vec::new();
    let mut i: usize = 0;
    while i < records.len()
        invariant
            i <= records@.len(),
            out@.len() == i,
            forall|j: int| 0 <= j < i ==> (#[trigger] out@[j])@ == record_row(records@[j]@),
        decreases records@.len() - i,
    {
        out.push(cache_record_row(&records[i]));
        i = i + 1;
    }
    assert(record_row_views(out@) =~= record_rows(crate::proto::message::record_views(records@)));
    out
}

/// A subnet for display.
#[derive(Debug, PartialEq, Eq)]
pub struct CacheEntryEcsRow {
    pub family: u16,
    pub source_prefix: u8,
    pub scope_prefix: u8,
    pub network_hex: String,
}

/// The mathematical content of a [`CacheEntryEcsRow`].
pub struct EcsRowView {
    pub family: u16,
    pub source_prefix: u8,
    pub scope_prefix: u8,
    pub network_hex: Seq<char>,
}

pub open spec fn ecs_row_view(e: Option<CacheEntryEcsRow>) -> Option<EcsRowView> {
    match e {
        Some(e) => Some(
            EcsRowView {
                family: e.family,
                source_prefix: e.source_prefix,
                scope_prefix: e.scope_prefix,
                network_hex: e.network_hex@,
            },
        ),
        None => None,
    }
}

/// An entry for display.
#[derive(Debug, PartialEq, Eq)]
pub struct CacheEntryRow {
    pub id: String,
    pub domain: String,
    pub record_type: String,
    pub dns_class: String,
    pub rcode: String,
    pub answer_count: u16,
    pub authority_count: u16,
    pub additional_count: u16,
    pub ttl: u32,
    pub remaining_ttl: u32,
    pub fresh: bool,
    pub stale: bool,
    pub cache_time_ms: u64,
    pub expire_at_ms: u64,
    pub last_access_ms: u64,
    pub cache_time_unix_ms: u64,
    pub expire_at_unix_ms: u64,
    pub last_access_unix_ms: u64,
    pub do_bit: bool,
    pub cd_bit: bool,
    pub answers: Vec<CacheRecordRow>,
    pub authorities: Vec<CacheRecordRow>,
    pub additionals: Vec<CacheRecordRow>,
    pub signature: Vec<CacheRecordRow>,
    pub ecs_scope: Option<CacheEntryEcsRow>,
}

/// The mathematical content of a [`CacheEntryRow`].
pub struct EntryRowView {
    pub id: Seq<char>,
    pub domain: Seq<char>,
    pub record_type: Seq<char>,
    pub dns_class: Seq<char>,
    pub rcode: Seq<char>,
    pub answer_count: u16,
    pub authority_count: u16,
    pub additional_count: u16,
    pub ttl: u32,
    pub remaining_ttl: u32,
    pub fresh: bool,
    pub stale: bool,
    pub cache_time_ms: u64,
    pub expire_at_ms: u64,
    pub last_access_ms: u64,
    pub cache_time_unix_ms: u64,
    pub expire_at_unix_ms: u64,
    pub last_access_unix_ms: u64,
    pub do_bit: bool,
    pub cd_bit: bool,
    pub answers: Seq<RecordRowView>,
    pub authorities: Seq<RecordRowView>,
    pub additionals: Seq<RecordRowView>,
    pub signature: Seq<RecordRowView>,
    pub ecs_scope: Option<EcsRowView>,
}

impl View for CacheEntryRow {
    type V = EntryRowView;

    open spec fn view(&self) -> EntryRowView {
        EntryRowView {
            id: self.id@,
            domain: self.domain@,
            record_type: self.record_type@,
            dns_class: self.dns_class@,
            rcode: self.rcode@,
            answer_count: self.answer_count,
            authority_count: self.authority_count,
            additional_count: self.additional_count,
            ttl: self.ttl,
            remaining_ttl: self.remaining_ttl,
            fresh: self.fresh,
            stale: self.stale,
            cache_time_ms: self.cache_time_ms,
            expire_at_ms: self.expire_at_ms,
            last_access_ms: self.last_access_ms,
            cache_time_unix_ms: self.cache_time_unix_ms,
            expire_at_unix_ms: self.expire_at_unix_ms,
            last_access_unix_ms: self.last_access_unix_ms,
            do_bit: self.do_bit,
            cd_bit: self.cd_bit,
            answers: record_row_views(self.answers@),
            authorities: record_row_views(self.authorities@),
            additionals: record_row_views(self.additionals@),
            signature: record_row_views(self.signature@),
            ecs_scope: ecs_row_view(self.ecs_scope),
        }
    }
}

/// The text that names a key, where there is one.
pub open spec fn key_text(k: CacheKeyView) -> Result<Seq<char>, Seq<char>> {
    let octets = encode_utf8(key_json(k));
    if octets.len() <= isize::MAX / 2 {
        Ok(base64_text(octets))
    } else {
        Err("failed to encode cache entry id: too long"@)
    }
}

/// An entry for display. One with an impossible subnet has no row.
pub open spec fn entry_row(
    k: CacheKeyView,
    slot: Slot<CacheItemView>,
    now: u64,
    now_unix_ms: u64,
) -> Result<EntryRowView, Seq<char>> {
    let item = slot.value;
    let fresh = now < item.fresh_until_ms;
    if k.ecs_scope is Some && k.ecs_scope->0.network_len > 16 {
        Err("cache entry contains invalid ECS network length"@)
    } else {
        match key_text(k) {
            Err(e) => Err(e),
            Ok(id) => Ok(
                EntryRowView {
                    id,
                    domain: k.domain,
                    record_type: type_text(k.record_type),
                    dns_class: class_text(k.dns_class),
                    rcode: rcode_text(item.resp.rcode),
                    answer_count: item.resp.answers.len() as u16,
                    authority_count: item.resp.authorities.len() as u16,
                    additional_count: item.resp.additionals.len() as u16,
                    ttl: item.ttl,
                    remaining_ttl: (since(slot.expire_at_ms, now) / 1000) as u32,
                    fresh,
                    stale: !fresh && now < slot.expire_at_ms,
                    cache_time_ms: slot.cache_time_ms,
                    expire_at_ms: slot.expire_at_ms,
                    last_access_ms: slot.last_access_ms,
                    cache_time_unix_ms: unix_time(slot.cache_time_ms, now, now_unix_ms),
                    expire_at_unix_ms: unix_time(slot.expire_at_ms, now, now_unix_ms),
                    last_access_unix_ms: unix_time(slot.last_access_ms, now, now_unix_ms),
                    do_bit: k.do_bit,
                    cd_bit: k.cd_bit,
                    answers: record_rows(item.resp.answers),
                    authorities: record_rows(item.resp.authorities),
                    additionals: record_rows(item.resp.additionals),
                    signature: record_rows(item.resp.signature),
                    ecs_scope: match k.ecs_scope {
                        Some(e) => Some(
                            EcsRowView {
                                family: e.family,
                                source_prefix: e.source_prefix,
                                scope_prefix: e.scope_prefix,
                                network_hex: hex_text(e.significant()),
                            },
                        ),
                        None => None,
                    },
                },
            ),
        }
    }
}

/// An entry for display.
pub fn cache_entry_row(
    key: &CacheKey,
    entry: &TtlEntry<CacheKey, CacheItem>,
    now: u64,
    now_unix_ms: u64,
) -> (r: Result<CacheEntryRow, String>)
    ensures
        ({
            let row = entry_row(key@, slot_view(slot_of(*entry)), now, now_unix_ms);
            match r {
                Ok(x) => row == Ok::<EntryRowView, Seq<char>>(x@),
                Err(e) => row == Err::<EntryRowView, Seq<char>>(e@),
            }
        }),
{
    let item = &entry.value;
    let fresh = now < item.fresh_until_ms;
    let stale = !fresh && now < entry.expire_at_ms;
    let ecs_scope = match &key.ecs_scope {
        Some(ecs) => {
            if ecs.network_len > 16 {
                return Err("cache entry contains invalid ECS network length".to_owned());
            }
            Some(
                CacheEntryEcsRow {
                    family: ecs.family,
                    source_prefix: ecs.source_prefix,
                    scope_prefix: ecs.scope_prefix,
                    network_hex: hex_of_octets(ecs.network.as_slice(), ecs.network_len as usize),
                },
            )
        },
        None => None,
    };
    let id = match encode_cache_entry_id(key) {
        Ok(id) => id,
        Err(e) => return Err(e),
    };
    let remaining: u64 = entry.expire_at_ms.saturating_sub(now) / 1000;
    Ok(
        CacheEntryRow {
            id,
            domain: key.domain.clone(),
            record_type: record_type_name(key.record_type),
            dns_class: dns_class_name(key.dns_class),
            rcode: rcode_name(item.resp.rcode),
            answer_count: item.resp.answers.len() as u16,
            authority_count: item.resp.authorities.len() as u16,
            additional_count: item.resp.additionals.len() as u16,
            ttl: item.ttl,
            remaining_ttl: remaining as u32,
            fresh,
            stale,
            cache_time_ms: entry.cache_time_ms,
            expire_at_ms: entry.expire_at_ms,
            last_access_ms: entry.last_access_ms,
            cache_time_unix_ms: elapsed_to_unix_ms(entry.cache_time_ms, now, now_unix_ms),
            expire_at_unix_ms: elapsed_to_unix_ms(entry.expire_at_ms, now, now_unix_ms),
            last_access_unix_ms: elapsed_to_unix_ms(entry.last_access_ms, now, now_unix_ms),
            do_bit: key.do_bit,
            cd_bit: key.cd_bit,
            answers: rows_of_records(&item.resp.answers),
            authorities: rows_of_records(&item.resp.authorities),
            additionals: rows_of_records(&item.resp.additionals),
            signature: rows_of_records(&item.resp.signature),
            ecs_scope,
        },
    )
}

/// Whether some keys are the first of a set: they stand in order, and whatever is left
/// out comes before none of them and finds no place.
pub open spec fn first_of(all: Set<CacheKeyView>, limit: int, keys: Seq<CacheKeyView>) -> bool {
    &&& keys.no_duplicates()
    &&& forall|i: int| 0 <= i < keys.len() ==> all.contains(#[trigger] keys[i])
    &&& in_order(keys)
    &&& keys.len() <= limit
    &&& forall|k: CacheKeyView| #[trigger]
        all.contains(k) && !keys.contains(k) ==> left_out(k, limit, keys)
}

pub open spec fn left_out(k: CacheKeyView, limit: int, keys: Seq<CacheKeyView>) -> bool {
    keys.len() == limit && forall|i: int| 0 <= i < keys.len() ==> !key_before(k, #[trigger] keys[i])
}

proof fn lemma_first_of_grows(
    all: Set<CacheKeyView>,
    limit: int,
    keys: Seq<CacheKeyView>,
    k: CacheKeyView,
    at: int,
)
    requires
        first_of(all, limit, keys),
        !all.contains(k),
        limit > 0,
        0 <= at <= keys.len(),
        forall|i: int| 0 <= i < at ==> !key_before(k, #[trigger] keys[i]),
        forall|i: int| at <= i < keys.len() ==> key_before(k, #[trigger] keys[i]),
        at < limit,
    ensures
        ({
            let wide = keys.insert(at, k);
            first_of(
                all.insert(k),
                limit,
                if wide.len() > limit {
                    wide.drop_last()
                } else {
                    wide
                },
            )
        }),
{
    let wide = keys.insert(at, k);
    let cut = if wide.len() > limit {
        wide.drop_last()
    } else {
        wide
    };
    let more = all.insert(k);
    assert(!keys.contains(k));
    assert forall|i: int, j: int| 0 <= i < j < wide.len() implies wide[i] != wide[j] && !key_before(
        #[trigger] wide[j],
        #[trigger] wide[i],
    ) by {
        let p = if i < at {
            i
        } else {
            i - 1
        };
        let q = if j < at {
            j
        } else {
            j - 1
        };
        if i == at {
            assert(wide[j] == keys[q]);
            assert(key_before(k, keys[q]));
            law_key_order_total(k, keys[q]);
        } else if j == at {
            assert(wide[i] == keys[p]);
        } else {
            assert(wide[i] == keys[p] && wide[j] == keys[q]);
        }
    }
    assert forall|i: int| 0 <= i < cut.len() implies more.contains(#[trigger] cut[i]) by {
        if i != at {
            let p = if i < at {
                i
            } else {
                i - 1
            };
            assert(cut[i] == keys[p]);
        }
    }
    assert forall|x: CacheKeyView| #[trigger] more.contains(x) && !cut.contains(x) implies left_out(
        x,
        limit,
        cut,
    ) by {
        assert(cut[at] == k || at == cut.len());
        if x == k {
            assert(wide[at] == k);
            if at < cut.len() {
                assert(cut.contains(k));
            }
        }
        assert(x != k);
        if keys.contains(x) {
            let i = choose|i: int| 0 <= i < keys.len() && keys[i] == x;
            let w = if i < at {
                i
            } else {
                i + 1
            };
            assert(wide[w] == x);
            if w < cut.len() {
                assert(cut[w] == x);
            }
            assert(w == wide.len() - 1);
            assert forall|j: int| 0 <= j < cut.len() implies !key_before(x, #[trigger] cut[j]) by {
                assert(cut[j] == wide[j]);
                assert(!key_before(wide[w], wide[j]));
            }
        } else {
            assert(all.contains(x));
            assert(left_out(x, limit, keys));
            assert forall|j: int| 0 <= j < cut.len() implies !key_before(x, #[trigger] cut[j]) by {
                if j == at {
                    if key_before(x, k) {
                        assert(at < keys.len());
                        assert(key_before(k, keys[at]));
                        crate::cache::query::law_key_order_transitive(x, k, keys[at]);
                    }
                } else {
                    let p = if j < at {
                        j
                    } else {
                        j - 1
                    };
                    assert(cut[j] == keys[p]);
                }
            }
        }
    }
}

proof fn lemma_first_of_full(
    all: Set<CacheKeyView>,
    limit: int,
    keys: Seq<CacheKeyView>,
    k: CacheKeyView,
)
    requires
        first_of(all, limit, keys),
        keys.len() == limit,
        forall|i: int| 0 <= i < keys.len() ==> !key_before(k, #[trigger] keys[i]),
    ensures
        first_of(all.insert(k), limit, keys),
{
}

/// Keys in order, and their ranks.
struct FirstKeys {
    keys: Vec<CacheKey>,
    ranks: Vec<Vec<u32>>,
}

impl FirstKeys {
    spec fn views(&self) -> Seq<CacheKeyView> {
        key_views(self.keys@)
    }

    spec fn wf(&self) -> bool {
        self.ranks@.len() == self.keys@.len() && forall|i: int|
            0 <= i < self.keys@.len() ==> (#[trigger] self.ranks@[i])@ == key_rank(self.keys@[i]@)
    }

    /// Where a rank belongs: behind all that it does not come before.
    fn place(&self, rank: &[u32], k: Ghost<CacheKeyView>) -> (at: usize)
        requires
            self.wf(),
            in_order(self.views()),
            rank@ == key_rank(k@),
        ensures
            at <= self.keys@.len(),
            forall|i: int| 0 <= i < at ==> !key_before(k@, #[trigger] self.views()[i]),
            forall|i: int| at <= i < self.keys@.len() ==> key_before(k@, #[trigger] self.views()[i]),
    {
        let mut at: usize = self.keys.len();
        while at > 0 && rank_before(rank, self.ranks[at - 1].as_slice())
            invariant
                at <= self.keys@.len(),
                self.wf(),
                rank@ == key_rank(k@),
                forall|i: int|
                    at <= i < self.keys@.len() ==> key_before(k@, #[trigger] self.views()[i]),
            decreases at,
        {
            assert(self.views()[at - 1] == self.keys@[at - 1]@);
            at = at - 1;
        }
        assert forall|i: int| 0 <= i < at implies !key_before(k@, #[trigger] self.views()[i]) by {
            let last = self.views()[at - 1];
            assert(!comes_first(rank@, self.ranks@[at - 1]@));
            if i < at - 1 && key_before(k@, self.views()[i]) {
                assert(!key_before(last, self.views()[i]));
                lemma_place_between(k@, self.views()[i], last);
            }
        }
        at
    }

    /// Takes a key in, where it is among the first.
    fn offer(&mut self, key: CacheKey, limit: usize, all: Ghost<Set<CacheKeyView>>)
        requires
            old(self).wf(),
            limit > 0,
            first_of(all@, limit as int, old(self).views()),
            !all@.contains(key@),
        ensures
            final(self).wf(),
            first_of(all@.insert(key@), limit as int, final(self).views()),
    {
        let ghost k = key@;
        let ghost before = self.views();
        let rank = rank_of(&key);
        let at: usize = self.place(rank.as_slice(), Ghost(k));
        if at >= limit {
            proof {
                lemma_first_of_full(all@, limit as int, before, k);
            }
            return;
        }
        proof {
            lemma_first_of_grows(all@, limit as int, before, k, at as int);
        }
        self.keys.insert(at, key);
        self.ranks.insert(at, rank);
        assert(self.views() =~= before.insert(at as int, k));
        if self.keys.len() > limit {
            self.keys.pop();
            self.ranks.pop();
            assert(self.views() =~= before.insert(at as int, k).drop_last());
        }
    }
}

spec fn comes_first(a: Seq<u32>, b: Seq<u32>) -> bool {
    crate::cache::query::comes_before(a, b)
}

/// The keys of the entries that are asked for and have not expired.
pub open spec fn matching(s: StoreView, q: QueryView, now: u64) -> Set<CacheKeyView> {
    s.entries.dom().filter(|k: CacheKeyView| s.entries[k].expire_at_ms > now && asked_for(k, q))
}

/// Those of them that come behind the cursor.
pub open spec fn behind_cursor(s: StoreView, q: QueryView, now: u64) -> Set<CacheKeyView> {
    matching(s, q, now).filter(
        |k: CacheKeyView| q.cursor matches Some(c) ==> key_before(c, k),
    )
}

/// The rows of some keys.
pub open spec fn rows(s: StoreView, keys: Seq<CacheKeyView>, now: u64, now_unix_ms: u64) -> Seq<
    EntryRowView,
>
    decreases keys.len(),
{
    if keys.len() == 0 {
        Seq::empty()
    } else {
        let init = rows(s, keys.drop_last(), now, now_unix_ms);
        match entry_row(keys.last(), s.entries[keys.last()], now, now_unix_ms) {
            Ok(row) => init.push(row),
            Err(_) => init,
        }
    }
}

pub open spec fn row_views(v: Seq<CacheEntryRow>) -> Seq<EntryRowView> {
    Seq::new(v.len(), |i: int| v[i]@)
}

/// A page of entries.
#[derive(Debug, PartialEq, Eq)]
pub struct CacheEntriesPage {
    pub entries: Vec<CacheEntryRow>,
    /// The text for the next page, where there is one.
    pub next_cursor: Option<String>,
    /// The number of all entries that are asked for.
    pub total_entries: usize,
}

/// Whether keys have been left out of a page.
pub open spec fn has_more(all: Set<CacheKeyView>, keys: Seq<CacheKeyView>) -> bool {
    exists|k: CacheKeyView| #[trigger] all.contains(k) && !keys.contains(k)
}

/// The page of some keys. The cursor for the next page is the last key.
pub open spec fn page_of(
    s: StoreView,
    q: QueryView,
    keys: Seq<CacheKeyView>,
    now: u64,
    now_unix_ms: u64,
) -> Result<(Seq<EntryRowView>, Option<Seq<char>>, nat), Seq<char>> {
    let entries = rows(s, keys, now, now_unix_ms);
    let total = matching(s, q, now).len();
    if keys.len() > 0 && has_more(behind_cursor(s, q, now), keys) {
        match key_text(keys.last()) {
            Ok(text) => Ok((entries, Some(text), total)),
            Err(_) => Err("failed to encode cache entries cursor"@),
        }
    } else {
        Ok((entries, None, total))
    }
}

/// Whether a result is the page of some keys.
pub open spec fn shows(
    page: Result<(Seq<EntryRowView>, Option<Seq<char>>, nat), Seq<char>>,
    r: Result<CacheEntriesPage, String>,
) -> bool {
    match (page, r) {
        (Ok((rows, cursor, total)), Ok(p)) => row_views(p.entries@) == rows && text_view(
            p.next_cursor,
        ) == cursor && p.total_entries == total,
        (Err(e), Err(f)) => f@ == e,
        _ => false,
    }
}

fn collect_first(
    map: &CacheMap,
    query: &CacheEntriesQuery,
    limit: usize,
    now: u64,
    s: Ghost<StoreView>,
) -> (r: (Vec<CacheKey>, usize))
    requires
        map.wf(),
        limit > 0,
        entries_of(map@) == s@.entries,
        map@.dom() == s@.entries.dom(),
    ensures
        first_of(behind_cursor(s@, query@, now), limit as int, key_views(r.0@)),
        r.1 == matching(s@, query@, now).len(),
        has_more(behind_cursor(s@, query@, now), key_views(r.0@)) ==> r.0@.len() < usize::MAX,
{
    let keys = map.keys();
    let ghost names = key_views(keys@);
    let ghost all = matching(s@, query@, now);
    let ghost target = behind_cursor(s@, query@, now);
    let mut found = FirstKeys { keys: Vec::new(), ranks: Vec::new() };
    let mut total: usize = 0;
    let ghost mut seen: Set<CacheKeyView> = Set::empty();
    let ghost mut matched: Seq<CacheKeyView> = Seq::empty();
    let cursor: Option<Vec<u32>> = match &query.cursor {
        Some(c) => Some(rank_of(c)),
        None => None,
    };
    let mut i: usize = 0;
    assert(found.views() =~= Seq::empty());
    while i < keys.len()
        invariant
            i <= keys@.len(),
            names == key_views(keys@),
            names.no_duplicates(),
            forall|k: CacheKeyView| names.contains(k) <==> map@.dom().contains(k),
            map.wf(),
            limit > 0,
            entries_of(map@) == s@.entries,
            map@.dom() == s@.entries.dom(),
            all == matching(s@, query@, now),
            target == behind_cursor(s@, query@, now),
            match cursor {
                Some(c) => query@.cursor is Some && c@ == key_rank(query@.cursor->0),
                None => query@.cursor is None,
            },
            found.wf(),
            first_of(seen, limit as int, found.views()),
            forall|k: CacheKeyView|
                seen.contains(k) <==> target.contains(k) && names.take(i as int).contains(k),
            matched.no_duplicates(),
            forall|k: CacheKeyView| #[trigger]
                matched.contains(k) <==> all.contains(k) && names.take(i as int).contains(k),
            total == matched.len(),
            total <= i,
        decreases keys@.len() - i,
    {
        let key = &keys[i];
        let ghost k = names[i as int];
        let ghost matched_before = matched;
        assert(key@ == k);
        assert(names.take(i + 1) =~= names.take(i as int).push(k));
        assert(!names.take(i as int).contains(k)) by {
            if names.take(i as int).contains(k) {
                let j = choose|j: int| 0 <= j < i && names.take(i as int)[j] == k;
                assert(names[j] == names[i as int]);
            }
        }
        assert forall|x: CacheKeyView| names.take(i + 1).contains(x) <==> names.take(
            i as int,
        ).contains(x) || x == k by {
            lemma_push_contains(names.take(i as int), k, x);
        }
        assert(names.contains(k));
        if let Some(entry) = map.get(key) {
            assert(s@.entries[k].expire_at_ms == entry.expire_at_ms);
            assert(all.contains(k) <==> entry.expire_at_ms > now && asked_for(k, query@));
            if entry.expire_at_ms > now && cache_entry_matches_query(key, query) {
                assert(all.contains(k));
                total = total + 1;
                proof {
                    assert forall|x: CacheKeyView| matched.push(k).contains(x) <==> matched.contains(
                        x,
                    ) || x == k by {
                        lemma_push_contains(matched, k, x);
                    }
                    assert(!matched.contains(k));
                    assert(matched.push(k).no_duplicates());
                    matched = matched.push(k);
                }
                let behind = match &cursor {
                    Some(c) => {
                        let rank = rank_of(key);
                        rank_before(c.as_slice(), rank.as_slice())
                    },
                    None => true,
                };
                if behind {
                    assert(target.contains(k));
                    found.offer(key.copy(), limit, Ghost(seen));
                    proof {
                        seen = seen.insert(k);
                    }
                }
            }
        }
        assert forall|x: CacheKeyView| #[trigger] matched.contains(x) <==> all.contains(x)
            && names.take(i + 1).contains(x) by {
            assert(matched_before.contains(x) <==> all.contains(x) && names.take(
                i as int,
            ).contains(x));
            assert(names.take(i + 1).contains(x) <==> names.take(i as int).contains(x) || x == k);
            lemma_push_contains(matched_before, k, x);
        }
        i = i + 1;
    }
    assert(names.take(i as int) =~= names);
    assert(seen =~= target);
    assert(matched.to_set() =~= all);
    proof {
        matched.unique_seq_to_set();
        let kept = found.views();
        if has_more(target, kept) {
            let k = choose|k: CacheKeyView| #[trigger] target.contains(k) && !kept.contains(k);
            assert(names.contains(k));
            assert forall|j: int| 0 <= j < kept.len() implies names.contains(#[trigger] kept[j]) by {
                assert(target.contains(kept[j]));
            }
            lemma_fewer(kept, k, names);
        }
    }
    (found.keys, total)
}

proof fn lemma_fewer<A>(some: Seq<A>, another: A, all: Seq<A>)
    requires
        some.no_duplicates(),
        forall|i: int| 0 <= i < some.len() ==> all.contains(#[trigger] some[i]),
        all.contains(another),
        !some.contains(another),
    ensures
        some.len() < all.len(),
{
    let more = some.push(another);
    assert(more.no_duplicates());
    more.unique_seq_to_set();
    assert(more.to_set().subset_of(all.to_set())) by {
        assert forall|x: A| more.to_set().contains(x) implies all.to_set().contains(x) by {
            lemma_push_contains(some, another, x);
            assert(more.contains(x));
        }
    }
    all.lemma_cardinality_of_set();
    vstd::set_lib::lemma_len_subset(more.to_set(), all.to_set());
}

proof fn lemma_push_contains<A>(s: Seq<A>, a: A, x: A)
    ensures
        s.push(a).contains(x) <==> s.contains(x) || x == a,
{
    if s.contains(x) {
        let i = choose|i: int| 0 <= i < s.len() && s[i] == x;
        assert(s.push(a)[i] == x);
    }
    assert(s.push(a)[s.len() as int] == a);
    if s.push(a).contains(x) && x != a {
        let i = choose|i: int| 0 <= i < s.push(a).len() && s.push(a)[i] == x;
        assert(s[i] == x);
    }
}

fn rows_for(
    map: &CacheMap,
    keys: &Vec<CacheKey>,
    now: u64,
    now_unix_ms: u64,
    s: Ghost<StoreView>,
) -> (r: Vec<CacheEntryRow>)
    requires
        map.wf(),
        entries_of(map@) == s@.entries,
        map@.dom() == s@.entries.dom(),
        forall|i: int| 0 <= i < keys@.len() ==> map@.dom().contains((#[trigger] keys@[i])@),
    ensures
        row_views(r@) == rows(s@, key_views(keys@), now, now_unix_ms),
{
    let ghost names = key_views(keys@);
    let mut out: Vec<CacheEntryRow> = Vec::new();
    let mut i: usize = 0;
    assert(row_views(out@) =~= rows(s@, names.take(0), now, now_unix_ms));
    while i < keys.len()
        invariant
            i <= keys@.len(),
            names == key_views(keys@),
            map.wf(),
            entries_of(map@) == s@.entries,
            map@.dom() == s@.entries.dom(),
            forall|i: int| 0 <= i < keys@.len() ==> map@.dom().contains((#[trigger] keys@[i])@),
            row_views(out@) == rows(s@, names.take(i as int), now, now_unix_ms),
        decreases keys@.len() - i,
    {
        let ghost before = row_views(out@);
        assert(names.take(i + 1).drop_last() =~= names.take(i as int));
        assert(names.take(i + 1).last() == keys@[i as int]@);
        if let Some(entry) = map.get(&keys[i]) {
            if let Ok(row) = cache_entry_row(&keys[i], entry, now, now_unix_ms) {
                out.push(row);
                assert(row_views(out@) =~= before.push(row@));
            }
        }
        i = i + 1;
    }
    assert(names.take(i as int) =~= names);
    out
}

/// A page of entries: the first keys behind the cursor.
pub fn list_entries(
    store: &DnsCacheStore,
    query: &CacheEntriesQuery,
    now: u64,
    now_unix_ms: u64,
) -> (r: Result<CacheEntriesPage, String>)
    requires
        store.wf(),
    ensures
        exists|keys: Seq<CacheKeyView>| #[trigger]
            first_of(behind_cursor(store@, query@, now), query.limit as int, keys) && shows(
                page_of(store@, query@, keys, now, now_unix_ms),
                r,
            ),
{
    let map = store.cache_map();
    let candidate_limit: usize = query.limit.saturating_add(1);
    let (mut keys, total_entries) = collect_first(map, query, candidate_limit, now, Ghost(store@));
    let ghost wide = key_views(keys@);
    let ghost all = behind_cursor(store@, query@, now);
    let more = keys.len() > query.limit;
    if more {
        let _ = keys.pop();
    }
    let ghost names = key_views(keys@);
    proof {
        if more {
            assert(names =~= wide.drop_last());
            lemma_page_without_last(all, query.limit as int, wide);
            assert(all.contains(wide.last()));
            assert(!names.contains(wide.last()));
        } else {
            assert(names =~= wide);
            assert(!has_more(all, names)) by {
                if has_more(all, names) {
                    let k = choose|k: CacheKeyView| #[trigger] all.contains(k) && !names.contains(k);
                    assert(left_out(k, candidate_limit as int, wide));
                }
            }
        }
        assert(first_of(all, query.limit as int, names));
        assert forall|i: int| 0 <= i < keys@.len() implies map@.dom().contains(
            (#[trigger] keys@[i])@,
        ) by {
            assert(names[i] == keys@[i]@);
            assert(all.contains(names[i]));
        }
    }
    let next_cursor = if more && keys.len() > 0 {
        assert(names.last() == keys@[keys@.len() - 1]@);
        match encode_cache_entry_id(&keys[keys.len() - 1]) {
            Ok(text) => Some(text),
            Err(_) => return Err("failed to encode cache entries cursor".to_owned()),
        }
    } else {
        None
    };
    let entries = rows_for(map, &keys, now, now_unix_ms, Ghost(store@));
    Ok(CacheEntriesPage { entries, next_cursor, total_entries })
}

proof fn lemma_page_without_last(all: Set<CacheKeyView>, limit: int, wide: Seq<CacheKeyView>)
    requires
        first_of(all, limit + 1, wide),
        wide.len() == limit + 1,
        limit >= 0,
    ensures
        first_of(all, limit, wide.drop_last()),
        all.contains(wide.last()),
        !wide.drop_last().contains(wide.last()),
{
    let cut = wide.drop_last();
    assert(wide[limit] == wide.last());
    assert forall|k: CacheKeyView| #[trigger] all.contains(k) && !cut.contains(k) implies left_out(
        k,
        limit,
        cut,
    ) by {
        if wide.contains(k) {
            let i = choose|i: int| 0 <= i < wide.len() && wide[i] == k;
            if i < limit {
                assert(cut[i] == k);
            }
            assert forall|j: int| 0 <= j < cut.len() implies !key_before(k, #[trigger] cut[j]) by {
                assert(!key_before(wide[limit], wide[j]));
            }
        } else {
            assert(left_out(k, limit + 1, wide));
            assert forall|j: int| 0 <= j < cut.len() implies !key_before(k, #[trigger] cut[j]) by {
                assert(wide[j] == cut[j]);
            }
        }
    }
    if cut.contains(wide.last()) {
        let i = choose|i: int| 0 <= i < cut.len() && cut[i] == wide.last();
        assert(wide[i] == wide[limit]);
    }
}

/// Pages follow one another: nothing on a page comes again behind its last key, and
/// whatever was left out of the page stands behind that key or in its place.
pub proof fn law_pages_follow(
    s: StoreView,
    q: QueryView,
    keys: Seq<CacheKeyView>,
    now: u64,
    k: CacheKeyView,
)
    requires
        first_of(behind_cursor(s, q, now), q.limit as int, keys),
        keys.len() > 0,
        behind_cursor(s, q, now).contains(k),
    ensures
        ({
            let next = behind_cursor(s, (QueryView { cursor: Some(keys.last()), ..q }), now);
            &&& keys.contains(k) ==> !next.contains(k)
            &&& !keys.contains(k) ==> next.contains(k) || key_rank(k) == key_rank(keys.last())
        }),
{
    let last = keys.last();
    law_key_order_total(last, k);
    if keys.contains(k) {
        let i = choose|i: int| 0 <= i < keys.len() && keys[i] == k;
        if i < keys.len() - 1 {
            assert(!key_before(keys[keys.len() - 1], keys[i]));
        }
    } else {
        assert(left_out(k, q.limit as int, keys));
        assert(!key_before(k, keys[keys.len() - 1]));
    }
}

} // verus!
