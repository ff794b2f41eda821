//! What holds of the entries as they are listed, and of the queries for them.

use vstd::prelude::*;

use crate::cache::entry_id::{
    base64_char, base64_text, id_json, json_chars, json_ecs, json_numbers, json_quoted, key_id,
    IdView,
};
use crate::cache::item::CacheItemView;
use crate::cache::key::CacheKeyView;
use crate::cache::listing::{
    behind_cursor, class_text, entry_row, hex_char, hex_text, key_text, matching, page_of,
    rcode_text, record_row, row_views, rows, shows, type_text, unix_time, CacheEntriesPage,
    EntryRowView,
};
use crate::cache::query::{
    asked_for, char_rank, comes_before, cursors_of, default_query, flag, form_octets, form_text,
    id_at, key_before, key_rank, page_limit, parameter, parsed_query, query_of, scope_rank,
    text_rank, with_parameter, QueryView,
};
use crate::cache::store::StoreView;
use crate::proto::message::{DNSClass, Rcode, RecordType, RecordView};
use crate::proto::name::fqdn_text;
use crate::text::{decimal, lower_text, number_of, occurs_at, trim};
use crate::ttl_cache::Slot;

verus! {

/// Types have the names that they are known by, and a type without one has its number.
pub proof fn law_type_names(v: u16)
    ensures
        type_text(RecordType::A) == "A"@,
        type_text(RecordType::NS) == "NS"@,
        type_text(RecordType::CNAME) == "CNAME"@,
        type_text(RecordType::SOA) == "SOA"@,
        type_text(RecordType::PTR) == "PTR"@,
        type_text(RecordType::MX) == "MX"@,
        type_text(RecordType::TXT) == "TXT"@,
        type_text(RecordType::AAAA) == "AAAA"@,
        type_text(RecordType::SRV) == "SRV"@,
        type_text(RecordType::OPT) == "OPT"@,
        type_text(RecordType::SVCB) == "SVCB"@,
        type_text(RecordType::HTTPS) == "HTTPS"@,
        type_text(RecordType::TSIG) == "TSIG"@,
        type_text(RecordType::ANY) == "ANY"@,
        type_text(RecordType::Unknown(v)) == "TYPE"@ + decimal(v as nat),
{
}

/// Classes and response codes have the names that they are known by, and one without a name
/// has its number.
pub proof fn law_class_and_code_names(v: u16, code: u8)
    ensures
        class_text(DNSClass::IN) == "IN"@,
        class_text(DNSClass::CH) == "CH"@,
        class_text(DNSClass::HS) == "HS"@,
        class_text(DNSClass::NONE) == "NONE"@,
        class_text(DNSClass::ANY) == "ANY"@,
        class_text(DNSClass::Unknown(v)) == "CLASS"@ + decimal(v as nat),
        rcode_text(Rcode::NoError) == "NoError"@,
        rcode_text(Rcode::FormErr) == "FormErr"@,
        rcode_text(Rcode::ServFail) == "ServFail"@,
        rcode_text(Rcode::NXDomain) == "NXDomain"@,
        rcode_text(Rcode::NotImp) == "NotImp"@,
        rcode_text(Rcode::Refused) == "Refused"@,
        rcode_text(Rcode::Unknown(code)) == "RCODE"@ + decimal(code as nat),
{
}

/// A time of the process is told by the clock on the wall: as long before or after the
/// present as it is.
pub proof fn law_wall_clock(at: u64, now: u64, now_unix: u64)
    ensures
        at <= now && now - at <= now_unix ==> unix_time(at, now, now_unix) + (now - at) == now_unix,
        at > now && now_unix + (at - now) <= u64::MAX ==> unix_time(at, now, now_unix) == now_unix
            + (at - now),
{
}

/// A listed record has the name, class, type, TTL and data of the record.
pub proof fn law_record_row(r: RecordView)
    ensures
        ({
            let row = record_row(r);
            &&& row.name == fqdn_text(r.name)
            &&& row.class == class_text(r.class)
            &&& row.ttl == r.ttl
            &&& row.rr_type == type_text(r.data.rtype())
            &&& row.data == r.data
        }),
{
}

/// A listed entry tells its key, the response and the times as they are. It is fresh until its
/// time of freshness is over, stale from then on until it expires, and the time that is left
/// is told in whole seconds.
pub proof fn law_entry_row(k: CacheKeyView, slot: Slot<CacheItemView>, now: u64, now_unix: u64)
    ensures
        match entry_row(k, slot, now, now_unix) {
            Ok(row) => {
                let item = slot.value;
                &&& key_text(k) == Ok::<Seq<char>, Seq<char>>(row.id)
                &&& row.domain == k.domain
                &&& row.record_type == type_text(k.record_type)
                &&& row.dns_class == class_text(k.dns_class)
                &&& row.rcode == rcode_text(item.resp.rcode)
                &&& row.do_bit == k.do_bit
                &&& row.cd_bit == k.cd_bit
                &&& row.ttl == item.ttl
                &&& row.fresh <==> now < item.fresh_until_ms
                &&& row.stale <==> item.fresh_until_ms <= now < slot.expire_at_ms
                &&& now <= slot.expire_at_ms && slot.expire_at_ms - now < 0x1_0000_0000 * 1000
                    ==> row.remaining_ttl * 1000 <= slot.expire_at_ms - now < (row.remaining_ttl
                    + 1) * 1000
                &&& now > slot.expire_at_ms ==> row.remaining_ttl == 0
                &&& row.cache_time_ms == slot.cache_time_ms
                &&& row.expire_at_ms == slot.expire_at_ms
                &&& row.last_access_ms == slot.last_access_ms
                &&& row.cache_time_unix_ms == unix_time(slot.cache_time_ms, now, now_unix)
                &&& row.expire_at_unix_ms == unix_time(slot.expire_at_ms, now, now_unix)
                &&& row.last_access_unix_ms == unix_time(slot.last_access_ms, now, now_unix)
                &&& item.resp.answers.len() <= u16::MAX ==> row.answer_count
                    == item.resp.answers.len()
                &&& item.resp.authorities.len() <= u16::MAX ==> row.authority_count
                    == item.resp.authorities.len()
                &&& item.resp.additionals.len() <= u16::MAX ==> row.additional_count
                    == item.resp.additionals.len()
                &&& row.answers.len() == item.resp.answers.len()
                &&& forall|i: int|
                    0 <= i < row.answers.len() ==> #[trigger] row.answers[i] == record_row(
                        item.resp.answers[i],
                    )
                &&& row.authorities.len() == item.resp.authorities.len()
                &&& forall|i: int|
                    0 <= i < row.authorities.len() ==> #[trigger] row.authorities[i] == record_row(
                        item.resp.authorities[i],
                    )
                &&& row.ecs_scope is Some <==> k.ecs_scope is Some
                &&& k.ecs_scope matches Some(e) ==> row.ecs_scope->0.family == e.family
                    && row.ecs_scope->0.source_prefix == e.source_prefix
                    && row.ecs_scope->0.scope_prefix == e.scope_prefix
                    && row.ecs_scope->0.network_hex == hex_text(e.significant())
            },
            Err(_) => (k.ecs_scope is Some && k.ecs_scope->0.network_len > 16) || key_text(k) is Err,
        },
{
}

/// An octet is written in two hexadecimal digits, one after the other.
pub proof fn law_octets_in_hex(v: Seq<u8>, high: int, low: int)
    requires
        0 <= high < 16,
        0 <= low < 16,
    ensures
        hex_text(v.push((16 * high + low) as u8)) == hex_text(v).push(hex_char(high)).push(
            hex_char(low),
        ),
        hex_text(Seq::empty()) == Seq::<char>::empty(),
        high < 10 ==> hex_char(high) as int == '0' as int + high,
        high >= 10 ==> hex_char(high) as int == 'a' as int + high - 10,
{
    let w = v.push((16 * high + low) as u8);
    assert(w.drop_last() =~= v);
    let b = (16 * high + low) as u8;
    assert(b / 16 == high && b % 16 == low);
}

/// A page holds at least one entry and at most five hundred, and a hundred where nothing is
/// said; in between it holds as many as are asked for.
pub proof fn law_page_limit(n: nat)
    ensures
        1 <= n <= 500 ==> page_limit(n) == n,
        n == 0 ==> page_limit(n) == 1,
        n > 500 ==> page_limit(n) == 500,
        default_query().limit == 100 && default_query().cursor is None && default_query().qname
            is None,
{
}

/// A parameter of a query is what stands before its first equals sign, and its value what
/// stands behind it. Without one the value is empty.
pub proof fn law_parameter(key: Seq<char>, value: Seq<char>)
    requires
        !key.contains('='),
    ensures
        parameter(key + seq!['='] + value, 0) == (key, value),
        parameter(key, 0) == (key, Seq::<char>::empty()),
{
    lemma_parameter(key, value, 0);
}

proof fn lemma_parameter(key: Seq<char>, value: Seq<char>, at: int)
    requires
        !key.contains('='),
        0 <= at <= key.len(),
    ensures
        parameter(key + seq!['='] + value, at) == (key, value),
        parameter(key, at) == (key, Seq::<char>::empty()),
    decreases key.len() - at,
{
    let all = key + seq!['='] + value;
    if at < key.len() {
        assert(key.contains(key[at]));
        assert(all[at] == key[at]);
        lemma_parameter(key, value, at + 1);
    } else {
        assert(all[at] == '=');
        assert(all.take(at) =~= key);
        assert(all.skip(at + 1) =~= value);
    }
}

/// A hexadecimal digit, in upper or in lower case.
pub open spec fn hex_octet(d: int, upper: bool) -> u8 {
    if d < 10 {
        (48 + d) as u8
    } else if upper {
        (55 + d) as u8
    } else {
        (87 + d) as u8
    }
}

/// In the octets of a query a plus sign stands for a blank and a percent sign with two digits
/// for the octet with this number, whatever the case of the digits; every other octet stands
/// for itself.
pub proof fn law_octets_of_query(
    high: int,
    low: int,
    upper: bool,
    octet: u8,
    rest: Seq<u8>,
)
    requires
        0 <= high < 16,
        0 <= low < 16,
        octet != 37,
        octet != 43,
    ensures
        form_octets(Seq::empty()) == Seq::<u8>::empty(),
        form_octets(seq![37u8, hex_octet(high, upper), hex_octet(low, upper)] + rest) == seq![
            (16 * high + low) as u8,
        ] + form_octets(rest),
        form_octets(seq![43u8] + rest) == seq![32u8] + form_octets(rest),
        form_octets(seq![octet] + rest) == seq![octet] + form_octets(rest),
{
    let a = seq![37u8, hex_octet(high, upper), hex_octet(low, upper)] + rest;
    assert(a[0] == 37 && a[1] == hex_octet(high, upper) && a[2] == hex_octet(low, upper));
    assert(a.skip(3) =~= rest);
    assert((seq![43u8] + rest).skip(1) =~= rest);
    assert((seq![octet] + rest).skip(1) =~= rest);
}

/// The limit is read as a number, and nothing else of a query changes with it. A name
/// changes the name alone, and a parameter that is not known changes nothing.
pub proof fn law_parameters_of_query(q: QueryView, key: Seq<char>, value: Seq<char>)
    ensures
        with_parameter(q, "limit"@, value, None) == (match number_of(value) {
            Some(n) if n <= usize::MAX => Ok(QueryView { limit: page_limit(n), ..q }),
            _ => Err("limit must be a positive integer"@),
        }),
        with_parameter(q, "qname"@, value, None) matches Ok(r) && r.limit == q.limit && r.cursor
            == q.cursor,
        key != "limit"@ && key != "cursor"@ && key != "qname"@ ==> with_parameter(
            q,
            key,
            value,
            None,
        ) == Ok::<QueryView, Seq<char>>(q),
{
    reveal_strlit("limit");
    reveal_strlit("cursor");
    reveal_strlit("qname");
    assert("limit"@.len() == 5 && "cursor"@.len() == 6 && "qname"@.len() == 5);
    assert("limit"@[0] != "qname"@[0]);
}

/// Whether two characters are the same, upper and lower case of a letter being the same.
pub open spec fn same_letter(x: char, y: char) -> bool {
    x == y || (65 <= x as u32 <= 90 && y as u32 == x as u32 + 32) || (65 <= y as u32 <= 90
        && x as u32 == y as u32 + 32)
}

/// Whether a name stands in another from a place on, whatever the case.
pub open spec fn stands_at(domain: Seq<char>, name: Seq<char>, at: int) -> bool {
    0 <= at && at + name.len() <= domain.len() && forall|i: int|
        0 <= i < name.len() ==> same_letter(#[trigger] name[i], domain[at + i])
}

/// An entry is asked for where no name is asked for, or where that name stands in its own,
/// whatever the case.
pub proof fn law_entries_asked_for(k: CacheKeyView, q: QueryView)
    ensures
        q.qname is None ==> asked_for(k, q),
        q.qname matches Some(n) ==> (asked_for(k, q) <==> exists|at: int|
            #[trigger] stands_at(k.domain, n, at)),
{
    if let Some(n) = q.qname {
        let d = lower_text(k.domain);
        let m = lower_text(n);
        if asked_for(k, q) {
            let at = choose|at: int| occurs_at(d, m, at);
            assert forall|i: int| 0 <= i < n.len() implies same_letter(
                #[trigger] n[i],
                k.domain[at + i],
            ) by {
                assert(d.subrange(at, at + m.len())[i] == m[i]);
                assert(d[at + i] == m[i]);
            }
            assert(stands_at(k.domain, n, at));
        }
        if exists|at: int| #[trigger] stands_at(k.domain, n, at) {
            let at = choose|at: int| #[trigger] stands_at(k.domain, n, at);
            assert forall|i: int| 0 <= i < m.len() implies d.subrange(at, at + m.len())[i]
                == m[i] by {
                assert(same_letter(n[i], k.domain[at + i]));
            }
            assert(d.subrange(at, at + m.len()) =~= m);
            assert(occurs_at(d, m, at));
        }
    }
}

/// Entries that have expired are not listed, and others are where they are asked for; behind a
/// cursor those that come after it.
pub proof fn law_entries_listed(s: StoreView, q: QueryView, now: u64, k: CacheKeyView)
    requires
        s.entries.dom().finite(),
    ensures
        matching(s, q, now).contains(k) <==> s.entries.dom().contains(k) && now
            < s.entries[k].expire_at_ms && asked_for(k, q),
        behind_cursor(s, q, now).contains(k) <==> matching(s, q, now).contains(k) && (
        q.cursor matches Some(c) ==> key_before(c, k)),
{
}

proof fn lemma_before_behind_same(p: Seq<u32>, a: Seq<u32>, b: Seq<u32>)
    ensures
        comes_before(p + a, p + b) == comes_before(a, b),
    decreases p.len(),
{
    if p.len() == 0 {
        assert(p + a =~= a);
        assert(p + b =~= b);
    } else {
        let x = p + a;
        let y = p + b;
        assert(x[0] == y[0]);
        assert(x.skip(1) =~= p.skip(1) + a);
        assert(y.skip(1) =~= p.skip(1) + b);
        lemma_before_behind_same(p.skip(1), a, b);
    }
}

proof fn lemma_rank_of_char(c: char)
    ensures
        char_rank(c) == c as u32 + 1,
{
}

/// Entries are in the order of their names: at the first character in which two names differ
/// the smaller one comes first, and a name comes before all that it begins.
pub proof fn law_order_by_name(a: CacheKeyView, b: CacheKeyView, n: int)
    requires
        0 <= n < b.domain.len(),
        n <= a.domain.len(),
        a.domain.take(n) == b.domain.take(n),
        n < a.domain.len() ==> (a.domain[n] as u32) < (b.domain[n] as u32),
    ensures
        key_before(a, b),
{
    let p = Seq::new(n as nat, |i: int| char_rank(a.domain[i]));
    let x = key_rank(a);
    let y = key_rank(b);
    assert forall|i: int| 0 <= i < n implies x[i] == p[i] && y[i] == p[i] by {
        assert(a.domain.take(n)[i] == a.domain[i]);
        assert(b.domain.take(n)[i] == b.domain[i]);
        assert(text_rank(a.domain)[i] == char_rank(a.domain[i]));
        assert(text_rank(b.domain)[i] == char_rank(b.domain[i]));
        assert(x[i] == text_rank(a.domain)[i]);
        assert(y[i] == text_rank(b.domain)[i]);
    }
    assert(x =~= p + x.skip(n));
    assert(y =~= p + y.skip(n));
    lemma_before_behind_same(p, x.skip(n), y.skip(n));
    assert(x.skip(n)[0] == text_rank(a.domain)[n]);
    assert(y.skip(n)[0] == text_rank(b.domain)[n]);
    assert(text_rank(b.domain)[n] == char_rank(b.domain[n]));
    if n < a.domain.len() {
        assert(text_rank(a.domain)[n] == char_rank(a.domain[n]));
    } else {
        assert(text_rank(a.domain)[n] == 0);
    }
    let u = x.skip(n);
    let v = y.skip(n);
    assert(u.len() > 0 && v.len() > 0);
    lemma_rank_of_char(b.domain[n]);
    if n < a.domain.len() {
        lemma_rank_of_char(a.domain[n]);
        assert(u[0] == char_rank(a.domain[n]));
    } else {
        assert(u[0] == 0);
    }
    assert(v[0] == char_rank(b.domain[n]));
    assert(u[0] < v[0]);
    assert(comes_before(u, v));
    assert(x == p + u);
    assert(y == p + v);
}

/// Entries with the same name are in the order of the numbers of their types, then of their
/// classes, then those come first that do not want signatures, then those that want data
/// checked, and then those without a subnet.
pub proof fn law_order_by_type(a: CacheKeyView, b: CacheKeyView)
    requires
        a.domain == b.domain,
    ensures
        a.record_type.number() < b.record_type.number() ==> key_before(a, b),
        a.record_type == b.record_type && a.dns_class.number() < b.dns_class.number()
            ==> key_before(a, b),
        a.record_type == b.record_type && a.dns_class == b.dns_class && !a.do_bit && b.do_bit
            ==> key_before(a, b),
        a.record_type == b.record_type && a.dns_class == b.dns_class && a.do_bit == b.do_bit
            && !a.cd_bit && b.cd_bit ==> key_before(a, b),
        a.record_type == b.record_type && a.dns_class == b.dns_class && a.do_bit == b.do_bit
            && a.cd_bit == b.cd_bit && a.ecs_scope is None && b.ecs_scope is Some ==> key_before(
            a,
            b,
        ),
{
    let p = text_rank(a.domain);
    let x = seq![
        a.record_type.number() as u32,
        a.dns_class.number() as u32,
        flag(a.do_bit),
        flag(a.cd_bit),
    ] + scope_rank(a.ecs_scope);
    let y = seq![
        b.record_type.number() as u32,
        b.dns_class.number() as u32,
        flag(b.do_bit),
        flag(b.cd_bit),
    ] + scope_rank(b.ecs_scope);
    assert(key_rank(a) =~= p + x);
    assert(key_rank(b) =~= p + y);
    lemma_before_behind_same(p, x, y);
    reveal_with_fuel(comes_before, 6);
    assert(x[0] == a.record_type.number() && y[0] == b.record_type.number());
    assert(x.skip(1)[0] == a.dns_class.number() && y.skip(1)[0] == b.dns_class.number());
    assert(x.skip(1).skip(1)[0] == flag(a.do_bit) && y.skip(1).skip(1)[0] == flag(b.do_bit));
    assert(x.skip(1).skip(1).skip(1)[0] == flag(a.cd_bit) && y.skip(1).skip(1).skip(1)[0] == flag(
        b.cd_bit,
    ));
    assert(x.skip(1).skip(1).skip(1).skip(1)[0] == scope_rank(a.ecs_scope)[0]);
    assert(y.skip(1).skip(1).skip(1).skip(1)[0] == scope_rank(b.ecs_scope)[0]);
}

/// A page has the rows of its keys in their order, but for keys that have none; it leads to
/// the next one by its last key exactly where entries are left; and it tells how many there
/// are in all.
pub proof fn law_page(
    s: StoreView,
    q: QueryView,
    keys: Seq<CacheKeyView>,
    now: u64,
    now_unix: u64,
)
    ensures
        match page_of(s, q, keys, now, now_unix) {
            Ok((entries, cursor, total)) => {
                &&& total == matching(s, q, now).len()
                &&& entries == rows(s, keys, now, now_unix)
                &&& cursor is Some <==> keys.len() > 0 && exists|k: CacheKeyView| #[trigger]
                    behind_cursor(s, q, now).contains(k) && !keys.contains(k)
                &&& cursor is Some ==> key_text(keys.last()) == Ok::<Seq<char>, Seq<char>>(
                    cursor->0,
                )
            },
            Err(_) => keys.len() > 0 && key_text(keys.last()) is Err,
        },
{
}

/// The rows of keys are those of each of them.
pub proof fn law_rows(
    s: StoreView,
    keys: Seq<CacheKeyView>,
    k: CacheKeyView,
    now: u64,
    now_unix: u64,
)
    ensures
        rows(s, Seq::empty(), now, now_unix).len() == 0,
        rows(s, keys.push(k), now, now_unix) == (match entry_row(
            k,
            s.entries[k],
            now,
            now_unix,
        ) {
            Ok(row) => rows(s, keys, now, now_unix).push(row),
            Err(_) => rows(s, keys, now, now_unix),
        }),
{
    assert(keys.push(k).drop_last() =~= keys);
}

/// The characters of base64: letters in upper case, letters in lower case, digits, and two that
/// may stand in a URL.
pub proof fn law_base64_characters(v: int)
    requires
        0 <= v < 64,
    ensures
        v < 26 ==> base64_char(v) as int == 'A' as int + v,
        26 <= v < 52 ==> base64_char(v) as int == 'a' as int + (v - 26),
        52 <= v < 62 ==> base64_char(v) as int == '0' as int + (v - 52),
        v == 62 ==> base64_char(v) == '-',
        v == 63 ==> base64_char(v) == '_',
{
}

/// Three octets are written as the four characters of their twenty-four bits, the first bits
/// first.
pub proof fn law_base64_of_three(
    octets: (u8, u8, u8),
    parts: (int, int, int, int),
    rest: Seq<u8>,
)
    requires
        0 <= parts.0 < 64,
        0 <= parts.1 < 64,
        0 <= parts.2 < 64,
        0 <= parts.3 < 64,
        octets.0 * 65536 + octets.1 * 256 + octets.2 == ((parts.0 * 64 + parts.1) * 64 + parts.2)
            * 64 + parts.3,
    ensures
        base64_text(seq![octets.0, octets.1, octets.2] + rest) == seq![
            base64_char(parts.0),
            base64_char(parts.1),
            base64_char(parts.2),
            base64_char(parts.3),
        ] + base64_text(rest),
        base64_text(Seq::empty()) == Seq::<char>::empty(),
{
    let all = seq![octets.0, octets.1, octets.2] + rest;
    assert(all[0] == octets.0 && all[1] == octets.1 && all[2] == octets.2);
    assert(all.skip(3) =~= rest);
    let (x, y, z) = octets;
    assert((x / 4) as int == parts.0);
    assert(x % 4 * 16 + y / 16 == parts.1);
    assert(y % 16 * 4 + z / 64 == parts.2);
    assert((z % 64) as int == parts.3);
}

/// One octet or two at the end are written as two characters or three, with zeros for the bits
/// that are missing.
pub proof fn law_base64_of_the_end(x: u8, y: u8)
    ensures
        base64_text(seq![x]) == base64_text(seq![x, 0u8, 0u8]).take(2),
        base64_text(seq![x, y]) == base64_text(seq![x, y, 0u8]).take(3),
{
    let none = Seq::<u8>::empty();
    assert(seq![x, 0u8, 0u8].skip(3) =~= none);
    assert(seq![x, y, 0u8].skip(3) =~= none);
    assert(base64_text(none) =~= Seq::empty());
    reveal_with_fuel(base64_text, 2);
    assert(base64_text(seq![x]) =~= base64_text(seq![x, 0u8, 0u8]).take(2));
    assert(base64_text(seq![x, y]) =~= base64_text(seq![x, y, 0u8]).take(3));
}

/// The members of the text that names a key, under their names.
pub proof fn law_members_of_key_text(id: IdView)
    ensures
        id_json(id) == "{\"domain\":"@ + json_quoted(id.domain) + ",\"record_type\":"@ + decimal(
            id.record_type as nat,
        ) + ",\"dns_class\":"@ + decimal(id.dns_class as nat) + ",\"do_bit\":"@ + (if id.do_bit {
            "true"@
        } else {
            "false"@
        }) + ",\"cd_bit\":"@ + (if id.cd_bit {
            "true"@
        } else {
            "false"@
        }) + ",\"ecs_scope\":"@ + json_ecs(id.ecs_scope) + "}"@,
        json_ecs(None) == "null"@,
{
}

/// A character of a text stands for itself, but for quotes, backslashes and control
/// characters, which are marked with a backslash.
pub proof fn law_marked_characters(c: char, rest: Seq<char>)
    ensures
        c as u32 >= 32 && c != '"' && c != '\\' ==> json_chars(seq![c] + rest) == seq![c]
            + json_chars(rest),
        json_chars(seq!['"'] + rest) == seq!['\\', '"'] + json_chars(rest),
        json_chars(seq!['\\'] + rest) == seq!['\\', '\\'] + json_chars(rest),
        json_chars(seq!['\n'] + rest) == seq!['\\', 'n'] + json_chars(rest),
        json_chars(seq!['\r'] + rest) == seq!['\\', 'r'] + json_chars(rest),
        json_chars(seq!['\t'] + rest) == seq!['\\', 't'] + json_chars(rest),
        json_quoted(rest) == seq!['"'] + json_chars(rest) + seq!['"'],
{
    assert((seq![c] + rest).skip(1) =~= rest);
    assert((seq!['"'] + rest).skip(1) =~= rest);
    assert((seq!['\\'] + rest).skip(1) =~= rest);
    assert((seq!['\n'] + rest).skip(1) =~= rest);
    assert((seq!['\r'] + rest).skip(1) =~= rest);
    assert((seq!['\t'] + rest).skip(1) =~= rest);
}

/// The id of a key has its name, the numbers of its type and class, its flags and its subnet.
pub proof fn law_id_of_key(k: CacheKeyView)
    ensures
        key_id(k).domain == k.domain,
        key_id(k).record_type == k.record_type.number(),
        key_id(k).dns_class == k.dns_class.number(),
        key_id(k).do_bit == k.do_bit,
        key_id(k).cd_bit == k.cd_bit,
        key_id(k).ecs_scope == k.ecs_scope,
{
}

/// A query is read part by part, each changing what those before it have said; the first part
/// that cannot be read is the problem. Without a query all is left to the defaults.
pub proof fn law_parts_of_query(parts: Seq<Seq<char>>, part: Seq<char>, ids: Seq<Option<IdView>>)
    ensures
        parsed_query(None, ids) == Ok::<QueryView, Seq<char>>(default_query()),
        query_of(Seq::empty(), ids) == Ok::<QueryView, Seq<char>>(default_query()),
        query_of(parts, ids) is Err ==> query_of(parts.push(part), ids) == query_of(parts, ids),
        query_of(parts, ids) is Ok && part.len() == 0 ==> query_of(parts.push(part), ids)
            == query_of(parts, ids),
        query_of(parts, ids) is Ok && part.len() > 0 && form_text(parameter(part, 0).0) is Some
            && form_text(parameter(part, 0).1) is Some ==> query_of(parts.push(part), ids)
            == with_parameter(
            query_of(parts, ids)->Ok_0,
            form_text(parameter(part, 0).0)->0,
            form_text(parameter(part, 0).1)->0,
            id_at(ids, cursors_of(parts).len() as int),
        ),
{
    assert(parts.push(part).drop_last() =~= parts);
}

/// The cursors of a query are the values of the parameters of that name that have more than
/// blanks, in their order.
pub proof fn law_cursors_of_query(parts: Seq<Seq<char>>, key: Seq<char>, value: Seq<char>)
    requires
        !key.contains('='),
        form_text(key) is Some,
        form_text(value) is Some,
    ensures
        cursors_of(Seq::empty()).len() == 0,
        ({
            let all = cursors_of(parts.push(key + seq!['='] + value));
            let t = trim(form_text(value)->0);
            if form_text(key)->0 == "cursor"@ && t.len() > 0 {
                all == cursors_of(parts).push(t)
            } else {
                all == cursors_of(parts)
            }
        }),
{
    let part = key + seq!['='] + value;
    assert(parts.push(part).drop_last() =~= parts);
    law_parameter(key, value);
}

/// The ids of cursors are taken in their order.
pub proof fn law_ids_of_cursors(ids: Seq<Option<IdView>>, i: int)
    ensures
        0 <= i < ids.len() ==> id_at(ids, i) == ids[i],
        i >= ids.len() ==> id_at(ids, i) is None,
{
}

/// The octets of a network are written as numbers with commas between them.
pub proof fn law_octets_as_numbers(v: Seq<u8>, b: u8)
    ensures
        json_numbers(Seq::empty()) == Seq::<char>::empty(),
        json_numbers(seq![b]) == decimal(b as nat),
        v.len() > 0 ==> json_numbers(v.push(b)) == json_numbers(v) + ","@ + decimal(b as nat),
{
    assert(v.push(b).drop_last() =~= v);
}

/// What is shown of a page is its rows, its cursor and the number of entries asked for, each as
/// the page has it.
pub proof fn law_page_is_shown(
    page: Result<(Seq<EntryRowView>, Option<Seq<char>>, nat), Seq<char>>,
    r: Result<CacheEntriesPage, String>,
)
    requires
        shows(page, r),
    ensures
        r is Ok <==> page is Ok,
        r matches Ok(p) ==> row_views(p.entries@) == page->Ok_0.0 && (p.next_cursor is Some
            <==> page->Ok_0.1 is Some) && (p.next_cursor is Some ==> p.next_cursor->0@
            == page->Ok_0.1->0) && p.total_entries == page->Ok_0.2,
        r matches Err(e) ==> e@ == page->Err_0,
{
}

} // verus!
