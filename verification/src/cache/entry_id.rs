//! Texts that name cache entries: the key as a JSON object, in URL-safe base64.

use vstd::prelude::*;
use vstd::utf8::encode_utf8;

use base64::Engine;

use crate::cache::dump_wire::octets_view;
use crate::cache::key::{
    canonical_domain, canonical_ecs, canonical_ecs_key_digest, normalize_cache_key_domain, padded16,
    CacheKey, CacheKeyView, EcsScopeDigest, EcsScopeView,
};
use crate::proto::message::{dns_class_of, record_type_of, DNSClass, RecordType};
use crate::text::{decimal, decimal_of, push_text};

verus! {

/// The key of an entry as plain values.
#[derive(Debug, PartialEq, Eq)]
pub struct CacheEntryId {
    pub domain: String,
    pub record_type: u16,
    pub dns_class: u16,
    pub do_bit: bool,
    pub cd_bit: bool,
    pub ecs_scope: Option<CacheEntryEcsId>,
}

/// The subnet part of a [`CacheEntryId`].
#[derive(Debug, PartialEq, Eq)]
pub struct CacheEntryEcsId {
    pub family: u16,
    pub source_prefix: u8,
    pub scope_prefix: u8,
    pub network_len: u8,
    pub network: [u8; 16],
}

/// The mathematical content of a [`CacheEntryId`].
#[verifier::ext_equal]
pub struct IdView {
    pub domain: Seq<char>,
    pub record_type: u16,
    pub dns_class: u16,
    pub do_bit: bool,
    pub cd_bit: bool,
    pub ecs_scope: Option<EcsScopeView>,
}

/// The view of an optional subnet part.
pub open spec fn ecs_id_view(e: Option<CacheEntryEcsId>) -> Option<EcsScopeView> {
    match e {
        Some(e) => Some(
            EcsScopeView {
                family: e.family,
                source_prefix: e.source_prefix,
                scope_prefix: e.scope_prefix,
                network_len: e.network_len,
                network: e.network@,
            },
        ),
        None => None,
    }
}

impl View for CacheEntryId {
    type V = IdView;

    open spec fn view(&self) -> IdView {
        IdView {
            domain: self.domain@,
            record_type: self.record_type,
            dns_class: self.dns_class,
            do_bit: self.do_bit,
            cd_bit: self.cd_bit,
            ecs_scope: ecs_id_view(self.ecs_scope),
        }
    }
}

/// The view of an optional id.
pub open spec fn id_view(id: Option<CacheEntryId>) -> Option<IdView> {
    match id {
        Some(id) => Some(id@),
        None => None,
    }
}

/// The character for six bits in URL-safe base64.
pub open spec fn base64_char(v: int) -> char {
    if v < 26 {
        ((65 + v) as u32) as char
    } else if v < 52 {
        ((71 + v) as u32) as char
    } else if v < 62 {
        ((v - 4) as u32) as char
    } else if v == 62 {
        '-'
    } else {
        '_'
    }
}

/// Octets in URL-safe base64 without padding: four characters for three octets, and
/// fewer for what is left at the end, with zero bits added.
pub open spec fn base64_text(s: Seq<u8>) -> Seq<char>
    decreases s.len(),
{
    if s.len() == 0 {
        Seq::empty()
    } else if s.len() == 1 {
        seq![base64_char((s[0] / 4) as int), base64_char(s[0] % 4 * 16)]
    } else if s.len() == 2 {
        seq![
            base64_char((s[0] / 4) as int),
            base64_char(s[0] % 4 * 16 + s[1] / 16),
            base64_char(s[1] % 16 * 4),
        ]
    } else {
        seq![
            base64_char((s[0] / 4) as int),
            base64_char(s[0] % 4 * 16 + s[1] / 16),
            base64_char(s[1] % 16 * 4 + s[2] / 64),
            base64_char((s[2] % 64) as int),
        ] + base64_text(s.skip(3))
    }
}

/// The octets that a text stands for, where it is URL-safe base64 without padding.
pub open spec fn base64_octets(text: Seq<char>) -> Option<Seq<u8>> {
    if exists|s: Seq<u8>| #[trigger] base64_text(s) == text {
        Some(choose|s: Seq<u8>| #[trigger] base64_text(s) == text)
    } else {
        None
    }
}

proof fn lemma_base64_char_injective(a: int, b: int)
    requires
        0 <= a < 64,
        0 <= b < 64,
        base64_char(a) == base64_char(b),
    ensures
        a == b,
{
    assert(base64_char(a) as u32 == base64_char(b) as u32);
}

/// How a text in base64 begins, and how long it is.
proof fn lemma_base64_start(s: Seq<u8>)
    ensures
        s.len() == 0 ==> base64_text(s).len() == 0,
        s.len() == 1 ==> base64_text(s).len() == 2,
        s.len() == 2 ==> base64_text(s).len() == 3,
        s.len() >= 3 ==> base64_text(s).len() >= 4,
        s.len() >= 1 ==> base64_text(s)[0] == base64_char((s[0] / 4) as int),
        s.len() == 1 ==> base64_text(s)[1] == base64_char(s[0] % 4 * 16),
        s.len() >= 2 ==> base64_text(s)[1] == base64_char(s[0] % 4 * 16 + s[1] / 16),
        s.len() == 2 ==> base64_text(s)[2] == base64_char(s[1] % 16 * 4),
        s.len() >= 3 ==> base64_text(s)[2] == base64_char(s[1] % 16 * 4 + s[2] / 64),
        s.len() >= 3 ==> base64_text(s)[3] == base64_char((s[2] % 64) as int),
        s.len() >= 3 ==> base64_text(s).skip(4) == base64_text(s.skip(3)),
{
    if s.len() >= 3 {
        assert(base64_text(s).skip(4) =~= base64_text(s.skip(3)));
    }
}

/// Different octets have different texts.
pub proof fn lemma_base64_injective(a: Seq<u8>, b: Seq<u8>)
    requires
        base64_text(a) == base64_text(b),
    ensures
        a == b,
    decreases a.len(),
{
    let x = base64_text(a);
    let y = base64_text(b);
    lemma_base64_start(a);
    lemma_base64_start(b);
    if a.len() == 0 {
        assert(a =~= b);
    } else {
        assert(b.len() > 0);
        assert(x[0] == y[0] && x[1] == y[1]);
        lemma_base64_char_injective((a[0] / 4) as int, (b[0] / 4) as int);
        if a.len() == 1 {
            assert(b.len() == 1);
            lemma_base64_char_injective(a[0] % 4 * 16, b[0] % 4 * 16);
            assert(a =~= b);
        } else if a.len() == 2 {
            assert(b.len() == 2);
            assert(x[2] == y[2]);
            lemma_base64_char_injective(a[0] % 4 * 16 + a[1] / 16, b[0] % 4 * 16 + b[1] / 16);
            lemma_base64_char_injective(a[1] % 16 * 4, b[1] % 16 * 4);
            assert(a =~= b);
        } else {
            assert(b.len() >= 3);
            assert(x[2] == y[2] && x[3] == y[3]);
            lemma_base64_char_injective(a[0] % 4 * 16 + a[1] / 16, b[0] % 4 * 16 + b[1] / 16);
            lemma_base64_char_injective(
                a[1] % 16 * 4 + a[2] / 64,
                b[1] % 16 * 4 + b[2] / 64,
            );
            lemma_base64_char_injective((a[2] % 64) as int, (b[2] % 64) as int);
            lemma_base64_injective(a.skip(3), b.skip(3));
            assert forall|i: int| 0 <= i < a.len() implies a[i] == b[i] by {
                if i >= 3 {
                    assert(a.skip(3)[i - 3] == b.skip(3)[i - 3]);
                }
            }
            assert(a.len() == a.skip(3).len() + 3);
            assert(b.len() == b.skip(3).len() + 3);
            assert(a =~= b);
        }
    }
}

/// The text of octets stands for those octets.
pub proof fn lemma_base64_octets_of_text(s: Seq<u8>)
    ensures
        base64_octets(base64_text(s)) == Some(s),
{
    let c = choose|c: Seq<u8>| #[trigger] base64_text(c) == base64_text(s);
    lemma_base64_injective(c, s);
}

/// `URL_SAFE_NO_PAD.encode` of the `base64` crate: the text of the octets.
#[verifier::external_body]
fn base64_encode(octets: &[u8]) -> (r: String)
    requires
        octets@.len() <= isize::MAX / 2,
    ensures
        r@ == base64_text(octets@),
{
    base64::engine::general_purpose::URL_SAFE_NO_PAD.encode(octets)
}

/// `URL_SAFE_NO_PAD.decode` of the `base64` crate: the octets that the text stands for.
/// A text with padding, with bits set beyond the last octet or with other characters
/// stands for none.
#[verifier::external_body]
fn base64_decode(text: &str) -> (r: Option<Vec<u8>>)
    ensures
        octets_view(r) == base64_octets(text@),
{
    base64::engine::general_purpose::URL_SAFE_NO_PAD.decode(text).ok()
}

/// A digit of a number to base sixteen.
pub open spec fn hex_char(v: int) -> char {
    if v < 10 {
        ((48 + v) as u32) as char
    } else {
        ((87 + v) as u32) as char
    }
}

/// A character within a JSON string: quotes, backslashes and control characters are
/// escaped.
pub open spec fn json_char(c: char) -> Seq<char> {
    let v = c as u32 as int;
    if c == '"' {
        seq!['\\', '"']
    } else if c == '\\' {
        seq!['\\', '\\']
    } else if v == 8 {
        seq!['\\', 'b']
    } else if v == 9 {
        seq!['\\', 't']
    } else if v == 10 {
        seq!['\\', 'n']
    } else if v == 12 {
        seq!['\\', 'f']
    } else if v == 13 {
        seq!['\\', 'r']
    } else if v < 32 {
        seq!['\\', 'u', '0', '0', hex_char(v / 16), hex_char(v % 16)]
    } else {
        seq![c]
    }
}

/// The characters of a text within a JSON string.
pub open spec fn json_chars(text: Seq<char>) -> Seq<char>
    decreases text.len(),
{
    if text.len() == 0 {
        Seq::empty()
    } else {
        json_char(text[0]) + json_chars(text.skip(1))
    }
}

/// A text as a JSON string.
pub open spec fn json_quoted(text: Seq<char>) -> Seq<char> {
    seq!['"'] + json_chars(text) + seq!['"']
}

pub open spec fn json_bool(b: bool) -> Seq<char> {
    if b {
        "true"@
    } else {
        "false"@
    }
}

/// Numbers between commas.
pub open spec fn json_numbers(v: Seq<u8>) -> Seq<char>
    decreases v.len(),
{
    if v.len() == 0 {
        Seq::empty()
    } else if v.len() == 1 {
        decimal(v[0] as nat)
    } else {
        json_numbers(v.drop_last()) + ","@ + decimal(v.last() as nat)
    }
}

/// The JSON text of a subnet part.
pub open spec fn json_ecs(e: Option<EcsScopeView>) -> Seq<char> {
    match e {
        None => "null"@,
        Some(e) => "{\"family\":"@ + decimal(e.family as nat) + ",\"source_prefix\":"@ + decimal(
            e.source_prefix as nat,
        ) + ",\"scope_prefix\":"@ + decimal(e.scope_prefix as nat) + ",\"network_len\":"@ + decimal(
            e.network_len as nat,
        ) + ",\"network\":["@ + json_numbers(e.network) + "]}"@,
    }
}

/// The JSON text of an id.
pub open spec fn id_json(id: IdView) -> Seq<char> {
    "{\"domain\":"@ + json_quoted(id.domain) + ",\"record_type\":"@ + decimal(
        id.record_type as nat,
    ) + ",\"dns_class\":"@ + decimal(id.dns_class as nat) + ",\"do_bit\":"@ + json_bool(id.do_bit)
        + ",\"cd_bit\":"@ + json_bool(id.cd_bit) + ",\"ecs_scope\":"@ + json_ecs(id.ecs_scope)
        + "}"@
}

/// `serde_json::to_string` on a text: the text as a JSON string.
#[verifier::external_body]
fn quote_json(text: &str) -> (r: String)
    ensures
        r@ == json_quoted(text@),
{
    serde_json::to_string(text).unwrap_or_default()
}

/// The id of a key.
pub open spec fn key_id(k: CacheKeyView) -> IdView {
    IdView {
        domain: k.domain,
        record_type: k.record_type.number(),
        dns_class: k.dns_class.number(),
        do_bit: k.do_bit,
        cd_bit: k.cd_bit,
        ecs_scope: k.ecs_scope,
    }
}

/// The key that an id names. The domain and the subnet must be canonical.
pub open spec fn id_key(id: IdView) -> Result<CacheKeyView, Seq<char>> {
    match canonical_domain(id.domain) {
        None => Err("cache entry id domain is invalid DNS text"@),
        Some(domain) => {
            let key = CacheKeyView {
                domain,
                record_type: record_type_of(id.record_type),
                dns_class: dns_class_of(id.dns_class),
                do_bit: id.do_bit,
                cd_bit: id.cd_bit,
                ecs_scope: None,
            };
            match id.ecs_scope {
                None => Ok(key),
                Some(e) => if e.network_len > 16 {
                    Err("cache entry id has invalid ECS network length"@)
                } else if !canonical_ecs(
                    e.family,
                    e.source_prefix,
                    e.scope_prefix,
                    e.network.take(e.network_len as int),
                ) {
                    Err("cache entry id has noncanonical ECS metadata"@)
                } else {
                    Ok(
                        CacheKeyView {
                            ecs_scope: Some(
                                EcsScopeView {
                                    network: padded16(e.network.take(e.network_len as int)),
                                    ..e
                                },
                            ),
                            ..key
                        },
                    )
                },
            }
        },
    }
}

/// The key that a text names, where `id` is what the octets of the text are as JSON.
pub open spec fn decoded(raw: Seq<char>, id: Option<IdView>) -> Result<CacheKeyView, Seq<char>> {
    if base64_octets(raw) is None {
        Err("cache entry id is not valid base64url"@)
    } else {
        match id {
            None => Err("cache entry id is not valid json"@),
            Some(id) => id_key(id),
        }
    }
}

fn push_bool(out: &mut String, b: bool)
    ensures
        final(out)@ == old(out)@ + json_bool(b),
{
    if b {
        push_text(out, "true");
    } else {
        push_text(out, "false");
    }
}

fn push_number(out: &mut String, n: u64)
    ensures
        final(out)@ == old(out)@ + decimal(n as nat),
{
    push_text(out, decimal_of(n).as_str());
}

fn numbers_json(v: &[u8]) -> (r: String)
    ensures
        r@ == json_numbers(v@),
{
    let mut out = String::new();
    let mut i: usize = 0;
    assert(out@ =~= json_numbers(v@.take(0)));
    while i < v.len()
        invariant
            i <= v@.len(),
            out@ == json_numbers(v@.take(i as int)),
        decreases v@.len() - i,
    {
        let ghost before = out@;
        assert(v@.take(i as int + 1).drop_last() =~= v@.take(i as int));
        if i > 0 {
            push_text(&mut out, ",");
        }
        push_number(&mut out, v[i] as u64);
        assert(out@ =~= json_numbers(v@.take(i as int + 1)));
        i = i + 1;
    }
    assert(v@.take(i as int) =~= v@);
    out
}

fn ecs_json(e: &Option<CacheEntryEcsId>) -> (r: String)
    ensures
        r@ == json_ecs(ecs_id_view(*e)),
{
    match e {
        None => "null".to_owned(),
        Some(e) => {
            let mut out = "{\"family\":".to_owned();
            push_number(&mut out, e.family as u64);
            push_text(&mut out, ",\"source_prefix\":");
            push_number(&mut out, e.source_prefix as u64);
            push_text(&mut out, ",\"scope_prefix\":");
            push_number(&mut out, e.scope_prefix as u64);
            push_text(&mut out, ",\"network_len\":");
            push_number(&mut out, e.network_len as u64);
            push_text(&mut out, ",\"network\":[");
            push_text(&mut out, numbers_json(e.network.as_slice()).as_str());
            push_text(&mut out, "]}");
            out
        },
    }
}

/// The id of a key.
pub fn cache_entry_id(key: &CacheKey) -> (r: CacheEntryId)
    ensures
        r@ == key_id(key@),
{
    CacheEntryId {
        domain: key.domain.clone(),
        record_type: key.record_type.to_u16(),
        dns_class: key.dns_class.to_u16(),
        do_bit: key.do_bit,
        cd_bit: key.cd_bit,
        ecs_scope: match &key.ecs_scope {
            Some(ecs) => Some(
                CacheEntryEcsId {
                    family: ecs.family,
                    source_prefix: ecs.source_prefix,
                    scope_prefix: ecs.scope_prefix,
                    network_len: ecs.network_len,
                    network: ecs.network,
                },
            ),
            None => None,
        },
    }
}

/// The key that an id names.
pub fn cache_key_of_id(id: &CacheEntryId) -> (r: Result<CacheKey, String>)
    ensures
        match r {
            Ok(key) => id_key(id@) == Ok::<CacheKeyView, Seq<char>>(key@) && key@.wf(),
            Err(e) => id_key(id@) == Err::<CacheKeyView, Seq<char>>(e@),
        },
{
    let domain = match normalize_cache_key_domain(id.domain.as_str()) {
        Some(d) => d,
        None => return Err("cache entry id domain is invalid DNS text".to_owned()),
    };
    let ecs_scope: Option<EcsScopeDigest> = match &id.ecs_scope {
        Some(ecs) => {
            let network_len: usize = ecs.network_len as usize;
            if network_len > 16 {
                return Err("cache entry id has invalid ECS network length".to_owned());
            }
            let network = crate::bytes::slice_bytes(ecs.network.as_slice(), 0, network_len);
            assert(network@ =~= ecs.network@.take(network_len as int));
            match canonical_ecs_key_digest(
                ecs.family,
                ecs.source_prefix,
                ecs.scope_prefix,
                network.as_slice(),
            ) {
                Some(digest) => Some(digest),
                None => return Err("cache entry id has noncanonical ECS metadata".to_owned()),
            }
        },
        None => None,
    };
    Ok(
        CacheKey {
            domain,
            record_type: RecordType::from_u16(id.record_type),
            dns_class: DNSClass::from_u16(id.dns_class),
            do_bit: id.do_bit,
            cd_bit: id.cd_bit,
            ecs_scope,
        },
    )
}

/// The JSON text of a key.
pub open spec fn key_json(k: CacheKeyView) -> Seq<char> {
    id_json(key_id(k))
}

/// The text that names an entry: the JSON text of its key in base64. A JSON text beyond
/// the limit of memory has none.
pub fn encode_cache_entry_id(key: &CacheKey) -> (r: Result<String, String>)
    ensures
        match r {
            Ok(text) => {
                &&& encode_utf8(key_json(key@)).len() <= isize::MAX / 2
                &&& text@ == base64_text(encode_utf8(key_json(key@)))
            },
            Err(e) => {
                &&& encode_utf8(key_json(key@)).len() > isize::MAX / 2
                &&& e@ == "failed to encode cache entry id: too long"@
            },
        },
{
    let id = cache_entry_id(key);
    let mut out = "{\"domain\":".to_owned();
    push_text(&mut out, quote_json(key.domain.as_str()).as_str());
    push_text(&mut out, ",\"record_type\":");
    push_number(&mut out, id.record_type as u64);
    push_text(&mut out, ",\"dns_class\":");
    push_number(&mut out, id.dns_class as u64);
    push_text(&mut out, ",\"do_bit\":");
    push_bool(&mut out, id.do_bit);
    push_text(&mut out, ",\"cd_bit\":");
    push_bool(&mut out, id.cd_bit);
    push_text(&mut out, ",\"ecs_scope\":");
    push_text(&mut out, ecs_json(&id.ecs_scope).as_str());
    push_text(&mut out, "}");
    assert(out@ == id_json(id@));
    let octets = out.as_str().as_bytes();
    if octets.len() > isize::MAX as usize / 2 {
        return Err("failed to encode cache entry id: too long".to_owned());
    }
    Ok(base64_encode(octets))
}

/// The octets of a text that names an entry: a JSON text, where an entry is named.
pub fn entry_id_octets(raw: &str) -> (r: Option<Vec<u8>>)
    ensures
        octets_view(r) == base64_octets(raw@),
{
    base64_decode(raw)
}

/// The key that a text names, where `id` is what the octets of the text are as JSON.
pub fn decode_cache_entry_id(raw: &str, id: &Option<CacheEntryId>) -> (r: Result<CacheKey, String>)
    ensures
        match r {
            Ok(key) => decoded(raw@, id_view(*id)) == Ok::<CacheKeyView, Seq<char>>(key@)
                && key@.wf(),
            Err(e) => decoded(raw@, id_view(*id)) == Err::<CacheKeyView, Seq<char>>(e@),
        },
{
    if entry_id_octets(raw).is_none() {
        return Err("cache entry id is not valid base64url".to_owned());
    }
    match id {
        Some(id) => cache_key_of_id(id),
        None => Err("cache entry id is not valid json".to_owned()),
    }
}

/// Whether a key is in the form that its id names.
pub open spec fn canonical_key(k: CacheKeyView) -> bool {
    &&& canonical_domain(k.domain) == Some(k.domain)
    &&& k.record_type.canonical()
    &&& k.dns_class.canonical()
    &&& k.ecs_scope matches Some(e) ==> e.wf() && canonical_ecs(
        e.family,
        e.source_prefix,
        e.scope_prefix,
        e.significant(),
    ) && e.network == padded16(e.significant())
}

/// The text that names an entry has the octets of the JSON text of its key, and the id of
/// a canonical key names that key: what reads the JSON text back as the id gives the key.
pub proof fn law_id_names_key(k: CacheKeyView)
    requires
        canonical_key(k),
    ensures
        base64_octets(base64_text(encode_utf8(key_json(k)))) == Some(encode_utf8(key_json(k))),
        id_key(key_id(k)) == Ok::<CacheKeyView, Seq<char>>(k),
        decoded(base64_text(encode_utf8(key_json(k))), Some(key_id(k))) == Ok::<
            CacheKeyView,
            Seq<char>,
        >(k),
{
    lemma_base64_octets_of_text(encode_utf8(key_json(k)));
}

} // verus!
