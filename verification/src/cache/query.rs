//! Queries for pages of cache entries, and the order of the entries.

use vstd::prelude::*;
use vstd::utf8::{decode_utf8, encode_utf8, valid_utf8};

use std::cmp::Ordering;

use crate::cache::entry_id::{decode_cache_entry_id, decoded, id_view, CacheEntryId, IdView};
use crate::cache::key::{
    normalize_domain_key, normalized_domain, CacheKey, CacheKeyView, EcsScopeDigest, EcsScopeView,
};
use crate::text::{
    chars_of, concat, contains, contains_chars, lower_text, number_of, parse_number, pieces,
    same_text, split_on, string_from, to_lowercase, trim, trimmed, views,
};

verus! {

/// The number of entries on a page where a query names none.
pub const DEFAULT_PAGE_LIMIT: usize = 100;

/// The largest number of entries on a page.
pub const MAX_PAGE_LIMIT: usize = 500;

/// Which entries to list.
#[derive(Debug, PartialEq, Eq)]
pub struct CacheEntriesQuery {
    pub limit: usize,
    /// The key of the last entry on the previous page.
    pub cursor: Option<CacheKey>,
    pub qname: Option<String>,
}

/// The mathematical content of a [`CacheEntriesQuery`].
pub struct QueryView {
    pub limit: usize,
    pub cursor: Option<CacheKeyView>,
    pub qname: Option<Seq<char>>,
}

pub open spec fn key_view(k: Option<CacheKey>) -> Option<CacheKeyView> {
    match k {
        Some(k) => Some(k@),
        None => None,
    }
}

pub open spec fn text_view(t: Option<String>) -> Option<Seq<char>> {
    match t {
        Some(t) => Some(t@),
        None => None,
    }
}

impl View for CacheEntriesQuery {
    type V = QueryView;

    open spec fn view(&self) -> QueryView {
        QueryView {
            limit: self.limit,
            cursor: key_view(self.cursor),
            qname: text_view(self.qname),
        }
    }
}

pub open spec fn hex_digit(b: u8) -> Option<u8> {
    if 48 <= b <= 57 {
        Some((b - 48) as u8)
    } else if 65 <= b <= 70 {
        Some((b - 55) as u8)
    } else if 97 <= b <= 102 {
        Some((b - 87) as u8)
    } else {
        None
    }
}

/// The octets that a part of a query stands for: `+` is a space, and `%` with two
/// hexadecimal digits is an octet.
pub open spec fn form_octets(s: Seq<u8>) -> Seq<u8>
    decreases s.len(),
{
    if s.len() == 0 {
        Seq::empty()
    } else if s[0] == 43 {
        seq![32u8] + form_octets(s.skip(1))
    } else if s[0] == 37 && s.len() >= 3 && hex_digit(s[1]) is Some && hex_digit(s[2]) is Some {
        seq![(hex_digit(s[1])->0 * 16 + hex_digit(s[2])->0) as u8] + form_octets(s.skip(3))
    } else {
        seq![s[0]] + form_octets(s.skip(1))
    }
}

/// The text that a part of a query stands for.
pub open spec fn form_text(s: Seq<char>) -> Option<Seq<char>> {
    let octets = form_octets(encode_utf8(s));
    if valid_utf8(octets) {
        Some(decode_utf8(octets))
    } else {
        None
    }
}

/// `String::from_utf8`: the text of the octets, where they are valid UTF-8.
#[verifier::external_body]
fn utf8_text(octets: Vec<u8>) -> (r: Option<String>)
    ensures
        text_view(r) == (if valid_utf8(octets@) {
            Some(decode_utf8(octets@))
        } else {
            None
        }),
{
    String::from_utf8(octets).ok()
}

fn hex_of(b: u8) -> (r: Option<u8>)
    ensures
        r == hex_digit(b),
        r is Some ==> r->0 < 16,
{
    if 48 <= b && b <= 57 {
        Some(b - 48)
    } else if 65 <= b && b <= 70 {
        Some(b - 55)
    } else if 97 <= b && b <= 102 {
        Some(b - 87)
    } else {
        None
    }
}

/// The octet that stands first, and how many octets it takes.
fn form_step(s: &[u8], i: usize) -> (r: (u8, usize))
    requires
        i < s@.len(),
    ensures
        1 <= r.1 <= s@.len() - i,
        form_octets(s@.skip(i as int)) == seq![r.0] + form_octets(s@.skip(i + r.1)),
{
    let ghost rest = s@.skip(i as int);
    assert(rest.skip(1) =~= s@.skip(i + 1));
    if s[i] == 43 {
        return (32, 1);
    }
    if s[i] == 37 && s.len() - i >= 3 {
        assert(rest.skip(3) =~= s@.skip(i + 3));
        assert(rest[1] == s@[i + 1] && rest[2] == s@[i + 2]);
        if let (Some(high), Some(low)) = (hex_of(s[i + 1]), hex_of(s[i + 2])) {
            return (high * 16 + low, 3);
        }
    }
    (s[i], 1)
}

/// The text that a part of a query stands for.
pub fn decode_form(s: &str) -> (r: Option<String>)
    ensures
        text_view(r) == form_text(s@),
{
    let octets = s.as_bytes();
    let mut out: Vec<u8> = Vec::new();
    let mut i: usize = 0;
    assert(octets@.skip(0) =~= octets@);
    assert(out@ + form_octets(octets@) =~= form_octets(octets@));
    while i < octets.len()
        invariant
            i <= octets@.len(),
            out@ + form_octets(octets@.skip(i as int)) == form_octets(octets@),
        decreases octets@.len() - i,
    {
        let (octet, n) = form_step(octets, i);
        let ghost before = out@;
        out.push(octet);
        assert(out@ + form_octets(octets@.skip(i + n)) =~= before + (seq![octet] + form_octets(
            octets@.skip(i + n),
        )));
        i = i + n;
    }
    assert(octets@.skip(i as int).len() == 0);
    assert(out@ + Seq::<u8>::empty() =~= out@);
    utf8_text(out)
}

/// A parameter: what stands before the first `=` and after it.
pub open spec fn parameter(piece: Seq<char>, at: int) -> (Seq<char>, Seq<char>)
    decreases piece.len() - at,
{
    if at >= piece.len() {
        (piece, Seq::empty())
    } else if piece[at] == '=' {
        (piece.take(at), piece.skip(at + 1))
    } else {
        parameter(piece, at + 1)
    }
}

fn split_parameter(piece: &str) -> (r: (String, String))
    ensures
        (r.0@, r.1@) == parameter(piece@, 0),
{
    let v = chars_of(piece);
    let mut at: usize = 0;
    while at < v.len()
        invariant
            at <= v@.len(),
            v@ == piece@,
            parameter(piece@, at as int) == parameter(piece@, 0),
        decreases v@.len() - at,
    {
        if v[at] == '=' {
            let key = string_from(v.as_slice(), 0, at);
            let value = string_from(v.as_slice(), at + 1, v.len());
            assert(key@ =~= piece@.take(at as int));
            assert(value@ =~= piece@.skip(at + 1));
            return (key, value);
        }
        at = at + 1;
    }
    let key = string_from(v.as_slice(), 0, v.len());
    assert(key@ =~= piece@);
    let value = String::new();
    assert(value@ =~= Seq::empty());
    (key, value)
}

/// A query without parameters.
pub open spec fn default_query() -> QueryView {
    QueryView { limit: DEFAULT_PAGE_LIMIT, cursor: None, qname: None }
}

/// A number within the limits of a page.
pub open spec fn page_limit(n: nat) -> usize {
    if n < 1 {
        1
    } else if n > MAX_PAGE_LIMIT {
        MAX_PAGE_LIMIT
    } else {
        n as usize
    }
}

/// A query with one more parameter. Unknown parameters say nothing. Where the parameter
/// is a cursor, `id` is what its octets are as JSON.
pub open spec fn with_parameter(
    q: QueryView,
    key: Seq<char>,
    value: Seq<char>,
    id: Option<IdView>,
) -> Result<QueryView, Seq<char>> {
    let t = trim(value);
    if key == "limit"@ {
        match number_of(value) {
            Some(n) if n <= usize::MAX => Ok(QueryView { limit: page_limit(n), ..q }),
            _ => Err("limit must be a positive integer"@),
        }
    } else if key == "cursor"@ {
        if t.len() == 0 {
            Ok(QueryView { cursor: None, ..q })
        } else {
            match decoded(t, id) {
                Ok(k) => Ok(QueryView { cursor: Some(k), ..q }),
                Err(e) => Err("invalid cursor: "@ + e),
            }
        }
    } else if key == "qname"@ {
        Ok(
            QueryView {
                qname: if t.len() == 0 {
                    None
                } else {
                    Some(normalized_domain(t))
                },
                ..q
            },
        )
    } else {
        Ok(q)
    }
}

/// A query with the parameter of one piece. An empty piece is none.
pub open spec fn with_piece(q: QueryView, piece: Seq<char>, id: Option<IdView>) -> Result<
    QueryView,
    Seq<char>,
> {
    if piece.len() == 0 {
        Ok(q)
    } else {
        let (key, value) = parameter(piece, 0);
        match (form_text(key), form_text(value)) {
            (Some(k), Some(v)) => with_parameter(q, k, v, id),
            _ => Err("query is not valid UTF-8"@),
        }
    }
}

/// The text of the cursor that a piece holds, if it holds one.
pub open spec fn cursor_of(piece: Seq<char>) -> Option<Seq<char>> {
    let (key, value) = parameter(piece, 0);
    match (form_text(key), form_text(value)) {
        (Some(k), Some(v)) if k == "cursor"@ && trim(v).len() > 0 => Some(trim(v)),
        _ => None,
    }
}

/// The texts of the cursors of some pieces.
pub open spec fn cursors_of(parts: Seq<Seq<char>>) -> Seq<Seq<char>>
    decreases parts.len(),
{
    if parts.len() == 0 {
        Seq::empty()
    } else {
        let rest = cursors_of(parts.drop_last());
        match cursor_of(parts.last()) {
            Some(t) => rest.push(t),
            None => rest,
        }
    }
}

/// The texts of the cursors in the query of a URL.
pub open spec fn query_cursors(raw: Option<Seq<char>>) -> Seq<Seq<char>> {
    match raw {
        Some(s) => cursors_of(pieces(s, '&')),
        None => Seq::empty(),
    }
}

/// The ids of some cursors.
pub open spec fn id_views(ids: Seq<Option<CacheEntryId>>) -> Seq<Option<IdView>> {
    Seq::new(ids.len(), |i: int| id_view(ids[i]))
}

/// The id at a place, if there is one.
pub open spec fn id_at(ids: Seq<Option<IdView>>, i: int) -> Option<IdView> {
    if 0 <= i < ids.len() {
        ids[i]
    } else {
        None
    }
}

/// The query of some pieces, the first problem where there is one. The octets of the
/// cursors are the `ids` as JSON, in their order.
pub open spec fn query_of(parts: Seq<Seq<char>>, ids: Seq<Option<IdView>>) -> Result<
    QueryView,
    Seq<char>,
>
    decreases parts.len(),
{
    if parts.len() == 0 {
        Ok(default_query())
    } else {
        match query_of(parts.drop_last(), ids) {
            Ok(q) => with_piece(
                q,
                parts.last(),
                id_at(ids, cursors_of(parts.drop_last()).len() as int),
            ),
            Err(e) => Err(e),
        }
    }
}

/// The query of a URL, whose cursors have octets that are the `ids` as JSON.
pub open spec fn parsed_query(raw: Option<Seq<char>>, ids: Seq<Option<IdView>>) -> Result<
    QueryView,
    Seq<char>,
> {
    match raw {
        Some(s) => query_of(pieces(s, '&'), ids),
        None => Ok(default_query()),
    }
}

/// The content of an optional text.
pub open spec fn optional_view(s: Option<&str>) -> Option<Seq<char>> {
    match s {
        Some(s) => Some(s@),
        None => None,
    }
}

fn optional_text(value: &str) -> (r: Option<String>)
    ensures
        text_view(r) == (if trim(value@).len() == 0 {
            None
        } else {
            Some(trim(value@))
        }),
{
    let t = trimmed(value);
    if t.len() == 0 {
        None
    } else {
        let s = string_from(t.as_slice(), 0, t.len());
        assert(s@ =~= t@);
        Some(s)
    }
}

fn apply_parameter(q: CacheEntriesQuery, key: &str, value: &str, id: &Option<CacheEntryId>) -> (r:
    Result<CacheEntriesQuery, String>)
    ensures
        match r {
            Ok(p) => with_parameter(q@, key@, value@, id_view(*id)) == Ok::<QueryView, Seq<char>>(
                p@,
            ),
            Err(e) => with_parameter(q@, key@, value@, id_view(*id)) == Err::<QueryView, Seq<char>>(
                e@,
            ),
        },
{
    let mut q = q;
    if same_text(key, "limit") {
        let digits = chars_of(value);
        match parse_number(digits.as_slice()) {
            Some(n) => {
                if n > usize::MAX as u64 {
                    return Err("limit must be a positive integer".to_owned());
                }
                let n: usize = n as usize;
                q.limit = if n < 1 {
                    1
                } else if n > MAX_PAGE_LIMIT {
                    MAX_PAGE_LIMIT
                } else {
                    n
                };
            },
            None => {
                return Err("limit must be a positive integer".to_owned());
            },
        }
    } else if same_text(key, "cursor") {
        q.cursor = match optional_text(value) {
            Some(raw) => match decode_cache_entry_id(raw.as_str(), id) {
                Ok(k) => Some(k),
                Err(e) => {
                    return Err(concat("invalid cursor: ", e.as_str()));
                },
            },
            None => None,
        };
    } else if same_text(key, "qname") {
        q.qname = match optional_text(value) {
            Some(raw) => Some(normalize_domain_key(raw.as_str())),
            None => None,
        };
    }
    Ok(q)
}

fn apply_piece(q: CacheEntriesQuery, piece: &str, id: &Option<CacheEntryId>) -> (r: Result<
    CacheEntriesQuery,
    String,
>)
    ensures
        match r {
            Ok(p) => with_piece(q@, piece@, id_view(*id)) == Ok::<QueryView, Seq<char>>(p@),
            Err(e) => with_piece(q@, piece@, id_view(*id)) == Err::<QueryView, Seq<char>>(e@),
        },
{
    if piece.is_empty() {
        return Ok(q);
    }
    let (key, value) = split_parameter(piece);
    match (decode_form(key.as_str()), decode_form(value.as_str())) {
        (Some(k), Some(v)) => apply_parameter(q, k.as_str(), v.as_str(), id),
        _ => Err("query is not valid UTF-8".to_owned()),
    }
}

fn cursor_in(piece: &str) -> (r: Option<String>)
    ensures
        text_view(r) == cursor_of(piece@),
{
    let (key, value) = split_parameter(piece);
    match (decode_form(key.as_str()), decode_form(value.as_str())) {
        (Some(k), Some(v)) => if same_text(k.as_str(), "cursor") {
            optional_text(v.as_str())
        } else {
            None
        },
        _ => None,
    }
}

/// The texts of the cursors in the query of a URL.
pub fn cursor_texts(query: Option<&str>) -> (r: Vec<String>)
    ensures
        views(r@) == query_cursors(optional_view(query)),
{
    let mut texts: Vec<String> = Vec::new();
    assert(views(texts@) =~= Seq::empty());
    let raw = match query {
        Some(s) => s,
        None => return texts,
    };
    let parts = split_on(raw, '&');
    let ghost all = pieces(raw@, '&');
    let mut i: usize = 0;
    assert(all.take(0) =~= Seq::empty());
    while i < parts.len()
        invariant
            i <= parts@.len(),
            all == views(parts@),
            views(texts@) == cursors_of(all.take(i as int)),
        decreases parts@.len() - i,
    {
        assert(all.take(i + 1).drop_last() =~= all.take(i as int));
        assert(all.take(i + 1).last() == parts@[i as int]@);
        let ghost before = texts@;
        if let Some(t) = cursor_in(parts[i].as_str()) {
            texts.push(t);
            assert(views(texts@) =~= views(before).push(t@));
        }
        i = i + 1;
    }
    assert(all.take(i as int) =~= all);
    texts
}

/// The query of a URL. The octets of its cursors are the `ids` as JSON, in the order of
/// the cursors.
pub fn parse_cache_entries_query(query: Option<&str>, ids: &Vec<Option<CacheEntryId>>) -> (r:
    Result<CacheEntriesQuery, String>)
    ensures
        match r {
            Ok(q) => parsed_query(optional_view(query), id_views(ids@)) == Ok::<
                QueryView,
                Seq<char>,
            >(q@),
            Err(e) => parsed_query(optional_view(query), id_views(ids@)) == Err::<
                QueryView,
                Seq<char>,
            >(e@),
        },
{
    let mut q = CacheEntriesQuery { limit: DEFAULT_PAGE_LIMIT, cursor: None, qname: None };
    let raw = match query {
        Some(s) => s,
        None => return Ok(q),
    };
    let parts = split_on(raw, '&');
    let ghost all = pieces(raw@, '&');
    let ghost read = id_views(ids@);
    let none: Option<CacheEntryId> = None;
    let mut cursors: usize = 0;
    let mut i: usize = 0;
    assert(all.take(0) =~= Seq::empty());
    while i < parts.len()
        invariant
            i <= parts@.len(),
            all == views(parts@),
            all == pieces(raw@, '&'),
            query == Some(raw),
            read == id_views(ids@),
            none is None,
            cursors <= i,
            cursors == cursors_of(all.take(i as int)).len(),
            query_of(all.take(i as int), read) == Ok::<QueryView, Seq<char>>(q@),
        decreases parts@.len() - i,
    {
        assert(all.take(i + 1).drop_last() =~= all.take(i as int));
        assert(all.take(i + 1).last() == parts@[i as int]@);
        let id: &Option<CacheEntryId> = if cursors < ids.len() {
            &ids[cursors]
        } else {
            &none
        };
        assert(id_view(*id) == id_at(read, cursors as int));
        match apply_piece(q, parts[i].as_str(), id) {
            Ok(p) => {
                q = p;
            },
            Err(e) => {
                proof {
                    lemma_first_problem(all, read, i + 1);
                }
                return Err(e);
            },
        }
        if cursor_in(parts[i].as_str()).is_some() {
            cursors = cursors + 1;
        }
        i = i + 1;
    }
    assert(all.take(i as int) =~= all);
    Ok(q)
}

proof fn lemma_first_problem(parts: Seq<Seq<char>>, ids: Seq<Option<IdView>>, n: int)
    requires
        0 <= n <= parts.len(),
        query_of(parts.take(n), ids) is Err,
    ensures
        query_of(parts, ids) == query_of(parts.take(n), ids),
    decreases parts.len() - n,
{
    if n < parts.len() {
        assert(parts.take(n + 1).drop_last() =~= parts.take(n));
        lemma_first_problem(parts, ids, n + 1);
    } else {
        assert(parts.take(n) =~= parts);
    }
}

/// Whether a text occurs in another when ASCII case is left aside.
pub fn contains_ascii_case_insensitive(haystack: &str, needle: &str) -> (r: bool)
    ensures
        r == contains(lower_text(haystack@), lower_text(needle@)),
{
    let hay = chars_of(to_lowercase(haystack).as_str());
    let sought = chars_of(to_lowercase(needle).as_str());
    contains_chars(hay.as_slice(), sought.as_slice())
}

/// Whether an entry with this key is asked for.
pub open spec fn asked_for(k: CacheKeyView, q: QueryView) -> bool {
    q.qname matches Some(n) ==> contains(lower_text(k.domain), lower_text(n))
}

/// Whether an entry is wanted.
pub fn cache_entry_matches_query(key: &CacheKey, query: &CacheEntriesQuery) -> (r: bool)
    ensures
        r == asked_for(key@, query@),
{
    match &query.qname {
        Some(qname) => contains_ascii_case_insensitive(key.domain.as_str(), qname.as_str()),
        None => true,
    }
}

/// Whether a sequence comes before another: at the first difference it has the smaller
/// number, or it ends first.
pub open spec fn comes_before(a: Seq<u32>, b: Seq<u32>) -> bool
    decreases a.len(),
{
    if b.len() == 0 {
        false
    } else if a.len() == 0 {
        true
    } else if a[0] != b[0] {
        a[0] < b[0]
    } else {
        comes_before(a.skip(1), b.skip(1))
    }
}

pub open spec fn flag(b: bool) -> u32 {
    if b {
        1
    } else {
        0
    }
}

/// The numbers of a subnet part. No subnet comes before any.
pub open spec fn scope_rank(e: Option<EcsScopeView>) -> Seq<u32> {
    match e {
        None => seq![0u32],
        Some(e) => seq![
            1u32,
            e.family as u32,
            e.source_prefix as u32,
            e.scope_prefix as u32,
            e.network_len as u32,
        ] + Seq::new(e.network.len(), |i: int| e.network[i] as u32),
    }
}

/// The number of a character, from one.
pub open spec fn char_rank(c: char) -> u32 {
    (c as u32 + 1) as u32
}

fn char_rank_of(c: char) -> (r: u32)
    ensures
        r == char_rank(c),
{
    c as u32 + 1
}

proof fn lemma_char_rank(c: char, d: char)
    ensures
        char_rank(c) > 0,
        char_rank(c) == char_rank(d) ==> c == d,
{
}

/// The numbers of a text, which end with a zero.
pub open spec fn text_rank(s: Seq<char>) -> Seq<u32> {
    Seq::new(s.len(), |i: int| char_rank(s[i])).push(0)
}

/// The place of a key in the order: by domain, type, class, flags and subnet.
pub open spec fn key_rank(k: CacheKeyView) -> Seq<u32> {
    text_rank(k.domain) + seq![
        k.record_type.number() as u32,
        k.dns_class.number() as u32,
        flag(k.do_bit),
        flag(k.cd_bit),
    ] + scope_rank(k.ecs_scope)
}

/// The order of keys.
pub open spec fn key_before(a: CacheKeyView, b: CacheKeyView) -> bool {
    comes_before(key_rank(a), key_rank(b))
}

fn flag_of(b: bool) -> (r: u32)
    ensures
        r == flag(b),
{
    if b {
        1
    } else {
        0
    }
}

fn push_scope_rank(out: &mut Vec<u32>, e: &Option<EcsScopeDigest>)
    ensures
        final(out)@ == old(out)@ + scope_rank(crate::cache::key::scope_view(*e)),
{
    let ghost before = out@;
    match e {
        None => {
            out.push(0);
            assert(out@ =~= before + seq![0u32]);
        },
        Some(e) => {
            out.push(1);
            out.push(e.family as u32);
            out.push(e.source_prefix as u32);
            out.push(e.scope_prefix as u32);
            out.push(e.network_len as u32);
            let mut i: usize = 0;
            while i < 16
                invariant
                    i <= 16,
                    out@ == before + (seq![
                        1u32,
                        e.family as u32,
                        e.source_prefix as u32,
                        e.scope_prefix as u32,
                        e.network_len as u32,
                    ] + Seq::new(i as nat, |j: int| e.network@[j] as u32)),
                decreases 16 - i,
            {
                out.push(e.network[i] as u32);
                i = i + 1;
            }
        },
    }
}

/// The place of a key in the order.
pub fn rank_of(key: &CacheKey) -> (r: Vec<u32>)
    ensures
        r@ == key_rank(key@),
{
    let v = chars_of(key.domain.as_str());
    let mut out: Vec<u32> = Vec::new();
    let mut i: usize = 0;
    while i < v.len()
        invariant
            i <= v@.len(),
            v@ == key.domain@,
            out@ == Seq::new(i as nat, |j: int| char_rank(v@[j])),
        decreases v@.len() - i,
    {
        out.push(char_rank_of(v[i]));
        i = i + 1;
    }
    out.push(0);
    assert(out@ =~= text_rank(key@.domain));
    out.push(key.record_type.to_u16() as u32);
    out.push(key.dns_class.to_u16() as u32);
    out.push(flag_of(key.do_bit));
    out.push(flag_of(key.cd_bit));
    assert(out@ =~= text_rank(key@.domain) + seq![
        key@.record_type.number() as u32,
        key@.dns_class.number() as u32,
        flag(key@.do_bit),
        flag(key@.cd_bit),
    ]);
    push_scope_rank(&mut out, &key.ecs_scope);
    out
}

/// Whether a rank comes before another.
pub fn rank_before(a: &[u32], b: &[u32]) -> (r: bool)
    ensures
        r == comes_before(a@, b@),
{
    let mut i: usize = 0;
    assert(a@.skip(0) =~= a@);
    assert(b@.skip(0) =~= b@);
    while i < a.len() && i < b.len()
        invariant
            i <= a@.len(),
            i <= b@.len(),
            comes_before(a@, b@) == comes_before(a@.skip(i as int), b@.skip(i as int)),
        decreases a@.len() - i,
    {
        let ghost x = a@.skip(i as int);
        let ghost y = b@.skip(i as int);
        assert(x.skip(1) =~= a@.skip(i + 1));
        assert(y.skip(1) =~= b@.skip(i + 1));
        if a[i] != b[i] {
            return a[i] < b[i];
        }
        i = i + 1;
    }
    assert(a@.skip(i as int).len() == a@.len() - i);
    assert(b@.skip(i as int).len() == b@.len() - i);
    i < b.len()
}

/// The order of two keys.
pub fn cmp_cache_keys(left: &CacheKey, right: &CacheKey) -> (r: Ordering)
    ensures
        match r {
            Ordering::Less => key_before(left@, right@),
            Ordering::Equal => key_rank(left@) == key_rank(right@),
            Ordering::Greater => key_before(right@, left@),
        },
{
    let a = rank_of(left);
    let b = rank_of(right);
    if rank_before(a.as_slice(), b.as_slice()) {
        Ordering::Less
    } else if rank_before(b.as_slice(), a.as_slice()) {
        Ordering::Greater
    } else {
        proof {
            lemma_rank_total(a@, b@);
        }
        Ordering::Equal
    }
}

/// Of two different ranks one comes before the other.
pub proof fn lemma_rank_total(a: Seq<u32>, b: Seq<u32>)
    ensures
        comes_before(a, b) || comes_before(b, a) || a == b,
        !(comes_before(a, b) && comes_before(b, a)),
        !comes_before(a, a),
    decreases a.len(),
{
    if a.len() > 0 {
        lemma_rank_total(a.skip(1), a.skip(1));
    }
    if a.len() == 0 || b.len() == 0 {
        if a.len() == 0 && b.len() == 0 {
            assert(a =~= b);
        }
    } else if a[0] == b[0] {
        lemma_rank_total(a.skip(1), b.skip(1));
        if a.skip(1) == b.skip(1) {
            assert forall|i: int| 0 <= i < a.len() implies a[i] == b[i] by {
                if i > 0 {
                    assert(a.skip(1)[i - 1] == b.skip(1)[i - 1]);
                }
            }
            assert(a.skip(1).len() == b.skip(1).len());
            assert(a =~= b);
        }
    }
}

pub proof fn lemma_rank_transitive(a: Seq<u32>, b: Seq<u32>, c: Seq<u32>)
    requires
        comes_before(a, b),
        comes_before(b, c),
    ensures
        comes_before(a, c),
    decreases a.len(),
{
    if a.len() > 0 && b.len() > 0 && c.len() > 0 && a[0] == b[0] && b[0] == c[0] {
        lemma_rank_transitive(a.skip(1), b.skip(1), c.skip(1));
    }
}

/// The order of keys is total: of two keys one comes first, or they have the same
/// place.
pub proof fn law_key_order_total(a: CacheKeyView, b: CacheKeyView)
    ensures
        key_before(a, b) || key_before(b, a) || key_rank(a) == key_rank(b),
        !(key_before(a, b) && key_before(b, a)),
{
    lemma_rank_total(key_rank(a), key_rank(b));
}

/// The order of keys is transitive.
pub proof fn law_key_order_transitive(a: CacheKeyView, b: CacheKeyView, c: CacheKeyView)
    requires
        key_before(a, b),
        key_before(b, c),
    ensures
        key_before(a, c),
{
    lemma_rank_transitive(key_rank(a), key_rank(b), key_rank(c));
}

/// Keys with the same place are the same key.
pub proof fn law_same_place_same_key(a: CacheKeyView, b: CacheKeyView)
    requires
        a.wf(),
        b.wf(),
        a.record_type.canonical(),
        b.record_type.canonical(),
        a.dns_class.canonical(),
        b.dns_class.canonical(),
        key_rank(a) == key_rank(b),
    ensures
        a == b,
{
    let x = key_rank(a);
    let y = key_rank(b);
    let n = a.domain.len() as int;
    let m = b.domain.len() as int;
    if n < m {
        lemma_char_rank(b.domain[n], b.domain[n]);
        assert(x[n] == 0);
        assert(y[n] == char_rank(b.domain[n]));
    }
    if m < n {
        lemma_char_rank(a.domain[m], a.domain[m]);
        assert(y[m] == 0);
        assert(x[m] == char_rank(a.domain[m]));
    }
    assert forall|i: int| 0 <= i < n implies a.domain[i] == b.domain[i] by {
        lemma_char_rank(a.domain[i], b.domain[i]);
        assert(x[i] == char_rank(a.domain[i]));
        assert(y[i] == char_rank(b.domain[i]));
    }
    assert(a.domain =~= b.domain);
    assert(x[n + 1] == a.record_type.number() as u32);
    assert(y[n + 1] == b.record_type.number() as u32);
    assert(x[n + 2] == a.dns_class.number() as u32);
    assert(y[n + 2] == b.dns_class.number() as u32);
    assert(x[n + 3] == flag(a.do_bit) && y[n + 3] == flag(b.do_bit));
    assert(x[n + 4] == flag(a.cd_bit) && y[n + 4] == flag(b.cd_bit));
    let p = scope_rank(a.ecs_scope);
    let q = scope_rank(b.ecs_scope);
    assert(x.skip(n + 5) =~= p);
    assert(y.skip(n + 5) =~= q);
    assert(p[0] == q[0]);
    if a.ecs_scope is Some {
        let e = a.ecs_scope->0;
        let f = b.ecs_scope->0;
        assert(p[1] == e.family as u32 && q[1] == f.family as u32);
        assert(p[2] == e.source_prefix as u32 && q[2] == f.source_prefix as u32);
        assert(p[3] == e.scope_prefix as u32 && q[3] == f.scope_prefix as u32);
        assert(p[4] == e.network_len as u32 && q[4] == f.network_len as u32);
        assert forall|i: int| 0 <= i < 16 implies e.network[i] == f.network[i] by {
            assert(p[5 + i] == e.network[i] as u32);
            assert(q[5 + i] == f.network[i] as u32);
        }
        assert(e.network =~= f.network);
    }
}

/// Whether keys stand in order.
pub open spec fn in_order(keys: Seq<CacheKeyView>) -> bool {
    forall|i: int, j: int|
        0 <= i < j < keys.len() ==> !key_before(#[trigger] keys[j], #[trigger] keys[i])
}

pub open spec fn entry_keys<T>(entries: Seq<(CacheKey, T)>) -> Seq<CacheKeyView> {
    Seq::new(entries.len(), |i: int| entries[i].0@)
}

/// Where a page begins in entries that stand in order: behind all that come before the
/// cursor or stand in its place.
pub fn cache_entries_cursor_start<T>(entries: &[(CacheKey, T)], cursor: Option<&CacheKey>) -> (r:
    usize)
    requires
        in_order(entry_keys(entries@)),
    ensures
        r <= entries@.len(),
        match cursor {
            None => r == 0,
            Some(c) => {
                &&& forall|i: int|
                    0 <= i < r ==> !key_before(c@, #[trigger] entry_keys(entries@)[i])
                &&& forall|i: int|
                    r <= i < entries@.len() ==> key_before(c@, #[trigger] entry_keys(entries@)[i])
            },
        },
{
    let cursor = match cursor {
        None => return 0,
        Some(c) => c,
    };
    let ghost keys = entry_keys(entries@);
    let place = rank_of(cursor);
    let mut low: usize = 0;
    let mut high: usize = entries.len();
    while low < high
        invariant
            low <= high <= entries@.len(),
            keys == entry_keys(entries@),
            in_order(keys),
            place@ == key_rank(cursor@),
            forall|i: int| 0 <= i < low ==> !key_before(cursor@, #[trigger] keys[i]),
            forall|i: int| high <= i < keys.len() ==> key_before(cursor@, #[trigger] keys[i]),
        decreases high - low,
    {
        let middle: usize = low + (high - low) / 2;
        let found = rank_of(&entries[middle].0);
        assert(found@ == key_rank(keys[middle as int]));
        if rank_before(place.as_slice(), found.as_slice()) {
            assert forall|i: int| middle <= i < keys.len() implies key_before(
                cursor@,
                #[trigger] keys[i],
            ) by {
                if i > middle {
                    lemma_place_between(cursor@, keys[middle as int], keys[i]);
                }
            }
            high = middle;
        } else {
            assert forall|i: int| 0 <= i <= middle implies !key_before(cursor@, #[trigger] keys[i]) by {
                if i < middle && key_before(cursor@, keys[i]) {
                    lemma_place_between(cursor@, keys[i], keys[middle as int]);
                }
            }
            low = middle + 1;
        }
    }
    low
}

/// What comes before a key comes before whatever does not come before that key.
pub proof fn lemma_place_between(a: CacheKeyView, b: CacheKeyView, c: CacheKeyView)
    requires
        key_before(a, b),
        !key_before(c, b),
    ensures
        key_before(a, c),
{
    law_key_order_total(b, c);
    if key_before(b, c) {
        law_key_order_transitive(a, b, c);
    }
}

} // verus!
