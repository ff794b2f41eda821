//! Texts that name cache entries are different for different entries.

use vstd::prelude::*;
use vstd::utf8::{encode_utf8, encode_utf8_decode_utf8};

use crate::cache::entry_id::{
    base64_text, canonical_key, hex_char, id_json, json_bool, json_char, json_chars, json_ecs,
    json_numbers, json_quoted, key_id, key_json, law_id_names_key, lemma_base64_injective, IdView,
};
use crate::cache::key::{CacheKeyView, EcsScopeView};
use crate::text::{all_decimal, decimal, is_decimal};

verus! {

proof fn lemma_same_head(p: Seq<char>, x: Seq<char>, y: Seq<char>)
    requires
        p + x == p + y,
    ensures
        x == y,
{
    assert(x =~= (p + x).skip(p.len() as int));
    assert(y =~= (p + y).skip(p.len() as int));
}

proof fn lemma_same_tail(x: Seq<char>, y: Seq<char>, p: Seq<char>)
    requires
        x + p == y + p,
    ensures
        x == y,
{
    assert((x + p).len() == (y + p).len());
    assert(x =~= (x + p).take(x.len() as int));
    assert(y =~= (y + p).take(y.len() as int));
}

proof fn lemma_decimal_digits(n: nat)
    ensures
        decimal(n).len() > 0,
        n >= 10 ==> decimal(n).len() > 1,
        all_decimal(decimal(n)),
    decreases n,
{
    if n >= 10 {
        lemma_decimal_digits(n / 10);
    }
}

proof fn lemma_decimal_injective(n: nat, m: nat)
    requires
        decimal(n) == decimal(m),
    ensures
        n == m,
    decreases n,
{
    lemma_decimal_digits(n);
    lemma_decimal_digits(m);
    let s = decimal(n);
    if n < 10 {
        assert(s.len() == 1);
        assert(s[0] as u32 == 48 + n);
        assert(s[0] as u32 == 48 + m);
    } else {
        assert(m >= 10) by {
            if m < 10 {
                assert(decimal(m).len() == 1);
            }
        }
        assert(s.last() as u32 == 48 + n % 10);
        assert(s.last() as u32 == 48 + m % 10);
        assert(s.drop_last() =~= decimal(n / 10));
        assert(s.drop_last() =~= decimal(m / 10));
        lemma_decimal_injective(n / 10, m / 10);
    }
}

/// Whether a text begins with something other than a digit.
spec fn no_digit_first(s: Seq<char>) -> bool {
    s.len() > 0 && !is_decimal(s[0])
}

proof fn lemma_decimal_split(n: nat, m: nat, x: Seq<char>, y: Seq<char>)
    requires
        decimal(n) + x == decimal(m) + y,
        no_digit_first(x),
        no_digit_first(y),
    ensures
        n == m,
        x == y,
{
    let a = decimal(n);
    let b = decimal(m);
    let s = a + x;
    lemma_decimal_digits(n);
    lemma_decimal_digits(m);
    if a.len() < b.len() {
        assert(s[a.len() as int] == x[0]);
        assert((b + y)[a.len() as int] == b[a.len() as int]);
    }
    if b.len() < a.len() {
        assert((b + y)[b.len() as int] == y[0]);
        assert(s[b.len() as int] == a[b.len() as int]);
    }
    assert(a =~= s.take(a.len() as int));
    assert(b =~= (b + y).take(b.len() as int));
    lemma_decimal_injective(n, m);
    lemma_same_head(a, x, y);
}

proof fn lemma_decimal_split_end(x: Seq<char>, y: Seq<char>, n: nat, m: nat)
    requires
        x + decimal(n) == y + decimal(m),
        x.len() > 0,
        y.len() > 0,
        !is_decimal(x.last()),
        !is_decimal(y.last()),
    ensures
        n == m,
        x == y,
{
    let a = decimal(n);
    let b = decimal(m);
    let s = x + a;
    lemma_decimal_digits(n);
    lemma_decimal_digits(m);
    assert(s.len() == x.len() + a.len() == y.len() + b.len());
    if a.len() < b.len() {
        let i = x.len() - 1;
        assert(s[i] == x.last());
        assert((y + b)[i] == b[i - y.len()]);
    }
    if b.len() < a.len() {
        let i = y.len() - 1;
        assert((y + b)[i] == y.last());
        assert(s[i] == a[i - x.len()]);
    }
    assert(a =~= s.skip(x.len() as int));
    assert(b =~= (y + b).skip(y.len() as int));
    lemma_decimal_injective(n, m);
    lemma_same_tail(x, y, a);
}

proof fn lemma_numbers_injective(a: Seq<u8>, b: Seq<u8>)
    requires
        a.len() == b.len(),
        json_numbers(a) == json_numbers(b),
    ensures
        a == b,
    decreases a.len(),
{
    if a.len() == 1 {
        lemma_decimal_injective(a[0] as nat, b[0] as nat);
    } else if a.len() > 1 {
        reveal_strlit(",");
        let x = json_numbers(a.drop_last()) + ","@;
        let y = json_numbers(b.drop_last()) + ","@;
        assert(x.last() == ',' && y.last() == ',');
        lemma_decimal_split_end(x, y, a.last() as nat, b.last() as nat);
        lemma_same_tail(json_numbers(a.drop_last()), json_numbers(b.drop_last()), ","@);
        lemma_numbers_injective(a.drop_last(), b.drop_last());
        assert(a =~= a.drop_last().push(a.last()));
        assert(b =~= b.drop_last().push(b.last()));
    }
    assert(a =~= b);
}

proof fn lemma_hex_injective(a: int, b: int)
    requires
        0 <= a < 16,
        0 <= b < 16,
        hex_char(a) == hex_char(b),
    ensures
        a == b,
{
    assert(hex_char(a) as u32 == hex_char(b) as u32);
}

proof fn lemma_json_char_split(c: char, d: char, x: Seq<char>, y: Seq<char>)
    requires
        json_char(c) + x == json_char(d) + y,
    ensures
        c == d,
        x == y,
{
    let a = json_char(c);
    let b = json_char(d);
    let s = a + x;
    let t = b + y;
    assert(s[0] == a[0] && t[0] == b[0]);
    if a.len() > 1 && b.len() > 1 {
        assert(s[1] == a[1] && t[1] == b[1]);
        if a.len() == 6 && b.len() == 6 {
            assert(s[4] == a[4] && t[4] == b[4]);
            assert(s[5] == a[5] && t[5] == b[5]);
            let v = c as u32 as int;
            let w = d as u32 as int;
            lemma_hex_injective(v / 16, w / 16);
            lemma_hex_injective(v % 16, w % 16);
        }
    }
    assert(c == d);
    lemma_same_head(a, x, y);
}

/// The characters of a text end where a quote stands.
proof fn lemma_json_chars_split(a: Seq<char>, b: Seq<char>, x: Seq<char>, y: Seq<char>)
    requires
        json_chars(a) + (seq!['"'] + x) == json_chars(b) + (seq!['"'] + y),
    ensures
        a == b,
        x == y,
    decreases a.len(),
{
    let p = seq!['"'] + x;
    let q = seq!['"'] + y;
    if a.len() == 0 && b.len() == 0 {
        assert(json_chars(a) + p =~= p);
        assert(json_chars(b) + q =~= q);
        lemma_same_head(seq!['"'], x, y);
        assert(a =~= b);
    } else if a.len() == 0 {
        assert((json_chars(a) + p)[0] == '"');
        assert((json_chars(b) + q)[0] == json_char(b[0])[0]);
    } else if b.len() == 0 {
        assert((json_chars(b) + q)[0] == '"');
        assert((json_chars(a) + p)[0] == json_char(a[0])[0]);
    } else {
        let a1 = json_chars(a.skip(1));
        let b1 = json_chars(b.skip(1));
        assert(json_chars(a) + p =~= json_char(a[0]) + (a1 + p));
        assert(json_chars(b) + q =~= json_char(b[0]) + (b1 + q));
        lemma_json_char_split(a[0], b[0], a1 + p, b1 + q);
        lemma_json_chars_split(a.skip(1), b.skip(1), x, y);
        assert(a =~= seq![a[0]] + a.skip(1));
        assert(b =~= seq![b[0]] + b.skip(1));
    }
}

proof fn lemma_quoted_split(a: Seq<char>, b: Seq<char>, x: Seq<char>, y: Seq<char>)
    requires
        json_quoted(a) + x == json_quoted(b) + y,
    ensures
        a == b,
        x == y,
{
    let p = json_chars(a) + (seq!['"'] + x);
    let q = json_chars(b) + (seq!['"'] + y);
    assert(json_quoted(a) + x =~= seq!['"'] + p);
    assert(json_quoted(b) + y =~= seq!['"'] + q);
    lemma_same_head(seq!['"'], p, q);
    lemma_json_chars_split(a, b, x, y);
}

proof fn lemma_bool_split(a: bool, b: bool, x: Seq<char>, y: Seq<char>)
    requires
        json_bool(a) + x == json_bool(b) + y,
    ensures
        a == b,
        x == y,
{
    reveal_strlit("true");
    reveal_strlit("false");
    assert((json_bool(a) + x)[0] == json_bool(a)[0]);
    assert((json_bool(b) + y)[0] == json_bool(b)[0]);
    lemma_same_head(json_bool(a), x, y);
}

proof fn lemma_assoc(p: Seq<char>, q: Seq<char>, x: Seq<char>)
    ensures
        (p + q) + x == p + (q + x),
{
    assert((p + q) + x =~= p + (q + x));
}

/// Pieces that are joined from the front are those that are joined from the end.
proof fn lemma_regroup(
    a: Seq<char>,
    b: Seq<char>,
    c: Seq<char>,
    d: Seq<char>,
    e: Seq<char>,
    f: Seq<char>,
    g: Seq<char>,
    h: Seq<char>,
    i: Seq<char>,
    j: Seq<char>,
    k: Seq<char>,
)
    ensures
        a + b + c + d + e + f + g + h + i + j + k == a + (b + (c + (d + (e + (f + (g + (h + (i + (j + (k)))))))))),
{
    lemma_assoc(a + b + c + d + e + f + g + h + i, j, k);
    lemma_assoc(a + b + c + d + e + f + g + h, i, j + (k));
    lemma_assoc(a + b + c + d + e + f + g, h, i + (j + (k)));
    lemma_assoc(a + b + c + d + e + f, g, h + (i + (j + (k))));
    lemma_assoc(a + b + c + d + e, f, g + (h + (i + (j + (k)))));
    lemma_assoc(a + b + c + d, e, f + (g + (h + (i + (j + (k))))));
    lemma_assoc(a + b + c, d, e + (f + (g + (h + (i + (j + (k)))))));
    lemma_assoc(a + b, c, d + (e + (f + (g + (h + (i + (j + (k))))))));
    lemma_assoc(a, b, c + (d + (e + (f + (g + (h + (i + (j + (k)))))))));
}

/// The numbers of a subnet part, each with what stands behind it.
spec fn ecs_tail(e: EcsScopeView) -> Seq<char> {
    decimal(e.family as nat) + (",\"source_prefix\":"@ + (decimal(e.source_prefix as nat) + (
    ",\"scope_prefix\":"@ + (decimal(e.scope_prefix as nat) + (",\"network_len\":"@ + (decimal(
        e.network_len as nat,
    ) + (",\"network\":["@ + (json_numbers(e.network) + "]}"@))))))))
}

proof fn lemma_ecs_shape(e: EcsScopeView)
    ensures
        json_ecs(Some(e)) == "{\"family\":"@ + ecs_tail(e),
{
    lemma_regroup(
        "{\"family\":"@,
        decimal(e.family as nat),
        ",\"source_prefix\":"@,
        decimal(e.source_prefix as nat),
        ",\"scope_prefix\":"@,
        decimal(e.scope_prefix as nat),
        ",\"network_len\":"@,
        decimal(e.network_len as nat),
        ",\"network\":["@,
        json_numbers(e.network),
        "]}"@,
    );
}

proof fn lemma_ecs_injective(a: Option<EcsScopeView>, b: Option<EcsScopeView>)
    requires
        json_ecs(a) == json_ecs(b),
        a matches Some(e) ==> e.network.len() == 16,
        b matches Some(e) ==> e.network.len() == 16,
    ensures
        a == b,
{
    reveal_strlit("null");
    reveal_strlit("{\"family\":");
    let head = "{\"family\":"@;
    if let Some(e) = a {
        lemma_ecs_shape(e);
    }
    if let Some(e) = b {
        lemma_ecs_shape(e);
    }
    assert(a is Some ==> json_ecs(a)[0] == '{');
    assert(b is Some ==> json_ecs(b)[0] == '{');
    assert(a is None ==> json_ecs(a)[0] == 'n');
    assert(b is None ==> json_ecs(b)[0] == 'n');
    if a is Some && b is Some {
        let x = a->0;
        let y = b->0;
        lemma_same_head(head, ecs_tail(x), ecs_tail(y));
        lemma_ecs_tail_injective(x, y);
    }
}

proof fn lemma_ecs_tail_injective(x: EcsScopeView, y: EcsScopeView)
    requires
        ecs_tail(x) == ecs_tail(y),
        x.network.len() == 16,
        y.network.len() == 16,
    ensures
        x == y,
{
    reveal_strlit(",\"source_prefix\":");
    reveal_strlit(",\"scope_prefix\":");
    reveal_strlit(",\"network_len\":");
    reveal_strlit(",\"network\":[");
    let l1 = ",\"source_prefix\":"@;
    let l2 = ",\"scope_prefix\":"@;
    let l3 = ",\"network_len\":"@;
    let l4 = ",\"network\":["@;
    let x4 = json_numbers(x.network) + "]}"@;
    let y4 = json_numbers(y.network) + "]}"@;
    let x3 = decimal(x.network_len as nat) + (l4 + x4);
    let y3 = decimal(y.network_len as nat) + (l4 + y4);
    let x2 = decimal(x.scope_prefix as nat) + (l3 + x3);
    let y2 = decimal(y.scope_prefix as nat) + (l3 + y3);
    let x1 = decimal(x.source_prefix as nat) + (l2 + x2);
    let y1 = decimal(y.source_prefix as nat) + (l2 + y2);
    lemma_decimal_split(x.family as nat, y.family as nat, l1 + x1, l1 + y1);
    lemma_same_head(l1, x1, y1);
    lemma_decimal_split(x.source_prefix as nat, y.source_prefix as nat, l2 + x2, l2 + y2);
    lemma_same_head(l2, x2, y2);
    lemma_decimal_split(x.scope_prefix as nat, y.scope_prefix as nat, l3 + x3, l3 + y3);
    lemma_same_head(l3, x3, y3);
    lemma_decimal_split(x.network_len as nat, y.network_len as nat, l4 + x4, l4 + y4);
    lemma_same_head(l4, x4, y4);
    lemma_same_tail(json_numbers(x.network), json_numbers(y.network), "]}"@);
    lemma_numbers_injective(x.network, y.network);
}

/// The members of an id, each with what stands behind it.
spec fn id_tail(id: IdView) -> Seq<char> {
    json_quoted(id.domain) + (",\"record_type\":"@ + (decimal(id.record_type as nat) + (
    ",\"dns_class\":"@ + (decimal(id.dns_class as nat) + (",\"do_bit\":"@ + (json_bool(id.do_bit) + (
    ",\"cd_bit\":"@ + (json_bool(id.cd_bit) + (",\"ecs_scope\":"@ + (json_ecs(id.ecs_scope)
        + "}"@))))))))))
}

proof fn lemma_id_shape(id: IdView)
    ensures
        id_json(id) == "{\"domain\":"@ + id_tail(id),
{
    let head = "{\"domain\":"@;
    let quoted = json_quoted(id.domain);
    let l1 = ",\"record_type\":"@;
    let rest = decimal(id.record_type as nat) + (",\"dns_class\":"@ + (decimal(id.dns_class as nat) + (
    ",\"do_bit\":"@ + (json_bool(id.do_bit) + (",\"cd_bit\":"@ + (json_bool(id.cd_bit) + (
    ",\"ecs_scope\":"@ + (json_ecs(id.ecs_scope) + "}"@))))))));
    lemma_regroup(
        head + quoted + l1,
        decimal(id.record_type as nat),
        ",\"dns_class\":"@,
        decimal(id.dns_class as nat),
        ",\"do_bit\":"@,
        json_bool(id.do_bit),
        ",\"cd_bit\":"@,
        json_bool(id.cd_bit),
        ",\"ecs_scope\":"@,
        json_ecs(id.ecs_scope),
        "}"@,
    );
    lemma_assoc(head + quoted, l1, rest);
    lemma_assoc(head, quoted, l1 + rest);
}

/// An id is determined by its JSON text.
proof fn lemma_id_json_injective(a: IdView, b: IdView)
    requires
        id_json(a) == id_json(b),
        a.ecs_scope matches Some(e) ==> e.network.len() == 16,
        b.ecs_scope matches Some(e) ==> e.network.len() == 16,
    ensures
        a == b,
{
    let head = "{\"domain\":"@;
    lemma_id_shape(a);
    lemma_id_shape(b);
    lemma_same_head(head, id_tail(a), id_tail(b));
    lemma_id_tail_injective(a, b);
}

proof fn lemma_id_tail_injective(a: IdView, b: IdView)
    requires
        id_tail(a) == id_tail(b),
        a.ecs_scope matches Some(e) ==> e.network.len() == 16,
        b.ecs_scope matches Some(e) ==> e.network.len() == 16,
    ensures
        a == b,
{
    reveal_strlit(",\"dns_class\":");
    reveal_strlit(",\"do_bit\":");
    let l1 = ",\"record_type\":"@;
    let l2 = ",\"dns_class\":"@;
    let l3 = ",\"do_bit\":"@;
    let l4 = ",\"cd_bit\":"@;
    let l5 = ",\"ecs_scope\":"@;
    let a5 = json_ecs(a.ecs_scope) + "}"@;
    let b5 = json_ecs(b.ecs_scope) + "}"@;
    let a4 = json_bool(a.cd_bit) + (l5 + a5);
    let b4 = json_bool(b.cd_bit) + (l5 + b5);
    let a3 = json_bool(a.do_bit) + (l4 + a4);
    let b3 = json_bool(b.do_bit) + (l4 + b4);
    let a2 = decimal(a.dns_class as nat) + (l3 + a3);
    let b2 = decimal(b.dns_class as nat) + (l3 + b3);
    let a1 = decimal(a.record_type as nat) + (l2 + a2);
    let b1 = decimal(b.record_type as nat) + (l2 + b2);
    lemma_quoted_split(a.domain, b.domain, l1 + a1, l1 + b1);
    lemma_same_head(l1, a1, b1);
    lemma_decimal_split(a.record_type as nat, b.record_type as nat, l2 + a2, l2 + b2);
    lemma_same_head(l2, a2, b2);
    lemma_decimal_split(a.dns_class as nat, b.dns_class as nat, l3 + a3, l3 + b3);
    lemma_same_head(l3, a3, b3);
    lemma_bool_split(a.do_bit, b.do_bit, l4 + a4, l4 + b4);
    lemma_same_head(l4, a4, b4);
    lemma_bool_split(a.cd_bit, b.cd_bit, l5 + a5, l5 + b5);
    lemma_same_head(l5, a5, b5);
    lemma_same_tail(json_ecs(a.ecs_scope), json_ecs(b.ecs_scope), "}"@);
    lemma_ecs_injective(a.ecs_scope, b.ecs_scope);
}

/// Keys that are named by the same text have the same id, and canonical keys that are
/// named by the same text are the same key.
pub proof fn law_text_names_one_key(a: CacheKeyView, b: CacheKeyView)
    requires
        a.wf(),
        b.wf(),
        base64_text(encode_utf8(key_json(a))) == base64_text(encode_utf8(key_json(b))),
    ensures
        key_id(a) == key_id(b),
        canonical_key(a) && canonical_key(b) ==> a == b,
{
    lemma_base64_injective(encode_utf8(key_json(a)), encode_utf8(key_json(b)));
    encode_utf8_decode_utf8(key_json(a));
    encode_utf8_decode_utf8(key_json(b));
    lemma_id_json_injective(key_id(a), key_id(b));
    if canonical_key(a) && canonical_key(b) {
        law_id_names_key(a);
        law_id_names_key(b);
    }
}

} // verus!
