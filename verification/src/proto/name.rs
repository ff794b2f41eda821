//! Domain names.
//!
//! A name is held in its uncompressed wire form without the terminating zero
//! octet: a run of labels, each preceded by its length. The presentation form
//! is the dotted text with `\c` and `\DDD` escapes.

use vstd::prelude::*;

use crate::text::{chars_of, is_white, lower_byte, lower_char, lower_text};

verus! {

/// The longest label, in octets.
pub const MAX_LABEL_LEN: usize = 63;

/// The longest name in wire form, the terminating zero octet included.
pub const MAX_NAME_LEN: usize = 255;

/// Why a text is not a domain name.
#[derive(Debug, Clone, Copy, PartialEq, Eq, Structural)]
pub enum NameError {
    /// The text is empty, holds an empty label, a bad escape, a character
    /// outside ASCII or a label that is too long.
    Malformed,
    /// The whole name is longer than a name may be.
    TooLong,
}

/// A domain name.
#[derive(Debug, PartialEq, Eq, Hash)]
pub struct Name {
    wire: Vec<u8>,
}

impl View for Name {
    type V = Seq<u8>;

    closed spec fn view(&self) -> Seq<u8> {
        self.wire@
    }
}

/// Whether `w` is a run of length-prefixed labels.
pub open spec fn is_label_run(w: Seq<u8>) -> bool
    decreases w.len(),
{
    w.len() == 0 || (1 <= w[0] <= 63 && 1 + w[0] <= w.len() && is_label_run(w.skip(1 + w[0] as int)))
}

/// Whether `w` is the wire form of a name.
pub open spec fn is_name(w: Seq<u8>) -> bool {
    is_label_run(w) && w.len() + 1 <= 255
}

/// The wire form of one label.
pub open spec fn label_wire(label: Seq<u8>) -> Seq<u8> {
    seq![label.len() as u8] + label
}

pub open spec fn is_digit(c: char) -> bool {
    '0' <= c && c <= '9'
}

/// The number that three decimal digits spell.
pub open spec fn three_digits(a: char, b: char, c: char) -> int {
    (a as u32 - 48) * 100 + (b as u32 - 48) * 10 + (c as u32 - 48)
}

/// The octet that the text `s` starts with when it is not a separator, and the
/// number of characters that spell it.
pub open spec fn next_octet(s: Seq<char>) -> Option<(u8, int)> {
    if s.len() == 0 {
        None
    } else if s[0] == '\\' {
        if s.len() < 2 {
            None
        } else if is_digit(s[1]) {
            if s.len() >= 4 && is_digit(s[2]) && is_digit(s[3]) && three_digits(s[1], s[2], s[3])
                <= 255 {
                Some((three_digits(s[1], s[2], s[3]) as u8, 4))
            } else {
                None
            }
        } else if (s[1] as u32) < 128 {
            Some((s[1] as u8, 2))
        } else {
            None
        }
    } else if (s[0] as u32) < 128 {
        Some((s[0] as u8, 1))
    } else {
        None
    }
}

/// The labels that the text `s` spells, in wire form, where `label` holds the
/// octets of the label that is open at the start of `s`. A final separator
/// closes the last label and is otherwise ignored.
pub open spec fn parse_labels(s: Seq<char>, label: Seq<u8>) -> Option<Seq<u8>>
    decreases s.len(),
{
    if s.len() == 0 {
        if label.len() == 0 {
            Some(Seq::empty())
        } else if label.len() <= 63 {
            Some(label_wire(label))
        } else {
            None
        }
    } else if s[0] == '.' {
        if 1 <= label.len() <= 63 {
            match parse_labels(s.skip(1), Seq::empty()) {
                Some(rest) => Some(label_wire(label) + rest),
                None => None,
            }
        } else {
            None
        }
    } else {
        match next_octet(s) {
            Some((octet, used)) if 1 <= used <= s.len() => parse_labels(s.skip(used), label.push(octet)),
            _ => None,
        }
    }
}

/// The wire form of the name that the text `s` spells: `.` is the root, and the
/// empty text is no name.
pub open spec fn parse_name(s: Seq<char>) -> Option<Seq<u8>> {
    if s == seq!['.'] {
        Some(Seq::empty())
    } else if s.len() == 0 {
        None
    } else {
        match parse_labels(s, Seq::empty()) {
            Some(w) if w.len() + 1 <= 255 => Some(w),
            _ => None,
        }
    }
}

/// The presentation form of one octet of a label.
pub open spec fn octet_text(b: u8) -> Seq<char> {
    if b == 46 || b == 92 {
        seq!['\\', b as char]
    } else if 33 <= b <= 126 {
        seq![b as char]
    } else {
        seq![
            '\\',
            (48 + b / 100) as char,
            (48 + (b / 10) % 10) as char,
            (48 + b % 10) as char,
        ]
    }
}

/// The presentation form of a label.
pub open spec fn label_text(label: Seq<u8>) -> Seq<char>
    decreases label.len(),
{
    if label.len() == 0 {
        Seq::empty()
    } else {
        label_text(label.drop_last()) + octet_text(label.last())
    }
}

/// The labels of `w` in presentation form, each followed by a dot.
pub open spec fn dotted_text(w: Seq<u8>) -> Seq<char>
    decreases w.len(),
{
    if w.len() == 0 || 1 + w[0] > w.len() {
        Seq::empty()
    } else {
        label_text(w.subrange(1, 1 + w[0])) + seq!['.'] + dotted_text(w.skip(1 + w[0] as int))
    }
}

/// The presentation form of the name `w` without a final dot; the root is the
/// empty text.
pub open spec fn name_text(w: Seq<u8>) -> Seq<char> {
    if w.len() == 0 {
        Seq::empty()
    } else {
        dotted_text(w).drop_last()
    }
}

/// The presentation form of the name `w` with its final dot.
pub open spec fn fqdn_text(w: Seq<u8>) -> Seq<char> {
    if w.len() == 0 {
        seq!['.']
    } else {
        dotted_text(w)
    }
}

/// `w` with every ASCII letter in lower case.
pub open spec fn lower_wire(w: Seq<u8>) -> Seq<u8> {
    Seq::new(w.len(), |i: int| lower_byte(w[i]))
}

/// Lower case leaves label lengths alone, so it keeps a run of labels.
pub proof fn lemma_lower_wire_is_label_run(w: Seq<u8>)
    requires
        is_label_run(w),
    ensures
        is_label_run(lower_wire(w)),
    decreases w.len(),
{
    if w.len() > 0 {
        let n = 1 + w[0] as int;
        lemma_lower_wire_is_label_run(w.skip(n));
        assert(lower_wire(w).skip(n) =~= lower_wire(w.skip(n)));
    }
}

proof fn lemma_label_wire_run(label: Seq<u8>, rest: Seq<u8>)
    requires
        1 <= label.len() <= 63,
        is_label_run(rest),
    ensures
        is_label_run(label_wire(label) + rest),
{
    let w = label_wire(label) + rest;
    assert(w.skip(1 + w[0] as int) =~= rest);
}

/// What `parse_labels` finds is a run of labels.
pub proof fn lemma_parse_labels_run(s: Seq<char>, label: Seq<u8>)
    ensures
        parse_labels(s, label) matches Some(w) ==> is_label_run(w),
    decreases s.len(),
{
    if s.len() == 0 {
        if 1 <= label.len() <= 63 {
            lemma_label_wire_run(label, Seq::empty());
            assert(label_wire(label) + Seq::<u8>::empty() =~= label_wire(label));
        }
    } else if s[0] == '.' {
        if 1 <= label.len() <= 63 {
            lemma_parse_labels_run(s.skip(1), Seq::empty());
            if let Some(rest) = parse_labels(s.skip(1), Seq::empty()) {
                lemma_label_wire_run(label, rest);
            }
        }
    } else {
        match next_octet(s) {
            Some((octet, used)) if 1 <= used <= s.len() => {
                lemma_parse_labels_run(s.skip(used), label.push(octet));
            },
            _ => {},
        }
    }
}

proof fn lemma_octet_text_reads_back(b: u8, rest: Seq<char>)
    ensures
        next_octet(octet_text(b) + rest) == Some((b, octet_text(b).len() as int)),
        octet_text(b).len() >= 1,
        (octet_text(b) + rest)[0] != '.',
        (octet_text(b) + rest).skip(octet_text(b).len() as int) == rest,
{
    let s = octet_text(b) + rest;
    assert(s.skip(octet_text(b).len() as int) =~= rest);
}

proof fn lemma_label_text_reads_back(label: Seq<u8>, open: Seq<u8>, rest: Seq<char>)
    ensures
        parse_labels(label_text(label) + rest, open) == parse_labels(rest, open + label),
    decreases label.len(),
{
    if label.len() == 0 {
        assert(label_text(label) + rest =~= rest);
        assert(open + label =~= open);
    } else {
        let first = label.drop_last();
        let b = label.last();
        let tail = octet_text(b) + rest;
        assert(label_text(label) + rest =~= label_text(first) + tail);
        lemma_label_text_reads_back(first, open, tail);
        lemma_octet_text_reads_back(b, rest);
        assert((open + first).push(b) =~= open + label);
    }
}

proof fn lemma_dotted_text_reads_back(w: Seq<u8>)
    requires
        is_label_run(w),
    ensures
        parse_labels(dotted_text(w), Seq::empty()) == Some(w),
        w.len() > 0 ==> dotted_text(w).len() > 0 && dotted_text(w).last() == '.',
        w.len() > 0 ==> parse_labels(dotted_text(w).drop_last(), Seq::empty()) == Some(w),
    decreases w.len(),
{
    if w.len() > 0 {
        let n = 1 + w[0] as int;
        let label = w.subrange(1, n);
        let rest = w.skip(n);
        lemma_dotted_text_reads_back(rest);
        let after = seq!['.'] + dotted_text(rest);
        assert(dotted_text(w) =~= label_text(label) + after);
        lemma_label_text_reads_back(label, Seq::empty(), after);
        assert(Seq::<u8>::empty() + label =~= label);
        assert(after.skip(1) =~= dotted_text(rest));
        assert(label_wire(label) + rest =~= w);
        if rest.len() == 0 {
            assert(dotted_text(w).drop_last() =~= label_text(label) + Seq::<char>::empty());
            lemma_label_text_reads_back(label, Seq::empty(), Seq::empty());
            assert(label_wire(label) =~= w);
        } else {
            let after2 = seq!['.'] + dotted_text(rest).drop_last();
            assert(dotted_text(w).drop_last() =~= label_text(label) + after2);
            lemma_label_text_reads_back(label, Seq::empty(), after2);
            assert(after2.skip(1) =~= dotted_text(rest).drop_last());
        }
    }
}

proof fn lemma_label_text_len(label: Seq<u8>)
    ensures
        label_text(label).len() >= label.len(),
        label.len() > 0 ==> label_text(label)[0] != '.',
    decreases label.len(),
{
    if label.len() > 0 {
        lemma_label_text_len(label.drop_last());
    }
}

/// The presentation form of a name, with or without its final dot, spells that
/// name.
pub proof fn lemma_name_text_reads_back(w: Seq<u8>)
    requires
        is_name(w),
    ensures
        parse_name(fqdn_text(w)) == Some(w),
        w.len() > 0 ==> parse_name(name_text(w)) == Some(w),
{
    if w.len() > 0 {
        lemma_dotted_text_reads_back(w);
        let n = 1 + w[0] as int;
        let label = w.subrange(1, n);
        lemma_label_text_len(label);
        assert(dotted_text(w)[0] == label_text(label)[0]);
        if w.skip(n).len() > 0 {
            lemma_dotted_text_reads_back(w.skip(n));
        }
        assert(dotted_text(w).len() >= 2);
        assert(name_text(w)[0] == label_text(label)[0]);
        assert(dotted_text(w)[0] != '.');
    }
}

/// The dotted text of a name other than the root ends with a dot.
pub proof fn lemma_fqdn_ends_with_dot(w: Seq<u8>)
    requires
        is_name(w),
        w.len() > 0,
    ensures
        dotted_text(w).len() > 0,
        dotted_text(w).last() == '.',
{
    lemma_dotted_text_reads_back(w);
}

/// Characters that differ in ASCII case alone are the same separators, escapes, digits
/// and blanks, and stand for the same octet in lower case.
pub proof fn lemma_same_lower_char(c: char, d: char)
    requires
        lower_char(c) == lower_char(d),
    ensures
        c == '.' <==> d == '.',
        c == '\\' <==> d == '\\',
        is_white(c) <==> is_white(d),
        is_digit(c) <==> is_digit(d),
        is_digit(c) ==> c == d,
        (c as u32) < 128 <==> (d as u32) < 128,
        (c as u32) < 128 ==> lower_byte(c as u8) == lower_byte(d as u8),
{
    assert(lower_char(c) as u32 == lower_char(d) as u32);
}

/// Texts that differ in ASCII case alone have such characters at each place.
pub proof fn lemma_same_lower_at(s: Seq<char>, t: Seq<char>, i: int)
    requires
        lower_text(s) == lower_text(t),
        0 <= i < s.len(),
    ensures
        s.len() == t.len(),
        lower_char(s[i]) == lower_char(t[i]),
{
    assert(s.len() == lower_text(s).len() && t.len() == lower_text(t).len());
    assert(lower_text(s)[i] == lower_char(s[i]));
    assert(lower_text(t)[i] == lower_char(t[i]));
}

proof fn lemma_same_lower_octet(s: Seq<char>, t: Seq<char>)
    requires
        lower_text(s) == lower_text(t),
    ensures
        match (next_octet(s), next_octet(t)) {
            (Some((a, m)), Some((b, n))) => m == n && lower_byte(a) == lower_byte(b),
            (None, None) => true,
            _ => false,
        },
{
    assert(s.len() == lower_text(s).len() && t.len() == lower_text(t).len());
    if s.len() > 0 {
        lemma_same_lower_at(s, t, 0);
        lemma_same_lower_char(s[0], t[0]);
    }
    if s.len() > 1 {
        lemma_same_lower_at(s, t, 1);
        lemma_same_lower_char(s[1], t[1]);
    }
    if s.len() > 3 {
        lemma_same_lower_at(s, t, 2);
        lemma_same_lower_at(s, t, 3);
        lemma_same_lower_char(s[2], t[2]);
        lemma_same_lower_char(s[3], t[3]);
    }
}

proof fn lemma_same_lower_label(a: Seq<u8>, b: Seq<u8>, x: Seq<u8>, y: Seq<u8>)
    requires
        a.len() <= 63,
        lower_wire(a) == lower_wire(b),
        lower_wire(x) == lower_wire(y),
    ensures
        lower_wire(label_wire(a) + x) == lower_wire(label_wire(b) + y),
{
    assert(a.len() == lower_wire(a).len() && b.len() == lower_wire(b).len());
    assert(lower_wire(label_wire(a) + x) =~= label_wire(lower_wire(a)) + lower_wire(x));
    assert(lower_wire(label_wire(b) + y) =~= label_wire(lower_wire(b)) + lower_wire(y));
}

/// Texts that differ in ASCII case alone spell labels that differ in it alone.
proof fn lemma_same_lower_labels(s: Seq<char>, t: Seq<char>, a: Seq<u8>, b: Seq<u8>)
    requires
        lower_text(s) == lower_text(t),
        lower_wire(a) == lower_wire(b),
    ensures
        match (parse_labels(s, a), parse_labels(t, b)) {
            (Some(x), Some(y)) => lower_wire(x) == lower_wire(y),
            (None, None) => true,
            _ => false,
        },
    decreases s.len(),
{
    assert(s.len() == lower_text(s).len() && t.len() == lower_text(t).len());
    assert(a.len() == lower_wire(a).len() && b.len() == lower_wire(b).len());
    if s.len() == 0 {
        if 1 <= a.len() <= 63 {
            lemma_same_lower_label(a, b, Seq::empty(), Seq::empty());
            assert(label_wire(a) + Seq::<u8>::empty() =~= label_wire(a));
            assert(label_wire(b) + Seq::<u8>::empty() =~= label_wire(b));
        }
    } else {
        lemma_same_lower_at(s, t, 0);
        lemma_same_lower_char(s[0], t[0]);
        if s[0] == '.' {
            assert(lower_text(s.skip(1)) =~= lower_text(s).skip(1));
            assert(lower_text(t.skip(1)) =~= lower_text(t).skip(1));
            lemma_same_lower_labels(s.skip(1), t.skip(1), Seq::empty(), Seq::empty());
            if 1 <= a.len() <= 63 {
                if let Some(x) = parse_labels(s.skip(1), Seq::empty()) {
                    let y = parse_labels(t.skip(1), Seq::empty())->0;
                    lemma_same_lower_label(a, b, x, y);
                }
            }
        } else {
            lemma_same_lower_octet(s, t);
            if let Some((c, used)) = next_octet(s) {
                let d = (next_octet(t)->0).0;
                if 1 <= used <= s.len() {
                    assert(lower_text(s.skip(used)) =~= lower_text(s).skip(used));
                    assert(lower_text(t.skip(used)) =~= lower_text(t).skip(used));
                    assert(lower_wire(a.push(c)) =~= lower_wire(a).push(lower_byte(c)));
                    assert(lower_wire(b.push(d)) =~= lower_wire(b).push(lower_byte(d)));
                    lemma_same_lower_labels(s.skip(used), t.skip(used), a.push(c), b.push(d));
                }
            }
        }
    }
}

/// Texts that differ in ASCII case alone spell names that differ in it alone, or none.
pub proof fn lemma_same_lower_name(s: Seq<char>, t: Seq<char>)
    requires
        lower_text(s) == lower_text(t),
    ensures
        match (parse_name(s), parse_name(t)) {
            (Some(x), Some(y)) => lower_wire(x) == lower_wire(y),
            (None, None) => true,
            _ => false,
        },
{
    assert(s.len() == lower_text(s).len() && t.len() == lower_text(t).len());
    lemma_same_lower_labels(s, t, Seq::empty(), Seq::empty());
    if s.len() == 1 {
        lemma_same_lower_at(s, t, 0);
        lemma_same_lower_char(s[0], t[0]);
        assert(s == seq!['.'] <==> s[0] == '.') by {
            if s[0] == '.' {
                assert(s =~= seq!['.']);
            }
        }
        assert(t == seq!['.'] <==> t[0] == '.') by {
            if t[0] == '.' {
                assert(t =~= seq!['.']);
            }
        }
    }
    if let Some(x) = parse_labels(s, Seq::empty()) {
        let y = parse_labels(t, Seq::empty())->0;
        assert(lower_wire(x).len() == x.len() && lower_wire(y).len() == y.len());
    }
}

/// A text with one more dot spells the same labels, where it spells any.
proof fn lemma_final_dot_labels(s: Seq<char>, label: Seq<u8>)
    ensures
        (parse_labels(s, label) is Some && parse_labels(s.push('.'), label) is Some)
            ==> parse_labels(s.push('.'), label) == parse_labels(s, label),
    decreases s.len(),
{
    let t = s.push('.');
    if s.len() == 0 {
        assert(t.skip(1) =~= Seq::empty());
        assert(parse_labels(Seq::empty(), Seq::empty()) == Some(Seq::<u8>::empty()));
        assert(label_wire(label) + Seq::<u8>::empty() =~= label_wire(label));
    } else if s[0] == '.' {
        assert(t.skip(1) =~= s.skip(1).push('.'));
        lemma_final_dot_labels(s.skip(1), Seq::empty());
    } else if let Some((octet, used)) = next_octet(s) {
        assert(next_octet(t) == next_octet(s));
        if 1 <= used <= s.len() {
            assert(t.skip(used) =~= s.skip(used).push('.'));
            lemma_final_dot_labels(s.skip(used), label.push(octet));
        }
    }
}

/// A text with one more dot spells the same name, where both spell one.
pub proof fn lemma_final_dot_name(s: Seq<char>)
    ensures
        (parse_name(s) is Some && parse_name(s.push('.')) is Some) ==> parse_name(s.push('.'))
            == parse_name(s),
{
    lemma_final_dot_labels(s, Seq::empty());
    if s == seq!['.'] {
        let t = s.push('.');
        assert(t[0] == '.' && t.len() == 2);
        assert(parse_labels(t, Seq::empty()) is None);
    } else if s.len() == 0 {
        assert(parse_name(s) is None);
    } else {
        assert(s.push('.').len() >= 2);
    }
}

/// Only a lone dot spells the root.
pub proof fn lemma_root_text(s: Seq<char>)
    ensures
        parse_name(s) == Some(Seq::<u8>::empty()) <==> s == seq!['.'],
{
    if s.len() > 0 && s != seq!['.'] {
        if s[0] != '.' {
            if let Some((octet, used)) = next_octet(s) {
                if 1 <= used <= s.len() {
                    lemma_open_label(s.skip(used), Seq::<u8>::empty().push(octet));
                }
            }
        }
    }
}

proof fn lemma_open_label(s: Seq<char>, label: Seq<u8>)
    requires
        label.len() > 0,
    ensures
        parse_labels(s, label) matches Some(w) ==> w.len() > 0,
    decreases s.len(),
{
    if s.len() > 0 && s[0] != '.' {
        if let Some((octet, used)) = next_octet(s) {
            if 1 <= used <= s.len() {
                lemma_open_label(s.skip(used), label.push(octet));
            }
        }
    }
}

/// The text of a name other than the root is not a lone dot.
pub proof fn lemma_name_text_start(w: Seq<u8>)
    requires
        is_name(w),
        w.len() > 0,
    ensures
        name_text(w).len() > 0,
        name_text(w)[0] != '.',
{
    lemma_dotted_text_reads_back(w);
    let n = 1 + w[0] as int;
    let label = w.subrange(1, n);
    lemma_label_text_len(label);
    assert(dotted_text(w)[0] == label_text(label)[0]);
    assert(dotted_text(w).len() >= label_text(label).len() + 1);
    assert(name_text(w)[0] == label_text(label)[0]);
}

impl Name {
    /// The octets form a name.
    #[verifier::type_invariant]
    spec fn well_formed(self) -> bool {
        is_name(self@)
    }

    /// The name with the given wire form, which has no final zero octet.
    pub fn from_wire(wire: Vec<u8>) -> (r: Name)
        requires
            is_name(wire@),
        ensures
            r@ == wire@,
    {
        Name { wire }
    }

    /// The wire form, without the final zero octet.
    pub fn octets(&self) -> (r: &[u8])
        ensures
            r@ == self@,
            is_name(self@),
    {
        proof {
            use_type_invariant(self);
        }
        self.wire.as_slice()
    }

    /// The root name.
    pub fn root() -> (r: Name)
        ensures
            r@ == Seq::<u8>::empty(),
    {
        Name { wire: Vec::new() }
    }

    /// Whether this is the root.
    pub fn is_root(&self) -> (r: bool)
        ensures
            r == (self@.len() == 0),
    {
        self.wire.len() == 0
    }

    /// A copy of the name.
    pub fn copy(&self) -> (r: Name)
        ensures
            r@ == self@,
    {
        proof {
            use_type_invariant(self);
        }
        Name { wire: crate::bytes::copy_bytes(self.wire.as_slice()) }
    }

    /// Whether two names are equal octet for octet.
    pub fn same(&self, other: &Name) -> (r: bool)
        ensures
            r == (self@ == other@),
    {
        crate::bytes::same_bytes(self.wire.as_slice(), other.wire.as_slice())
    }

    /// Whether two names are equal without regard to ASCII case.
    pub fn same_ignoring_case(&self, other: &Name) -> (r: bool)
        ensures
            r == (lower_wire(self@) == lower_wire(other@)),
    {
        if self.wire.len() != other.wire.len() {
            assert(lower_wire(self@).len() != lower_wire(other@).len());
            return false;
        }
        let mut i: usize = 0;
        while i < self.wire.len()
            invariant
                i <= self.wire@.len(),
                self.wire@.len() == other.wire@.len(),
                forall|k: int| 0 <= k < i ==> lower_byte(self.wire@[k]) == lower_byte(other.wire@[k]),
            decreases self.wire@.len() - i,
        {
            if lower_octet(self.wire[i]) != lower_octet(other.wire[i]) {
                assert(lower_wire(self@)[i as int] != lower_wire(other@)[i as int]);
                return false;
            }
            i = i + 1;
        }
        assert(lower_wire(self@) =~= lower_wire(other@));
        true
    }

    /// Reads a name from its presentation form.
    #[verifier::loop_isolation(false)]
    pub fn from_ascii(text: &str) -> (r: Result<Name, NameError>)
        ensures
            match r {
                Ok(name) => parse_name(text@) == Some(name@) && is_name(name@),
                Err(_) => parse_name(text@) is None,
            },
            r == Err::<Name, NameError>(NameError::TooLong) <==> text@ != seq!['.'] && text@.len() > 0 && (
            parse_labels(text@, Seq::empty()) matches Some(w) && w.len() + 1 > 255),
    {
        let s = chars_of(text);
        if s.len() == 1 && s[0] == '.' {
            assert(text@ =~= seq!['.']);
            return Ok(Name::root());
        }
        if s.len() == 0 {
            return Err(NameError::Malformed);
        }
        assert(s@ != seq!['.']) by {
            if s@ == seq!['.'] {
                assert(s@.len() == 1 && s@[0] == '.');
            }
        }
        let mut wire: Vec<u8> = Vec::new();
        let mut label: Vec<u8> = Vec::new();
        let mut i: usize = 0;
        proof {
            assert(s@.skip(0) =~= s@);
            assert(label@ =~= Seq::<u8>::empty());
            if let Some(w) = parse_labels(s@, Seq::empty()) {
                assert(Seq::<u8>::empty() + w =~= w);
            }
            assert(wire@ =~= Seq::<u8>::empty());
        }
        while i < s.len()
            invariant
                i <= s@.len(),
                prefixed(wire@, parse_labels(s@.skip(i as int), label@)) == parse_labels(
                    s@,
                    Seq::empty(),
                ),
            decreases s@.len() - i,
        {
            let ghost rest = s@.skip(i as int);
            assert(rest[0] == s@[i as int]);
            if s[i] == '.' {
                if label.len() == 0 || label.len() > MAX_LABEL_LEN {
                    return Err(NameError::Malformed);
                }
                let ghost before = wire@;
                let ghost lab = label@;
                wire.push(label.len() as u8);
                wire.append(&mut label);
                proof {
                    assert(wire@ =~= before + label_wire(lab));
                    assert(rest.skip(1) =~= s@.skip(i + 1));
                    assert(label@ =~= Seq::<u8>::empty());
                    if let Some(w) = parse_labels(rest.skip(1), Seq::empty()) {
                        assert(before + (label_wire(lab) + w) =~= wire@ + w);
                    }
                }
                i = i + 1;
            } else if s[i] == '\\' {
                if s.len() - i < 2 {
                    return Err(NameError::Malformed);
                }
                let c = s[i + 1];
                assert(rest[1] == c);
                if '0' <= c && c <= '9' {
                    if s.len() - i < 4 {
                        return Err(NameError::Malformed);
                    }
                    let d = s[i + 2];
                    let e = s[i + 3];
                    assert(rest[2] == d && rest[3] == e);
                    if !('0' <= d && d <= '9' && '0' <= e && e <= '9') {
                        return Err(NameError::Malformed);
                    }
                    let value: u32 = (c as u32 - 48) * 100 + (d as u32 - 48) * 10 + (e as u32 - 48);
                    if value > 255 {
                        return Err(NameError::Malformed);
                    }
                    label.push(value as u8);
                    i = i + 4;
                    assert(rest.skip(4) =~= s@.skip(i as int));
                } else {
                    let v: u32 = c as u32;
                    if v >= 128 {
                        return Err(NameError::Malformed);
                    }
                    label.push(c as u8);
                    i = i + 2;
                    assert(rest.skip(2) =~= s@.skip(i as int));
                }
            } else {
                let c = s[i];
                let v: u32 = c as u32;
                if v >= 128 {
                    return Err(NameError::Malformed);
                }
                label.push(c as u8);
                i = i + 1;
                assert(rest.skip(1) =~= s@.skip(i as int));
            }
        }
        assert(s@.skip(i as int).len() == 0);
        if label.len() > MAX_LABEL_LEN {
            return Err(NameError::Malformed);
        }
        let ghost before = wire@;
        let ghost lab = label@;
        if label.len() > 0 {
            wire.push(label.len() as u8);
            wire.append(&mut label);
            assert(wire@ =~= before + label_wire(lab));
        } else {
            assert(before + Seq::<u8>::empty() =~= before);
        }
        proof {
            lemma_parse_labels_run(s@, Seq::empty());
        }
        if wire.len() > MAX_NAME_LEN - 1 {
            return Err(NameError::TooLong);
        }
        Ok(Name { wire })
    }

    /// The name in lower case.
    pub fn to_lowercase(&self) -> (r: Name)
        ensures
            r@ == lower_wire(self@),
    {
        let mut out: Vec<u8> = Vec::new();
        let mut i: usize = 0;
        while i < self.wire.len()
            invariant
                i <= self.wire@.len(),
                out@ == lower_wire(self.wire@).take(i as int),
            decreases self.wire@.len() - i,
        {
            out.push(lower_octet(self.wire[i]));
            i = i + 1;
            assert(out@ =~= lower_wire(self.wire@).take(i as int));
        }
        assert(out@ =~= lower_wire(self@));
        proof {
            use_type_invariant(self);
            lemma_lower_wire_is_label_run(self@);
        }
        Name { wire: out }
    }

    /// The presentation form with the final dot.
    pub fn to_fqdn(&self) -> (r: String)
        ensures
            r@ == fqdn_text(self@),
    {
        let mut out = String::new();
        if self.wire.len() == 0 {
            out.push('.');
            assert(out@ =~= seq!['.']);
            return out;
        }
        let mut i: usize = 0;
        proof {
            use_type_invariant(self);
            assert(self@.skip(0) =~= self@);
            assert(out@ + dotted_text(self@) =~= dotted_text(self@));
        }
        while i < self.wire.len()
            invariant
                i <= self.wire@.len(),
                is_label_run(self.wire@.skip(i as int)),
                out@ + dotted_text(self.wire@.skip(i as int)) == dotted_text(self.wire@),
            decreases self.wire@.len() - i,
        {
            let ghost rest = self.wire@.skip(i as int);
            assert(rest[0] == self.wire@[i as int]);
            let n: usize = self.wire[i] as usize;
            let ghost before = out@;
            let ghost label = rest.subrange(1, 1 + n as int);
            let mut j: usize = 0;
            proof {
                assert(label.take(0) =~= Seq::<u8>::empty());
                assert(before + label_text(label.take(0)) =~= before);
            }
            while j < n
                invariant
                    j <= n,
                    i + 1 + n <= self.wire@.len(),
                    self.wire@.len() <= usize::MAX,
                    label == self.wire@.skip(i as int).subrange(1, 1 + n as int),
                    out@ == before + label_text(label.take(j as int)),
                decreases n - j,
            {
                let b = self.wire[i + 1 + j];
                assert(label[j as int] == b);
                push_octet(&mut out, b);
                j = j + 1;
                assert(label.take(j as int).drop_last() =~= label.take(j - 1));
                assert(out@ =~= before + label_text(label.take(j as int)));
            }
            out.push('.');
            i = i + 1 + n;
            proof {
                assert(label.take(n as int) =~= label);
                assert(rest.skip(1 + n as int) =~= self.wire@.skip(i as int));
                assert(out@ + dotted_text(self.wire@.skip(i as int)) =~= before + dotted_text(rest));
            }
        }
        proof {
            assert(self.wire@.skip(i as int).len() == 0);
            assert(out@ + Seq::<char>::empty() =~= out@);
        }
        out
    }

    /// The lower-case presentation form without the final dot; the root is the
    /// empty text.
    pub fn normalized(&self) -> (r: String)
        ensures
            r@ == name_text(lower_wire(self@)),
    {
        let lower = self.to_lowercase();
        if lower.wire.len() == 0 {
            return String::new();
        }
        let full = chars_of(lower.to_fqdn().as_str());
        proof {
            use_type_invariant(&lower);
            lemma_dotted_text_reads_back(lower@);
        }
        let r = crate::text::string_from(full.as_slice(), 0, full.len() - 1);
        assert(full@.subrange(0, full@.len() - 1) =~= full@.drop_last());
        r
    }
}

/// `prefix` put before `w`, where there is a `w`.
spec fn prefixed(prefix: Seq<u8>, w: Option<Seq<u8>>) -> Option<Seq<u8>> {
    match w {
        Some(w) => Some(prefix + w),
        None => None,
    }
}

fn lower_octet(b: u8) -> (r: u8)
    ensures
        r == lower_byte(b),
{
    if 65 <= b && b <= 90 {
        b + 32
    } else {
        b
    }
}

/// Appends the presentation form of one octet.
fn push_octet(out: &mut String, b: u8)
    ensures
        final(out)@ == old(out)@ + octet_text(b),
{
    let ghost before = out@;
    if b == 46 || b == 92 {
        out.push('\\');
        out.push(b as char);
    } else if 33 <= b && b <= 126 {
        out.push(b as char);
    } else {
        out.push('\\');
        let h: u8 = 48 + b / 100;
        let t: u8 = 48 + (b / 10) % 10;
        let o: u8 = 48 + b % 10;
        out.push(h as char);
        out.push(t as char);
        out.push(o as char);
    }
    assert(out@ =~= before + octet_text(b));
}

} // verus!
