//! The names of tables and files.

use vstd::prelude::*;
use vstd::utf8::encode_utf8;

use crate::cache::listing::hex_char;
use crate::text::{between, concat, lower_byte, push_text};

verus! {

/// The version of the tables.
pub const SCHEMA_VERSION: &'static str = "v1";

/// The tables of a recorder.
#[derive(Debug, PartialEq, Eq)]
pub struct TableNames {
    pub records: String,
    pub steps: String,
    pub questions: String,
    pub meta: String,
}

/// Whether an octet may stand in a table name as it is, in lower case.
pub open spec fn is_name_octet(b: u8) -> bool {
    48 <= b <= 57 || 97 <= b <= 122 || b == 95
}

/// The character of a table name for an octet of a tag.
pub open spec fn name_char(b: u8) -> char {
    let lower = lower_byte(b);
    if is_name_octet(lower) {
        lower as char
    } else {
        '_'
    }
}

/// A tag as a part of a table name.
pub open spec fn safe_tag(tag: Seq<char>) -> Seq<char> {
    let octets = encode_utf8(tag);
    if octets.len() == 0 {
        seq!['_']
    } else {
        Seq::new(octets.len(), |i: int| name_char(octets[i]))
    }
}

fn name_char_of(b: u8) -> (r: char)
    ensures
        r == name_char(b),
{
    let lower: u8 = if 65 <= b && b <= 90 {
        b + 32
    } else {
        b
    };
    if (48 <= lower && lower <= 57) || (97 <= lower && lower <= 122) || lower == 95 {
        lower as char
    } else {
        '_'
    }
}

/// A tag as a part of a table name.
pub fn sanitize_tag(tag: &str) -> (r: String)
    ensures
        r@ == safe_tag(tag@),
{
    let octets = tag.as_bytes();
    let mut out = String::new();
    let mut i: usize = 0;
    while i < octets.len()
        invariant
            i <= octets@.len(),
            out@ == Seq::new(i as nat, |j: int| name_char(octets@[j])),
        decreases octets@.len() - i,
    {
        out.push(name_char_of(octets[i]));
        i = i + 1;
        assert(out@ =~= Seq::new(i as nat, |j: int| name_char(octets@[j])));
    }
    if octets.len() == 0 {
        out.push('_');
        assert(out@ =~= seq!['_']);
    }
    out
}

/// A hash of octets in the manner of FNV-1a, with a multiplier of its own.
pub open spec fn fnv1a(s: Seq<u8>) -> u64
    decreases s.len(),
{
    if s.len() == 0 {
        0xCBF2_9CE4_8422_2325u64
    } else {
        (fnv1a(s.drop_last()) ^ (s.last() as u64)).wrapping_mul(0x1000_0000_01B3)
    }
}

/// The last digits of a number in hexadecimal.
pub open spec fn hex_digits(v: int, n: nat) -> Seq<char>
    decreases n,
{
    if n == 0 {
        Seq::empty()
    } else {
        hex_digits(v / 16, (n - 1) as nat).push(hex_char(v % 16))
    }
}

fn push_hex(v: u64, n: u8) -> (r: String)
    ensures
        r@ == hex_digits(v as int, n as nat),
    decreases n,
{
    if n == 0 {
        let out = String::new();
        assert(out@ =~= Seq::empty());
        out
    } else {
        let mut out = push_hex(v / 16, n - 1);
        let d: u8 = (v % 16) as u8;
        let c: char = if d < 10 {
            (48 + d) as char
        } else {
            (87 + d) as char
        };
        out.push(c);
        out
    }
}

/// The hash of octets in hexadecimal.
pub fn fnv1a_hex(input: &[u8]) -> (r: String)
    ensures
        r@ == hex_digits(fnv1a(input@) as int, 16),
{
    let mut hash: u64 = 0xCBF2_9CE4_8422_2325u64;
    let mut i: usize = 0;
    assert(input@.take(0).len() == 0);
    while i < input.len()
        invariant
            i <= input@.len(),
            hash == fnv1a(input@.take(i as int)),
        decreases input@.len() - i,
    {
        assert(input@.take(i + 1).drop_last() =~= input@.take(i as int));
        hash = (hash ^ (input[i] as u64)).wrapping_mul(0x1000_0000_01B3);
        i = i + 1;
    }
    assert(input@.take(i as int) =~= input@);
    push_hex(hash, 16)
}

/// What the names of the tables of a tag begin with. The hash tells tags apart that
/// look the same as parts of names.
pub open spec fn name_prefix(tag: Seq<char>) -> Seq<char> {
    "qr_"@ + safe_tag(tag) + "_"@ + hex_digits(fnv1a(encode_utf8(tag)) as int, 16) + "_"@
        + SCHEMA_VERSION@
}

/// The tables of a tag.
pub fn table_names(tag: &str) -> (r: TableNames)
    ensures
        r.records@ == name_prefix(tag@) + "_records"@,
        r.steps@ == name_prefix(tag@) + "_steps"@,
        r.questions@ == name_prefix(tag@) + "_questions"@,
        r.meta@ == name_prefix(tag@) + "_meta"@,
{
    let mut prefix = between("qr_", sanitize_tag(tag).as_str(), "_");
    push_text(&mut prefix, fnv1a_hex(tag.as_bytes()).as_str());
    push_text(&mut prefix, "_");
    push_text(&mut prefix, SCHEMA_VERSION);
    TableNames {
        records: concat(prefix.as_str(), "_records"),
        steps: concat(prefix.as_str(), "_steps"),
        questions: concat(prefix.as_str(), "_questions"),
        meta: concat(prefix.as_str(), "_meta"),
    }
}

/// The file with the log of a database.
pub fn wal_path(path: &str) -> (r: String)
    ensures
        r@ == path@ + "-wal"@,
{
    concat(path, "-wal")
}

/// Tables of the same recorder have different names.
pub proof fn law_tables_differ(tag: Seq<char>)
    ensures
        ({
            let p = name_prefix(tag);
            &&& p + "_records"@ != p + "_steps"@
            &&& p + "_records"@ != p + "_questions"@
            &&& p + "_records"@ != p + "_meta"@
            &&& p + "_steps"@ != p + "_questions"@
            &&& p + "_steps"@ != p + "_meta"@
            &&& p + "_questions"@ != p + "_meta"@
        }),
{
    reveal_strlit("_records");
    reveal_strlit("_steps");
    reveal_strlit("_questions");
    reveal_strlit("_meta");
    let p = name_prefix(tag);
    assert((p + "_records"@).len() == p.len() + 8);
    assert((p + "_steps"@).len() == p.len() + 6);
    assert((p + "_questions"@).len() == p.len() + 10);
    assert((p + "_meta"@).len() == p.len() + 5);
}

} // verus!
