//! Octet strings and big-endian integers.

use vstd::prelude::*;

verus! {

/// A copy of the octets of `s`.
pub fn copy_bytes(s: &[u8]) -> (r: Vec<u8>)
    ensures
        r@ == s@,
{
    let mut out: Vec<u8> = Vec::new();
    let mut i: usize = 0;
    while i < s.len()
        invariant
            i <= s@.len(),
            out@ == s@.take(i as int),
        decreases s@.len() - i,
    {
        out.push(s[i]);
        i = i + 1;
        assert(out@ =~= s@.take(i as int));
    }
    assert(s@.take(s@.len() as int) =~= s@);
    out
}

/// The octets `s[from..to]`.
pub fn slice_bytes(s: &[u8], from: usize, to: usize) -> (r: Vec<u8>)
    requires
        from <= to <= s@.len(),
    ensures
        r@ == s@.subrange(from as int, to as int),
{
    let mut out: Vec<u8> = Vec::new();
    let mut i: usize = from;
    while i < to
        invariant
            from <= i <= to <= s@.len(),
            out@ == s@.subrange(from as int, i as int),
        decreases to - i,
    {
        out.push(s[i]);
        i = i + 1;
        assert(out@ =~= s@.subrange(from as int, i as int));
    }
    out
}

/// Whether two octet strings are equal.
pub fn same_bytes(a: &[u8], b: &[u8]) -> (r: bool)
    ensures
        r == (a@ == b@),
{
    if a.len() != b.len() {
        return false;
    }
    let mut i: usize = 0;
    while i < a.len()
        invariant
            i <= a@.len(),
            a@.len() == b@.len(),
            forall|k: int| 0 <= k < i ==> a@[k] == b@[k],
        decreases a@.len() - i,
    {
        if a[i] != b[i] {
            return false;
        }
        i = i + 1;
    }
    assert(a@ =~= b@);
    true
}

/// 256 to the power `n`.
pub open spec fn pow256(n: nat) -> nat
    decreases n,
{
    if n == 0 {
        1
    } else {
        256 * pow256((n - 1) as nat)
    }
}

/// The `n` low octets of `v`, most significant first.
pub open spec fn be(v: nat, n: nat) -> Seq<u8>
    decreases n,
{
    if n == 0 {
        Seq::empty()
    } else {
        be(v / 256, (n - 1) as nat).push((v % 256) as u8)
    }
}

/// The number that the octets of `s` spell, most significant first.
pub open spec fn be_value(s: Seq<u8>) -> nat
    decreases s.len(),
{
    if s.len() == 0 {
        0
    } else {
        be_value(s.drop_last()) * 256 + s.last() as nat
    }
}

pub proof fn lemma_be_len(v: nat, n: nat)
    ensures
        be(v, n).len() == n,
    decreases n,
{
    if n > 0 {
        lemma_be_len(v / 256, (n - 1) as nat);
    }
}

/// The octets of a number spell that number.
pub proof fn lemma_be_value_of_be(v: nat, n: nat)
    requires
        v < pow256(n),
    ensures
        be_value(be(v, n)) == v,
        be(v, n).len() == n,
    decreases n,
{
    lemma_be_len(v, n);
    if n > 0 {
        let m = (n - 1) as nat;
        assert(v / 256 < pow256(m));
        lemma_be_value_of_be(v / 256, m);
        assert(be(v, n).drop_last() =~= be(v / 256, m));
    }
}

pub proof fn lemma_be_value_bound(s: Seq<u8>)
    ensures
        be_value(s) < pow256(s.len()),
    decreases s.len(),
{
    if s.len() > 0 {
        lemma_be_value_bound(s.drop_last());
    }
}

pub proof fn lemma_pow256_values()
    ensures
        pow256(1) == 0x100,
        pow256(2) == 0x1_0000,
        pow256(4) == 0x1_0000_0000,
        pow256(8) == 0x1_0000_0000_0000_0000,
        pow256(16) == 0x1_0000_0000_0000_0000_0000_0000_0000_0000,
{
    reveal_with_fuel(pow256, 17);
}

pub proof fn lemma_pow256_monotonic(a: nat, b: nat)
    requires
        a <= b,
    ensures
        pow256(a) <= pow256(b),
    decreases b,
{
    if a < b {
        lemma_pow256_monotonic(a, (b - 1) as nat);
    }
}

/// Appends the `n` low octets of `v`, most significant first.
pub fn push_be(out: &mut Vec<u8>, v: u128, n: usize)
    ensures
        final(out)@ == old(out)@ + be(v as nat, n as nat),
    decreases n,
{
    if n == 0 {
        assert(out@ + be(v as nat, 0) =~= out@);
    } else {
        let ghost before = out@;
        push_be(out, v / 256, n - 1);
        out.push((v % 256) as u8);
        assert(out@ =~= before + be(v as nat, n as nat));
    }
}

/// The number that `b[pos..pos + n]` spells, most significant octet first.
pub fn read_be(b: &[u8], pos: usize, n: usize) -> (r: u128)
    requires
        pos + n <= b@.len(),
        n <= 16,
    ensures
        r == be_value(b@.subrange(pos as int, pos + n)),
        r < pow256(n as nat),
{
    let mut v: u128 = 0;
    let mut i: usize = 0;
    assert(b.len() <= usize::MAX);
    assert(b@.subrange(pos as int, pos as int) =~= Seq::<u8>::empty());
    while i < n
        invariant
            i <= n <= 16,
            pos + n <= b@.len(),
            pos + n <= usize::MAX,
            v == be_value(b@.subrange(pos as int, pos + i)),
        decreases n - i,
    {
        let ghost cur = b@.subrange(pos as int, pos + i);
        let ghost next = b@.subrange(pos as int, pos + i + 1);
        proof {
            assert(next.drop_last() =~= cur);
            lemma_be_value_bound(next);
            lemma_pow256_monotonic((i + 1) as nat, 16);
            lemma_pow256_values();
        }
        v = v * 256 + (b[pos + i] as u128);
        i = i + 1;
    }
    proof {
        lemma_be_value_bound(b@.subrange(pos as int, pos + n));
    }
    v
}

/// The `n` low octets of `v`, least significant first.
pub open spec fn le(v: nat, n: nat) -> Seq<u8> {
    be(v, n).reverse()
}

/// The number that the octets of `s` spell, least significant first.
pub open spec fn le_value(s: Seq<u8>) -> nat {
    be_value(s.reverse())
}

pub proof fn lemma_le_len(v: nat, n: nat)
    ensures
        le(v, n).len() == n,
{
    lemma_be_len(v, n);
}

/// The octets of a number, least significant first, spell that number.
pub proof fn lemma_le_value_of_le(v: nat, n: nat)
    requires
        v < pow256(n),
    ensures
        le_value(le(v, n)) == v,
        le(v, n).len() == n,
{
    lemma_be_value_of_be(v, n);
    assert(be(v, n).reverse().reverse() =~= be(v, n));
}

} // verus!
