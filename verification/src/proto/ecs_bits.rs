//! Addresses cut to a prefix.

use vstd::prelude::*;

verus! {

/// The octet mask that keeps the `bits` most significant bits, for fewer than
/// eight of them.
pub open spec fn high_mask(bits: int) -> u8 {
    if bits == 1 {
        0x80
    } else if bits == 2 {
        0xC0
    } else if bits == 3 {
        0xE0
    } else if bits == 4 {
        0xF0
    } else if bits == 5 {
        0xF8
    } else if bits == 6 {
        0xFC
    } else if bits == 7 {
        0xFE
    } else {
        0x00
    }
}

/// Octet `i` of `src` with the bits past the first `bits` of `src` cleared.
pub open spec fn kept_octet(src: Seq<u8>, bits: int, i: int) -> u8 {
    if (i + 1) * 8 <= bits {
        src[i]
    } else if i * 8 < bits {
        src[i] & high_mask(bits % 8)
    } else {
        0
    }
}

/// The octets that hold the first `prefix` bits of `src`, with every later bit
/// cleared. A prefix longer than `src` keeps all of it.
pub open spec fn truncated(src: Seq<u8>, prefix: u8) -> Seq<u8> {
    let bits = if prefix <= src.len() * 8 {
        prefix as int
    } else {
        (src.len() * 8) as int
    };
    Seq::new(((bits + 7) / 8) as nat, |i: int| kept_octet(src, bits, i))
}

/// The mask of [`high_mask`].
pub fn high_mask_of(bits: u8) -> (r: u8)
    requires
        bits < 8,
    ensures
        r == high_mask(bits as int),
{
    match bits {
        1 => 0x80,
        2 => 0xC0,
        3 => 0xE0,
        4 => 0xF0,
        5 => 0xF8,
        6 => 0xFC,
        7 => 0xFE,
        _ => 0x00,
    }
}

/// The first `prefix` bits of `src` as octets.
pub fn truncate_bits(src: &[u8], prefix: u8) -> (r: Vec<u8>)
    requires
        src@.len() <= 16,
    ensures
        r@ == truncated(src@, prefix),
{
    let max: usize = src.len() * 8;
    let bits: usize = if (prefix as usize) <= max {
        prefix as usize
    } else {
        max
    };
    let mut out: Vec<u8> = Vec::new();
    let mut i: usize = 0;
    while i * 8 < bits
        invariant
            i <= src@.len() <= 16,
            bits <= src@.len() * 8,
            i == 0 || (i - 1) * 8 < bits,
            bits == (if prefix <= src@.len() * 8 { prefix as int } else { (src@.len() * 8) as int }),
            out@.len() == i,
            forall|k: int| 0 <= k < i ==> out@[k] == kept_octet(src@, bits as int, k),
        decreases src@.len() - i,
    {
        if (i + 1) * 8 <= bits {
            out.push(src[i]);
        } else {
            let m = high_mask_of((bits % 8) as u8);
            out.push(src[i] & m);
        }
        i = i + 1;
    }
    assert(out@ =~= truncated(src@, prefix));
    out
}

} // verus!
