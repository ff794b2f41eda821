//! Which upstreams are asked.

use vstd::prelude::*;

use rand::RngExt;

verus! {

/// `random_range` of the `rand` crate on its thread-local generator: some number below
/// the given one.
#[verifier::external_body]
fn random_below(n: usize) -> (r: usize)
    requires
        n > 0,
    ensures
        r < n,
{
    rand::rng().random_range(0..n)
}

/// The upstreams from `start` on, around the end of the list.
pub open spec fn around(start: usize, active: usize, total: usize) -> Seq<usize> {
    Seq::new(active as nat, |i: int| ((start + i) % (total as int)) as usize)
}

/// The upstreams from `start` on, around the end of the list.
pub fn upstreams_from(start: usize, active: usize, total: usize) -> (r: Vec<usize>)
    requires
        start < total,
        total + active <= usize::MAX,
    ensures
        r@ == around(start, active, total),
{
    let mut out: Vec<usize> = Vec::new();
    let mut i: usize = 0;
    while i < active
        invariant
            i <= active,
            start < total,
            total + active <= usize::MAX,
            out@ == around(start, i, total),
        decreases active - i,
    {
        out.push((start + i) % total);
        i = i + 1;
        assert(out@ =~= around(start, i, total));
    }
    out
}

/// The upstreams to ask, from one chosen at random on.
pub fn pick_upstreams(active: usize, total: usize) -> (r: Option<Vec<usize>>)
    requires
        total + active <= usize::MAX,
    ensures
        match r {
            None => total == 0,
            Some(v) => total > 0 && exists|start: usize|
                start < total && v@ == #[trigger] around(start, active, total),
        },
{
    if total == 0 {
        return None;
    }
    let start: usize = random_below(total);
    Some(upstreams_from(start, active, total))
}

/// No upstream is asked twice, as long as there are enough of them.
pub proof fn law_no_upstream_twice(start: usize, active: usize, total: usize, i: int, j: int)
    requires
        start < total,
        active <= total,
        0 <= i < j < active,
    ensures
        around(start, active, total)[i] < total,
        around(start, active, total)[i] != around(start, active, total)[j],
{
    let t = total as int;
    let a = start + i;
    let b = start + j;
    vstd::arithmetic::div_mod::lemma_mod_bound(a, t);
    vstd::arithmetic::div_mod::lemma_mod_bound(b, t);
    lemma_wrap(a, t);
    lemma_wrap(b, t);
}

proof fn lemma_wrap(a: int, t: int)
    requires
        0 <= a < 2 * t,
        t > 0,
    ensures
        a % t == (if a < t {
            a
        } else {
            a - t
        }),
{
    if a < t {
        vstd::arithmetic::div_mod::lemma_small_mod(a as nat, t as nat);
    } else {
        vstd::arithmetic::div_mod::lemma_mod_sub_multiples_vanish(a, t);
        vstd::arithmetic::div_mod::lemma_small_mod((a - t) as nat, t as nat);
    }
}

} // verus!
