//! What holds of networks, bit by bit, and of the prefixes of a batch.

use vstd::prelude::*;

use crate::nftset::config::SetView;
use crate::nftset::executor::{has_prefix, prefix_of};
use crate::nftset::writer::{
    dotted, drained, failed_entry, law_each_network_once, merged, network4, network6, network_of,
    prefix_id, prepared, told_all, FailedEntry, IpCidr, IpPrefix, NftSetBatch,
};
use crate::proto::message::{record_addr, IpAddr, RecordView};
use crate::text::decimal;

verus! {

/// A bit of an IPv4 address, the last bit first.
pub open spec fn bit4(a: u32, i: u32) -> u32 {
    (a >> i) & 1
}

/// A bit of an IPv6 address, the last bit first.
pub open spec fn bit6(a: u128, i: u32) -> u128 {
    (a >> i) & 1
}

/// An IPv4 network has the first bits of the address, as many as the mask says, and zeros
/// behind them. A mask of more bits than the address has gives none.
pub proof fn law_network_bits4(a: u32, mask: u8)
    ensures
        match network_of(IpPrefix { addr: IpAddr::V4(a), mask }) {
            Some(IpCidr { addr: IpAddr::V4(n), mask: kept }) => {
                &&& mask <= 32
                &&& kept == mask
                &&& forall|i: u32|
                    i < 32 ==> #[trigger] bit4(n, i) == (if i + mask >= 32 {
                        bit4(a, i)
                    } else {
                        0
                    })
            },
            Some(_) => false,
            None => mask > 32,
        },
{
    if mask <= 32 {
        let n = network4(a, mask);
        let s = (32 - mask) as u32;
        assert forall|i: u32| i < 32 implies #[trigger] bit4(n, i) == (if i + mask >= 32 {
            bit4(a, i)
        } else {
            0
        }) by {
            assert(0u32 >> i == 0 && 0u32 & 1 == 0) by (bit_vector);
            assert(s < 32 && i < 32 ==> ((((a >> s) << s) >> i) & 1) == (if i >= s {
                (a >> i) & 1
            } else {
                0
            })) by (bit_vector);
        }
    }
}

/// An IPv6 network has the first bits of the address, as many as the mask says, and zeros
/// behind them. A mask of more bits than the address has gives none.
pub proof fn law_network_bits6(a: u128, mask: u8)
    ensures
        match network_of(IpPrefix { addr: IpAddr::V6(a), mask }) {
            Some(IpCidr { addr: IpAddr::V6(n), mask: kept }) => {
                &&& mask <= 128
                &&& kept == mask
                &&& forall|i: u32|
                    i < 128 ==> #[trigger] bit6(n, i) == (if i + mask >= 128 {
                        bit6(a, i)
                    } else {
                        0
                    })
            },
            Some(_) => false,
            None => mask > 128,
        },
{
    if mask <= 128 {
        let n = network6(a, mask);
        let s = (128 - mask) as u32;
        assert forall|i: u32| i < 128 implies #[trigger] bit6(n, i) == (if i + mask >= 128 {
            bit6(a, i)
        } else {
            0
        }) by {
            assert(0u128 >> i == 0 && 0u128 & 1 == 0) by (bit_vector);
            assert(s < 128 && i < 128 ==> ((((a >> s) << s) >> i) & 1) == (if i >= s {
                (a >> i) & 1
            } else {
                0
            })) by (bit_vector);
        }
    }
}

/// Two addresses of a family have the same network exactly where their first bits agree,
/// as many as the mask says.
pub proof fn law_networks_differ(a: IpAddr, b: IpAddr, mask: u8)
    requires
        network_of(IpPrefix { addr: a, mask }) is Some,
        network_of(IpPrefix { addr: b, mask }) is Some,
    ensures
        network_of(IpPrefix { addr: a, mask }) == network_of(IpPrefix { addr: b, mask }) <==> (match (
            a,
            b,
        ) {
            (IpAddr::V4(x), IpAddr::V4(y)) => mask == 0 || x >> ((32 - mask) as u32) == y >> ((32
                - mask) as u32),
            (IpAddr::V6(x), IpAddr::V6(y)) => mask == 0 || x >> ((128 - mask) as u32) == y >> ((128
                - mask) as u32),
            _ => false,
        }),
{
    match (a, b) {
        (IpAddr::V4(x), IpAddr::V4(y)) => {
            let s = (32 - mask) as u32;
            assert(s < 32 && (x >> s) << s == (y >> s) << s ==> x >> s == y >> s) by (bit_vector);
        },
        (IpAddr::V6(x), IpAddr::V6(y)) => {
            let s = (128 - mask) as u32;
            assert(s < 128 && (x >> s) << s == (y >> s) << s ==> x >> s == y >> s) by (bit_vector);
        },
        _ => {},
    }
}

/// Under the full mask an address is its own network.
pub proof fn law_full_mask_keeps_the_address(a: IpAddr)
    ensures
        network_of(
            IpPrefix {
                addr: a,
                mask: if a is V4 {
                    32
                } else {
                    128
                },
            },
        ) matches Some(c) && c.addr == a,
{
    match a {
        IpAddr::V4(x) => {
            assert((x >> 0u32) << 0u32 == x) by (bit_vector);
        },
        IpAddr::V6(x) => {
            assert((x >> 0u32) << 0u32 == x) by (bit_vector);
        },
    }
}

/// Different prefixes are never taken for one.
pub proof fn law_prefixes_are_told_apart(a: IpPrefix, b: IpPrefix)
    requires
        a != b,
    ensures
        prefix_id(a.addr, a.mask) != prefix_id(b.addr, b.mask),
{
}

/// Whether the mask of a prefix fits its address.
pub open spec fn mask_fits(p: IpPrefix) -> bool {
    match p.addr {
        IpAddr::V4(_) => p.mask <= 32,
        IpAddr::V6(_) => p.mask <= 128,
    }
}

/// Whether a network was first met at the prefix at `i`.
pub open spec fn first_met(prefixes: Seq<IpPrefix>, i: int, c: IpCidr) -> bool {
    &&& 0 <= i < prefixes.len()
    &&& network_of(prefixes[i]) == Some(c)
    &&& forall|j: int| 0 <= j < i ==> network_of(#[trigger] prefixes[j]) != Some(c)
}

spec fn some_first_met(prefixes: Seq<IpPrefix>, c: IpCidr) -> bool {
    exists|i: int| first_met(prefixes, i, c)
}

spec fn met(prefixes: Seq<IpPrefix>, c: IpCidr) -> bool {
    exists|j: int| 0 <= j < prefixes.len() && network_of(#[trigger] prefixes[j]) == Some(c)
}

/// How many prefixes have a mask that does not fit.
pub open spec fn misfits(prefixes: Seq<IpPrefix>) -> nat
    decreases prefixes.len(),
{
    if prefixes.len() == 0 {
        0
    } else {
        misfits(prefixes.drop_last()) + (if mask_fits(prefixes.last()) {
            0nat
        } else {
            1nat
        })
    }
}

proof fn lemma_written(prefixes: Seq<IpPrefix>)
    ensures
        ({
            let (networks, w, seen) = prepared(prefixes);
            &&& forall|c: IpCidr| #[trigger]
                seen.contains(prefix_id(c.addr, c.mask)) <==> met(prefixes, c)
            &&& forall|c: IpCidr| #[trigger] networks.contains(c) <==> met(prefixes, c)
            &&& forall|k: int|
                0 <= k < networks.len() ==> some_first_met(prefixes, #[trigger] networks[k])
        }),
    decreases prefixes.len(),
{
    let (networks, w, seen) = prepared(prefixes);
    if prefixes.len() > 0 {
        let init = prefixes.drop_last();
        let p = prefixes.last();
        let n = init.len() as int;
        lemma_written(init);
        let (before, bw, bseen) = prepared(init);
        assert forall|c: IpCidr| met(prefixes, c) <==> met(init, c) || network_of(p) == Some(c) by {
            if met(init, c) {
                let j = choose|j: int|
                    0 <= j < init.len() && network_of(#[trigger] init[j]) == Some(c);
                assert(prefixes[j] == init[j]);
            }
            if network_of(p) == Some(c) {
                assert(prefixes[n] == p);
            }
            if met(prefixes, c) && network_of(p) != Some(c) {
                let j = choose|j: int|
                    0 <= j < prefixes.len() && network_of(#[trigger] prefixes[j]) == Some(c);
                assert(init[j] == prefixes[j]);
            }
        }
        assert forall|c: IpCidr| #[trigger]
            seen.contains(prefix_id(c.addr, c.mask)) <==> met(prefixes, c) by {
            assert(bseen.contains(prefix_id(c.addr, c.mask)) <==> met(init, c));
            if network_of(p) is Some && c != network_of(p)->0 {
                let d = network_of(p)->0;
                law_prefixes_are_told_apart(
                    IpPrefix { addr: c.addr, mask: c.mask },
                    IpPrefix { addr: d.addr, mask: d.mask },
                );
            }
        }
        assert forall|c: IpCidr| #[trigger] networks.contains(c) <==> met(prefixes, c) by {
            assert(before.contains(c) <==> met(init, c));
            if networks.contains(c) {
                let k = choose|k: int| 0 <= k < networks.len() && networks[k] == c;
                if k < before.len() {
                    assert(before[k] == c);
                    assert(before.contains(c));
                }
            }
            if before.contains(c) {
                let k = choose|k: int| 0 <= k < before.len() && before[k] == c;
                assert(networks[k] == c);
            }
            if network_of(p) == Some(c) && !met(init, c) {
                assert(bseen.contains(prefix_id(c.addr, c.mask)) <==> met(init, c));
                assert(networks[networks.len() - 1] == c);
            }
        }
        assert forall|k: int| 0 <= k < networks.len() implies some_first_met(
            prefixes,
            #[trigger] networks[k],
        ) by {
            if k < before.len() {
                assert(some_first_met(init, before[k]));
                assert(networks[k] == before[k]);
                let i = choose|i: int| #[trigger] first_met(init, i, before[k]);
                assert(prefixes[i] == init[i]);
                assert forall|j: int| 0 <= j < i implies network_of(#[trigger] prefixes[j]) != Some(
                    networks[k],
                ) by {
                    assert(init[j] == prefixes[j]);
                }
                assert(first_met(prefixes, i, networks[k]));
            } else {
                let c = networks[k];
                assert(bseen.contains(prefix_id(c.addr, c.mask)) <==> met(init, c));
                assert forall|j: int| 0 <= j < n implies network_of(#[trigger] prefixes[j]) != Some(
                    c,
                ) by {
                    assert(init[j] == prefixes[j]);
                }
                assert(first_met(prefixes, n, c));
            }
        }
    } else {
        assert(forall|c: IpCidr| !met(prefixes, c));
    }
}

/// The network of each prefix whose mask fits is written, and nothing else is.
pub proof fn law_networks_of_all_prefixes(prefixes: Seq<IpPrefix>, c: IpCidr)
    ensures
        prepared(prefixes).0.contains(c) <==> exists|i: int|
            0 <= i < prefixes.len() && mask_fits(#[trigger] prefixes[i]) && network_of(prefixes[i])
                == Some(c),
{
    lemma_written(prefixes);
    if met(prefixes, c) {
        let j = choose|j: int|
            0 <= j < prefixes.len() && network_of(#[trigger] prefixes[j]) == Some(c);
        assert(mask_fits(prefixes[j]));
    }
}

/// Networks are written in the order in which they are first met.
pub proof fn law_networks_keep_their_order(prefixes: Seq<IpPrefix>, j: int, k: int)
    requires
        prefixes.len() <= u64::MAX,
        0 <= j < k < prepared(prefixes).0.len(),
    ensures
        exists|a: int, b: int|
            #![trigger prefixes[a], prefixes[b]]
            a < b && first_met(prefixes, a, prepared(prefixes).0[j]) && first_met(
                prefixes,
                b,
                prepared(prefixes).0[k],
            ),
    decreases prefixes.len(),
{
    let networks = prepared(prefixes).0;
    if prefixes.len() > 0 {
        let init = prefixes.drop_last();
        let before = prepared(init).0;
        lemma_written(prefixes);
        lemma_written(init);
        if k < before.len() {
            law_networks_keep_their_order(init, j, k);
            let (a, b) = choose|a: int, b: int|
                #![trigger init[a], init[b]]
                a < b && first_met(init, a, before[j]) && first_met(init, b, before[k]);
            assert(prefixes[a] == init[a]);
            assert(prefixes[b] == init[b]);
            assert forall|i: int| 0 <= i < b implies #[trigger] prefixes[i] == init[i] by {}
            assert(first_met(prefixes, a, networks[j]));
            assert(first_met(prefixes, b, networks[k]));
        } else {
            let n = init.len() as int;
            assert(some_first_met(init, before[j]));
            assert(some_first_met(prefixes, networks[k]));
            let a = choose|a: int| #[trigger] first_met(init, a, before[j]);
            assert(prefixes[a] == init[a]);
            assert forall|i: int| 0 <= i < a implies #[trigger] prefixes[i] == init[i] by {}
            assert(first_met(prefixes, a, networks[j]));
            let b = choose|b: int| #[trigger] first_met(prefixes, b, networks[k]);
            if b < n {
                assert(init[b] == prefixes[b]);
                assert(met(init, networks[k]));
                assert(before.contains(networks[k]));
                let m = choose|m: int| 0 <= m < before.len() && before[m] == networks[k];
                law_each_network_once(prefixes);
                assert(networks[m] == networks[k]);
            }
            assert(prefixes[b] == prefixes[b]);
        }
    }
}

/// Every prefix whose mask does not fit is counted as a failure, and no other; the first
/// four are told.
pub proof fn law_misfits_are_failures(prefixes: Seq<IpPrefix>)
    requires
        prefixes.len() <= u64::MAX,
    ensures
        prepared(prefixes).1.failed_total == misfits(prefixes),
        prepared(prefixes).1.failed.len() == (if misfits(prefixes) < 4 {
            misfits(prefixes)
        } else {
            4
        }),
        prepared(prefixes).1.ok == 0,
        prepared(prefixes).1.skipped_exists == 0,
        forall|k: int|
            0 <= k < prepared(prefixes).1.failed.len() ==> is_misfit(
                prefixes,
                (#[trigger] prepared(prefixes).1.failed[k]).0,
            ),
        misfits(prefixes) <= prefixes.len(),
    decreases prefixes.len(),
{
    if prefixes.len() > 0 {
        let init = prefixes.drop_last();
        law_misfits_are_failures(init);
        let p = prefixes.last();
        assert(prefixes[prefixes.len() - 1] == p);
        let failed = prepared(prefixes).1.failed;
        let before = prepared(init).1.failed;
        assert forall|k: int| 0 <= k < failed.len() implies is_misfit(
            prefixes,
            (#[trigger] failed[k]).0,
        ) by {
            if k < before.len() {
                assert(failed[k] == before[k]);
                assert(is_misfit(init, before[k].0));
                let i = choose|i: int|
                    0 <= i < init.len() && !mask_fits(#[trigger] init[i]) && before[k].0
                        == FailedEntry::Address(init[i].addr);
                assert(prefixes[i] == init[i]);
            }
        }
    }
}

/// Whether a failure tells the address of a prefix whose mask does not fit.
pub open spec fn is_misfit(prefixes: Seq<IpPrefix>, entry: FailedEntry) -> bool {
    exists|i: int|
        0 <= i < prefixes.len() && !mask_fits(#[trigger] prefixes[i]) && entry
            == FailedEntry::Address(prefixes[i].addr)
}

/// The failures of a bulk write follow those that were told before, in their order, as
/// long as fewer than four are told.
pub proof fn law_first_failures_are_told(
    failed: Seq<(FailedEntry, Seq<char>)>,
    networks: Seq<IpCidr>,
    bulk: Seq<(usize, String)>,
)
    ensures
        ({
            let all = told_all(failed, networks, bulk);
            &&& failed.len() <= all.len()
            &&& all.len() == (if failed.len() + bulk.len() <= 4 {
                failed.len() + bulk.len()
            } else if failed.len() >= 4 {
                failed.len()
            } else {
                4
            })
            &&& forall|k: int| 0 <= k < failed.len() ==> #[trigger] all[k] == failed[k]
            &&& forall|k: int|
                failed.len() <= k < all.len() ==> (#[trigger] all[k]).1 == bulk[k - failed.len()].1@
                    && (bulk[k - failed.len()].0 < networks.len() ==> all[k].0
                    == FailedEntry::Network(networks[bulk[k - failed.len()].0 as int]))
        }),
    decreases bulk.len(),
{
    if bulk.len() > 0 {
        law_first_failures_are_told(failed, networks, bulk.drop_last());
    }
}

/// The prefixes of the batches that wait, one after the other.
pub open spec fn all_of(batches: Seq<NftSetBatch>, v4: bool) -> Seq<Seq<IpPrefix>> {
    Seq::new(
        batches.len(),
        |i: int|
            if v4 {
                batches[i].ipv4_prefixes@
            } else {
                batches[i].ipv6_prefixes@
            },
    )
}

/// A merged batch holds the prefixes of all batches, those of a family apart from those
/// of the other, in the order in which the batches came.
pub proof fn law_merged_batches_follow(
    batch: (Seq<IpPrefix>, Seq<IpPrefix>),
    ready: Seq<NftSetBatch>,
)
    ensures
        merged(batch, ready).0 == batch.0 + all_of(ready, true).flatten_alt(),
        merged(batch, ready).1 == batch.1 + all_of(ready, false).flatten_alt(),
    decreases ready.len(),
{
    if ready.len() == 0 {
        assert(all_of(ready, true).flatten_alt() =~= Seq::empty());
        assert(all_of(ready, false).flatten_alt() =~= Seq::empty());
        assert(batch.0 + Seq::<IpPrefix>::empty() =~= batch.0);
        assert(batch.1 + Seq::<IpPrefix>::empty() =~= batch.1);
    } else {
        let init = ready.drop_last();
        law_merged_batches_follow(batch, init);
        assert(all_of(ready, true).drop_last() =~= all_of(init, true));
        assert(all_of(ready, false).drop_last() =~= all_of(init, false));
        assert(merged(batch, ready).0 =~= batch.0 + all_of(ready, true).flatten_alt());
        assert(merged(batch, ready).1 =~= batch.1 + all_of(ready, false).flatten_alt());
    }
}

/// All batches that wait are written with the first, as long as no more than sixty-four
/// are written at a time.
pub proof fn law_batches_at_a_time(waiting: nat)
    ensures
        waiting + 1 <= 64 ==> drained(waiting) == waiting,
        waiting + 1 > 64 ==> drained(waiting) + 1 == 64,
{
}

/// A failure at a position of a network is told with that network.
pub proof fn law_failure_names_its_network(networks: Seq<IpCidr>, position: usize)
    requires
        position < networks.len(),
    ensures
        failed_entry(networks, position) == FailedEntry::Network(networks[position as int]),
{
}

/// The address of a record is written under the mask of the set of its family, and only
/// where there is such a set.
pub proof fn law_address_goes_to_its_family(
    r: RecordView,
    ipv4: Option<SetView>,
    ipv6: Option<SetView>,
)
    ensures
        match prefix_of(r, ipv4, ipv6) {
            Some(p) => {
                &&& record_addr(r) == Some(p.addr)
                &&& p.addr is V4 ==> ipv4 is Some && p.mask == ipv4->0.mask
                &&& p.addr is V6 ==> ipv6 is Some && p.mask == ipv6->0.mask
            },
            None => match record_addr(r) {
                Some(IpAddr::V4(_)) => ipv4 is None,
                Some(IpAddr::V6(_)) => ipv6 is None,
                None => true,
            },
        },
{
}

/// More answers only add prefixes.
pub proof fn law_answers_add_prefixes(
    answers: Seq<RecordView>,
    more: Seq<RecordView>,
    ipv4: Option<SetView>,
    ipv6: Option<SetView>,
    p: IpPrefix,
)
    ensures
        has_prefix(answers + more, ipv4, ipv6, p) <==> has_prefix(answers, ipv4, ipv6, p)
            || has_prefix(more, ipv4, ipv6, p),
{
    let all = answers + more;
    if has_prefix(answers, ipv4, ipv6, p) {
        let i = choose|i: int|
            0 <= i < answers.len() && prefix_of(#[trigger] answers[i], ipv4, ipv6) == Some(p);
        assert(all[i] == answers[i]);
    }
    if has_prefix(more, ipv4, ipv6, p) {
        let i = choose|i: int|
            0 <= i < more.len() && prefix_of(#[trigger] more[i], ipv4, ipv6) == Some(p);
        assert(all[answers.len() + i] == more[i]);
    }
    if has_prefix(all, ipv4, ipv6, p) {
        let i = choose|i: int|
            0 <= i < all.len() && prefix_of(#[trigger] all[i], ipv4, ipv6) == Some(p);
        if i < answers.len() {
            assert(answers[i] == all[i]);
        } else {
            assert(more[i - answers.len()] == all[i]);
        }
    }
}

/// An IPv4 address in dotted form has its four octets, the first one first.
pub proof fn law_dotted_octets(a: u32, first: u8, second: u8, third: u8, fourth: u8)
    requires
        a == first * 0x100_0000 + second * 0x1_0000 + third * 0x100 + fourth,
    ensures
        dotted(a) == decimal(first as nat) + "."@ + decimal(second as nat) + "."@ + decimal(
            third as nat,
        ) + "."@ + decimal(fourth as nat),
{
    let x = a as int;
    let one = first as int;
    let two = 256 * one + second;
    let three = 256 * two + third;
    lemma_quotient(x, 256, three, fourth as int);
    lemma_quotient(x, 65536, two, 256 * third + fourth);
    lemma_quotient(x, 16777216, one, 65536 * second + 256 * third + fourth);
    lemma_quotient(two, 256, one, second as int);
    lemma_quotient(three, 256, two, third as int);
}

proof fn lemma_quotient(x: int, d: int, q: int, r: int)
    requires
        d > 0,
        x == d * q + r,
        0 <= r < d,
    ensures
        x / d == q,
        x % d == r,
{
    assert(d * q == q * d) by (nonlinear_arith);
    vstd::arithmetic::div_mod::lemma_fundamental_div_mod_converse(x, d, q, r);
}

} // verus!
