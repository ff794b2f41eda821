//! Batches of prefixes, and what came of writing them.

use vstd::prelude::*;

use crate::prefix_set::{PrefixId, PrefixSet};
use crate::proto::message::IpAddr;
use crate::text::{decimal, decimal_of, push_text};

verus! {

/// How many batches are written at a time.
pub const NFTSET_WRITER_DRAIN_MAX_BATCHES: usize = 64;

/// How many failures are told in full.
pub const NFTSET_FAILURE_SAMPLE_CAP: usize = 4;

/// An address with the mask under which it is written.
#[derive(Debug, Clone, Copy, PartialEq, Eq, Hash, Structural)]
pub struct IpPrefix {
    pub addr: IpAddr,
    pub mask: u8,
}

/// A network: an address whose bits beyond the mask are zero.
#[derive(Debug, Clone, Copy, PartialEq, Eq, Hash, Structural)]
pub struct IpCidr {
    pub addr: IpAddr,
    pub mask: u8,
}

/// An IPv4 address without the bits beyond a mask.
pub open spec fn network4(addr: u32, mask: u8) -> u32 {
    let s = (32 - mask) as u32;
    if mask == 0 {
        0
    } else {
        (addr >> s) << s
    }
}

/// An IPv6 address without the bits beyond a mask.
pub open spec fn network6(addr: u128, mask: u8) -> u128 {
    let s = (128 - mask) as u32;
    if mask == 0 {
        0
    } else {
        (addr >> s) << s
    }
}

/// The network of an address, where the mask fits it.
pub open spec fn network_of(p: IpPrefix) -> Option<IpCidr> {
    match p.addr {
        IpAddr::V4(a) => if p.mask <= 32 {
            Some(IpCidr { addr: IpAddr::V4(network4(a, p.mask)), mask: p.mask })
        } else {
            None
        },
        IpAddr::V6(a) => if p.mask <= 128 {
            Some(IpCidr { addr: IpAddr::V6(network6(a, p.mask)), mask: p.mask })
        } else {
            None
        },
    }
}

pub open spec fn prefix_id(addr: IpAddr, mask: u8) -> PrefixId {
    match addr {
        IpAddr::V4(a) => (4, a as u128, mask),
        IpAddr::V6(a) => (6, a, mask),
    }
}

impl IpCidr {
    /// The network of an address under a mask, where the mask fits.
    pub fn new(addr: IpAddr, mask: u8) -> (r: Option<IpCidr>)
        ensures
            r == network_of(IpPrefix { addr, mask }),
    {
        match addr {
            IpAddr::V4(a) => {
                if mask > 32 {
                    return None;
                }
                let network: u32 = if mask == 0 {
                    0
                } else {
                    let s: u32 = 32 - mask as u32;
                    (a >> s) << s
                };
                Some(IpCidr { addr: IpAddr::V4(network), mask })
            },
            IpAddr::V6(a) => {
                if mask > 128 {
                    return None;
                }
                let network: u128 = if mask == 0 {
                    0
                } else {
                    let s: u32 = 128 - mask as u32;
                    (a >> s) << s
                };
                Some(IpCidr { addr: IpAddr::V6(network), mask })
            },
        }
    }

    /// An IPv4 network in dotted form with its mask.
    pub fn ipv4_text(&self) -> (r: Option<String>)
        ensures
            match (self.addr, r) {
                (IpAddr::V4(a), Some(t)) => t@ == dotted(a) + "/"@ + decimal(self.mask as nat),
                (IpAddr::V6(_), None) => true,
                _ => false,
            },
    {
        match self.addr {
            IpAddr::V4(a) => {
                let mut out = ipv4_text(a);
                push_text(&mut out, "/");
                push_text(&mut out, decimal_of(self.mask as u64).as_str());
                Some(out)
            },
            IpAddr::V6(_) => None,
        }
    }
}

/// An IPv4 address in dotted form.
pub open spec fn dotted(a: u32) -> Seq<char> {
    decimal((a / 0x100_0000) as nat) + "."@ + decimal((a / 0x1_0000 % 0x100) as nat) + "."@
        + decimal((a / 0x100 % 0x100) as nat) + "."@ + decimal((a % 0x100) as nat)
}

/// An IPv4 address in dotted form.
pub fn ipv4_text(a: u32) -> (r: String)
    ensures
        r@ == dotted(a),
{
    let mut out = decimal_of((a / 0x100_0000) as u64);
    push_text(&mut out, ".");
    push_text(&mut out, decimal_of((a / 0x1_0000 % 0x100) as u64).as_str());
    push_text(&mut out, ".");
    push_text(&mut out, decimal_of((a / 0x100 % 0x100) as u64).as_str());
    push_text(&mut out, ".");
    push_text(&mut out, decimal_of((a % 0x100) as u64).as_str());
    out
}

/// The network of a prefix, where it is valid; `None` inside where it has been seen.
pub open spec fn once(seen: Set<PrefixId>, p: IpPrefix) -> Option<Option<IpCidr>> {
    match network_of(p) {
        None => None,
        Some(c) => if seen.contains(prefix_id(c.addr, c.mask)) {
            Some(None)
        } else {
            Some(Some(c))
        },
    }
}

/// The set after a prefix has been seen.
pub open spec fn seen_with(seen: Set<PrefixId>, p: IpPrefix) -> Set<PrefixId> {
    match network_of(p) {
        None => seen,
        Some(c) => seen.insert(prefix_id(c.addr, c.mask)),
    }
}

fn id_of(addr: IpAddr, mask: u8) -> (r: PrefixId)
    ensures
        r == prefix_id(addr, mask),
{
    match addr {
        IpAddr::V4(a) => (4, a as u128, mask),
        IpAddr::V6(a) => (6, a, mask),
    }
}

/// The network of a prefix the first time that it is seen. An error is a mask that does
/// not fit.
pub fn canonical_cidr_once(seen: &mut PrefixSet, prefix: &IpPrefix) -> (r: Result<
    Option<IpCidr>,
    (),
>)
    ensures
        final(seen)@ == seen_with(old(seen)@, *prefix),
        match r {
            Ok(c) => once(old(seen)@, *prefix) == Some(c),
            Err(_) => once(old(seen)@, *prefix) is None,
        },
{
    let cidr = match IpCidr::new(prefix.addr, prefix.mask) {
        Some(c) => c,
        None => return Err(()),
    };
    if seen.insert(id_of(cidr.addr, cidr.mask)) {
        Ok(Some(cidr))
    } else {
        Ok(None)
    }
}

/// What could not be written.
#[derive(Debug, Clone, Copy, PartialEq, Eq, Structural)]
pub enum FailedEntry {
    /// An address whose mask does not fit.
    Address(IpAddr),
    /// A network.
    Network(IpCidr),
    /// The entry at a position where there is none.
    Position(usize),
    /// A number of networks at once.
    All(usize),
}

/// What came of writing prefixes.
#[derive(Debug, PartialEq, Eq)]
pub struct WriteOutcome {
    pub ok: u64,
    pub skipped_exists: u64,
    pub skipped_duplicate: u64,
    /// The first failures, with the errors.
    pub failed: Vec<(FailedEntry, String)>,
    pub failed_total: u64,
}

/// The mathematical content of a [`WriteOutcome`].
pub struct WriteView {
    pub ok: u64,
    pub skipped_exists: u64,
    pub skipped_duplicate: u64,
    pub failed: Seq<(FailedEntry, Seq<char>)>,
    pub failed_total: u64,
}

pub open spec fn failure_views(v: Seq<(FailedEntry, String)>) -> Seq<(FailedEntry, Seq<char>)> {
    Seq::new(v.len(), |i: int| (v[i].0, v[i].1@))
}

impl View for WriteOutcome {
    type V = WriteView;

    open spec fn view(&self) -> WriteView {
        WriteView {
            ok: self.ok,
            skipped_exists: self.skipped_exists,
            skipped_duplicate: self.skipped_duplicate,
            failed: failure_views(self.failed@),
            failed_total: self.failed_total,
        }
    }
}

pub open spec fn nothing_written() -> WriteView {
    WriteView {
        ok: 0,
        skipped_exists: 0,
        skipped_duplicate: 0,
        failed: Seq::empty(),
        failed_total: 0,
    }
}

/// One more failure, told in full while there are few.
pub open spec fn told(
    failed: Seq<(FailedEntry, Seq<char>)>,
    entry: FailedEntry,
    error: Seq<char>,
) -> Seq<(FailedEntry, Seq<char>)> {
    if failed.len() < NFTSET_FAILURE_SAMPLE_CAP {
        failed.push((entry, error))
    } else {
        failed
    }
}

/// The networks of prefixes in the order in which they are first seen, and what is
/// known before they are written.
pub open spec fn prepared(prefixes: Seq<IpPrefix>) -> (Seq<IpCidr>, WriteView, Set<PrefixId>)
    decreases prefixes.len(),
{
    if prefixes.len() == 0 {
        (Seq::empty(), nothing_written(), Set::empty())
    } else {
        let (networks, w, seen) = prepared(prefixes.drop_last());
        let p = prefixes.last();
        match once(seen, p) {
            Some(Some(c)) => (networks.push(c), w, seen_with(seen, p)),
            Some(None) => (
                networks,
                WriteView { skipped_duplicate: (w.skipped_duplicate + 1) as u64, ..w },
                seen_with(seen, p),
            ),
            None => (
                networks,
                WriteView {
                    failed_total: (w.failed_total + 1) as u64,
                    failed: told(
                        w.failed,
                        FailedEntry::Address(p.addr),
                        "invalid prefix: mask out of range"@,
                    ),
                    ..w
                },
                seen,
            ),
        }
    }
}

fn tell(failed: &mut Vec<(FailedEntry, String)>, entry: FailedEntry, error: &str)
    ensures
        failure_views(final(failed)@) == told(failure_views(old(failed)@), entry, error@),
{
    if failed.len() < NFTSET_FAILURE_SAMPLE_CAP {
        failed.push((entry, error.to_owned()));
        assert(failure_views(failed@) =~= failure_views(old(failed)@).push((entry, error@)));
    }
}

/// The networks to write, each once, and what is known before they are written.
pub fn prepare_prefixes(prefixes: &[IpPrefix]) -> (r: (Vec<IpCidr>, WriteOutcome))
    ensures
        r.0@ == prepared(prefixes@).0,
        r.1@ == prepared(prefixes@).1,
{
    let mut networks: Vec<IpCidr> = Vec::new();
    let mut outcome = WriteOutcome {
        ok: 0,
        skipped_exists: 0,
        skipped_duplicate: 0,
        failed: Vec::new(),
        failed_total: 0,
    };
    assert(failure_views(outcome.failed@) =~= Seq::empty());
    let mut seen = PrefixSet::new();
    let mut i: usize = 0;
    while i < prefixes.len()
        invariant
            i <= prefixes@.len(),
            (networks@, outcome@, seen@) == prepared(prefixes@.take(i as int)),
            outcome.skipped_duplicate <= i,
            outcome.failed_total <= i,
        decreases prefixes@.len() - i,
    {
        let ghost part = prefixes@.take(i + 1);
        assert(part.drop_last() =~= prefixes@.take(i as int));
        match canonical_cidr_once(&mut seen, &prefixes[i]) {
            Ok(Some(cidr)) => {
                networks.push(cidr);
            },
            Ok(None) => {
                outcome.skipped_duplicate = outcome.skipped_duplicate + 1;
            },
            Err(_) => {
                outcome.failed_total = outcome.failed_total + 1;
                tell(
                    &mut outcome.failed,
                    FailedEntry::Address(prefixes[i].addr),
                    "invalid prefix: mask out of range",
                );
            },
        }
        i = i + 1;
    }
    assert(prefixes@.take(i as int) =~= prefixes@);
    (networks, outcome)
}

/// What a bulk write reports: how many networks were added, how many were there, and
/// which failed, by position.
#[derive(Debug, PartialEq, Eq)]
pub struct BulkResult {
    pub added: u64,
    pub exists: u64,
    pub failed: Vec<(usize, String)>,
}

pub open spec fn failed_entry(networks: Seq<IpCidr>, position: usize) -> FailedEntry {
    if position < networks.len() {
        FailedEntry::Network(networks[position as int])
    } else {
        FailedEntry::Position(position)
    }
}

/// The failures of a bulk write, the first told in full.
pub open spec fn told_all(
    failed: Seq<(FailedEntry, Seq<char>)>,
    networks: Seq<IpCidr>,
    bulk: Seq<(usize, String)>,
) -> Seq<(FailedEntry, Seq<char>)>
    decreases bulk.len(),
{
    if bulk.len() == 0 {
        failed
    } else {
        told(
            told_all(failed, networks, bulk.drop_last()),
            failed_entry(networks, bulk.last().0),
            bulk.last().1@,
        )
    }
}

/// Adds what a bulk write reports. An error is that of the whole write.
pub fn add_bulk_result(
    outcome: WriteOutcome,
    networks: &Vec<IpCidr>,
    result: Result<BulkResult, String>,
) -> (r: WriteOutcome)
    requires
        match result {
            Ok(b) => outcome.ok + b.added <= u64::MAX && outcome.skipped_exists + b.exists
                <= u64::MAX && outcome.failed_total + b.failed@.len() <= u64::MAX,
            Err(_) => outcome.failed_total + networks@.len() <= u64::MAX,
        },
    ensures
        r@ == (match result {
            Ok(b) => WriteView {
                ok: (outcome.ok + b.added) as u64,
                skipped_exists: (outcome.skipped_exists + b.exists) as u64,
                failed_total: (outcome.failed_total + b.failed@.len()) as u64,
                failed: told_all(outcome@.failed, networks@, b.failed@),
                ..outcome@
            },
            Err(e) => WriteView {
                failed_total: (outcome.failed_total + networks@.len()) as u64,
                failed: told(
                    outcome@.failed,
                    FailedEntry::All(networks@.len() as usize),
                    e@,
                ),
                ..outcome@
            },
        }),
{
    let mut out = outcome;
    match result {
        Ok(b) => {
            out.ok = out.ok + b.added;
            out.skipped_exists = out.skipped_exists + b.exists;
            out.failed_total = out.failed_total + b.failed.len() as u64;
            let ghost start = failure_views(out.failed@);
            let mut i: usize = 0;
            while i < b.failed.len()
                invariant
                    i <= b.failed@.len(),
                    failure_views(out.failed@) == told_all(start, networks@, b.failed@.take(i as int)),
                    out.ok == outcome.ok + b.added,
                    out.skipped_exists == outcome.skipped_exists + b.exists,
                    out.skipped_duplicate == outcome.skipped_duplicate,
                    out.failed_total == outcome.failed_total + b.failed@.len(),
                decreases b.failed@.len() - i,
            {
                assert(b.failed@.take(i + 1).drop_last() =~= b.failed@.take(i as int));
                let position: usize = b.failed[i].0;
                let entry = if position < networks.len() {
                    FailedEntry::Network(networks[position])
                } else {
                    FailedEntry::Position(position)
                };
                tell(&mut out.failed, entry, b.failed[i].1.as_str());
                i = i + 1;
            }
            assert(b.failed@.take(i as int) =~= b.failed@);
        },
        Err(e) => {
            out.failed_total = out.failed_total + networks.len() as u64;
            tell(&mut out.failed, FailedEntry::All(networks.len()), e.as_str());
        },
    }
    out
}

/// A batch of prefixes to write.
#[derive(Debug, PartialEq, Eq)]
pub struct NftSetBatch {
    pub ipv4_prefixes: Vec<IpPrefix>,
    pub ipv6_prefixes: Vec<IpPrefix>,
}

/// A batch and the first of those that wait, one after the other.
pub open spec fn merged(batch: (Seq<IpPrefix>, Seq<IpPrefix>), ready: Seq<NftSetBatch>) -> (
    Seq<IpPrefix>,
    Seq<IpPrefix>,
)
    decreases ready.len(),
{
    if ready.len() == 0 {
        batch
    } else {
        let (v4, v6) = merged(batch, ready.drop_last());
        (v4 + ready.last().ipv4_prefixes@, v6 + ready.last().ipv6_prefixes@)
    }
}

/// How many of the batches that wait are written with the first.
pub open spec fn drained(waiting: nat) -> int {
    if waiting < NFTSET_WRITER_DRAIN_MAX_BATCHES {
        waiting as int
    } else {
        NFTSET_WRITER_DRAIN_MAX_BATCHES - 1
    }
}

/// Adds batches that wait to a batch, and takes them out.
pub fn drain_ready_batches(ready: &mut Vec<NftSetBatch>, batch: NftSetBatch) -> (r: NftSetBatch)
    ensures
        ({
            let n = drained(old(ready)@.len());
            &&& (r.ipv4_prefixes@, r.ipv6_prefixes@) == merged(
                (batch.ipv4_prefixes@, batch.ipv6_prefixes@),
                old(ready)@.take(n),
            )
            &&& final(ready)@ == old(ready)@.skip(n)
        }),
{
    let ghost all = ready@;
    let ghost first = (batch.ipv4_prefixes@, batch.ipv6_prefixes@);
    let mut batch = batch;
    let mut n: usize = 0;
    assert(all.skip(0) =~= all);
    while n < NFTSET_WRITER_DRAIN_MAX_BATCHES - 1 && ready.len() > 0
        invariant
            n < NFTSET_WRITER_DRAIN_MAX_BATCHES,
            n <= all.len(),
            ready@ == all.skip(n as int),
            (batch.ipv4_prefixes@, batch.ipv6_prefixes@) == merged(first, all.take(n as int)),
        decreases NFTSET_WRITER_DRAIN_MAX_BATCHES - n,
    {
        let mut queued = ready.remove(0);
        assert(queued == all[n as int]);
        let ghost v4 = batch.ipv4_prefixes@;
        let ghost v6 = batch.ipv6_prefixes@;
        let ghost added = (queued.ipv4_prefixes@, queued.ipv6_prefixes@);
        batch.ipv4_prefixes.append(&mut queued.ipv4_prefixes);
        batch.ipv6_prefixes.append(&mut queued.ipv6_prefixes);
        assert(batch.ipv4_prefixes@ =~= v4 + added.0);
        assert(batch.ipv6_prefixes@ =~= v6 + added.1);
        assert(all.take(n + 1).drop_last() =~= all.take(n as int));
        n = n + 1;
        assert(ready@ =~= all.skip(n as int));
    }
    batch
}

/// Two addresses with the same leading bits have the same network.
pub proof fn law_same_network(a: u32, b: u32, mask: u8)
    requires
        0 < mask <= 32,
        a >> ((32 - mask) as u32) == b >> ((32 - mask) as u32),
    ensures
        network_of(IpPrefix { addr: IpAddr::V4(a), mask }) == network_of(
            IpPrefix { addr: IpAddr::V4(b), mask },
        ),
{
}

/// The network of a network is that network.
pub proof fn law_network_is_fixed(p: IpPrefix)
    requires
        network_of(p) is Some,
    ensures
        network_of(IpPrefix { addr: network_of(p)->0.addr, mask: p.mask }) == network_of(p),
{
    match p.addr {
        IpAddr::V4(a) => {
            let s = (32 - p.mask) as u32;
            assert(s < 32 ==> (((a >> s) << s) >> s) << s == (a >> s) << s) by (bit_vector);
        },
        IpAddr::V6(a) => {
            let s = (128 - p.mask) as u32;
            assert(s < 128 ==> (((a >> s) << s) >> s) << s == (a >> s) << s) by (bit_vector);
        },
    }
}

proof fn lemma_prepared(prefixes: Seq<IpPrefix>)
    ensures
        ({
            let (networks, w, seen) = prepared(prefixes);
            &&& forall|i: int|
                0 <= i < networks.len() ==> seen.contains(
                    prefix_id((#[trigger] networks[i]).addr, networks[i].mask),
                )
            &&& networks.no_duplicates()
            &&& w.skipped_duplicate + w.failed_total + networks.len() == prefixes.len()
                || prefixes.len() > u64::MAX
        }),
    decreases prefixes.len(),
{
    if prefixes.len() > 0 {
        lemma_prepared(prefixes.drop_last());
    }
}

/// Each network is written once, and every prefix is written, known already or told as
/// a failure.
pub proof fn law_each_network_once(prefixes: Seq<IpPrefix>)
    requires
        prefixes.len() <= u64::MAX,
    ensures
        prepared(prefixes).0.no_duplicates(),
        prepared(prefixes).0.len() + prepared(prefixes).1.skipped_duplicate + prepared(
            prefixes,
        ).1.failed_total == prefixes.len(),
{
    lemma_prepared(prefixes);
}

} // verus!
