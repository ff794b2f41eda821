//! The scores of addresses.

use ahash::{AHashMap, RandomState};
use vstd::prelude::*;

use crate::ip_selector::probe::{ProbeKey, ProbeObservation};
use crate::proto::message::IpAddr;

verus! {

/// Where a score comes from.
#[derive(Debug, Clone, Copy, PartialEq, Eq, Structural)]
pub enum ScoreSource {
    Cache,
    Probe,
}

/// How fast an address answers.
#[derive(Debug, Clone, Copy, PartialEq, Eq, Structural)]
pub struct IpScore {
    pub latency_ms: u64,
    pub source: ScoreSource,
}

/// An address as plain values: the family (4 or 6) and the bits.
pub type AddrId = (u8, u128);

pub open spec fn addr_id(a: IpAddr) -> AddrId {
    match a {
        IpAddr::V4(v) => (4, v as u128),
        IpAddr::V6(v) => (6, v),
    }
}

/// The plain values of an address.
pub fn addr_id_of(a: IpAddr) -> (r: AddrId)
    ensures
        r == addr_id(a),
{
    match a {
        IpAddr::V4(v) => (4, v as u128),
        IpAddr::V6(v) => (6, v),
    }
}

/// `ahash::AHashMap`, opaque.
#[verifier::external_type_specification]
#[verifier::external_body]
#[verifier::reject_recursive_types(K)]
#[verifier::reject_recursive_types(V)]
#[verifier::reject_recursive_types(S)]
pub struct ExAHashMap<K, V, S>(AHashMap<K, V, S>);

/// What a table of scores holds: latencies, and whether they come from a probe.
pub uninterp spec fn score_contents(
    table: AHashMap<(u8, u128), (u64, bool), RandomState>,
) -> Map<(u8, u128), (u64, bool)>;

pub open spec fn no_scores() -> Map<AddrId, (u64, bool)> {
    Map::empty()
}

/// `AHashMap::new`: an empty table.
#[verifier::external_body]
fn scores_new() -> (r: AHashMap<AddrId, (u64, bool), RandomState>)
    ensures
        score_contents(r) == no_scores(),
{
    AHashMap::new()
}

/// `AHashMap::get`: the value stored under a key, if there is one.
#[verifier::external_body]
fn scores_get(table: &AHashMap<AddrId, (u64, bool), RandomState>, id: AddrId) -> (r: Option<
    (u64, bool),
>)
    ensures
        r == (if score_contents(*table).dom().contains(id) {
            Some(score_contents(*table)[id])
        } else {
            None
        }),
{
    table.get(&id).copied()
}

/// `AHashMap::insert`: stores a value under a key, in place of an earlier one.
#[verifier::external_body]
fn scores_insert(table: &mut AHashMap<AddrId, (u64, bool), RandomState>, id: AddrId, score: (u64, bool))
    ensures
        score_contents(*final(table)) == score_contents(*old(table)).insert(id, score),
{
    table.insert(id, score);
}

pub open spec fn score_of(v: (u64, bool)) -> IpScore {
    IpScore {
        latency_ms: v.0,
        source: if v.1 {
            ScoreSource::Probe
        } else {
            ScoreSource::Cache
        },
    }
}

pub open spec fn value_of(s: IpScore) -> (u64, bool) {
    (s.latency_ms, s.source == ScoreSource::Probe)
}

/// The best score of each address.
pub struct ScoreTable {
    table: AHashMap<AddrId, (u64, bool), RandomState>,
}

/// Scores with one more: the lower latency of an address stays.
pub open spec fn with_score(m: Map<AddrId, (u64, bool)>, ip: IpAddr, s: IpScore) -> Map<
    AddrId,
    (u64, bool),
> {
    let id = addr_id(ip);
    if m.dom().contains(id) && m[id].0 <= s.latency_ms {
        m
    } else {
        m.insert(id, value_of(s))
    }
}

/// The score that a table has for an address.
pub open spec fn score_in(m: Map<AddrId, (u64, bool)>, ip: IpAddr) -> Option<IpScore> {
    if m.dom().contains(addr_id(ip)) {
        Some(score_of(m[addr_id(ip)]))
    } else {
        None
    }
}

impl ScoreTable {
    pub closed spec fn view(&self) -> Map<AddrId, (u64, bool)> {
        score_contents(self.table)
    }

    pub fn new() -> (r: ScoreTable)
        ensures
            r@ == Map::<AddrId, (u64, bool)>::empty(),
    {
        ScoreTable { table: scores_new() }
    }

    /// The score of an address.
    pub fn get(&self, ip: IpAddr) -> (r: Option<IpScore>)
        ensures
            r == score_in(self@, ip),
    {
        match scores_get(&self.table, addr_id_of(ip)) {
            Some((latency_ms, probe)) => Some(
                IpScore {
                    latency_ms,
                    source: if probe {
                        ScoreSource::Probe
                    } else {
                        ScoreSource::Cache
                    },
                },
            ),
            None => None,
        }
    }
}

/// Keeps the lower latency of an address.
pub fn update_best_score(scores: &mut ScoreTable, ip: IpAddr, score: IpScore)
    ensures
        final(scores)@ == with_score(old(scores)@, ip, score),
{
    let id = addr_id_of(ip);
    if let Some((latency_ms, _)) = scores_get(&scores.table, id) {
        if latency_ms <= score.latency_ms {
            return;
        }
    }
    let probe = match score.source {
        ScoreSource::Probe => true,
        ScoreSource::Cache => false,
    };
    scores_insert(&mut scores.table, id, (score.latency_ms, probe));
}

/// How long probes are awaited.
#[derive(Debug, Clone, Copy, PartialEq, Eq, Structural)]
pub enum ProbeWaitMode {
    /// Until one succeeds.
    FirstSuccess,
    /// Until all have ended, or time is up.
    BestWithinBudget,
}

/// Collects the scores of probes as they end. Failed probes give none.
pub struct ScoreCollector {
    scores: ScoreTable,
    mode: ProbeWaitMode,
}

/// The scores after a probe has ended.
pub open spec fn collected(m: Map<AddrId, (u64, bool)>, key: ProbeKey, o: ProbeObservation) -> Map<
    AddrId,
    (u64, bool),
> {
    match crate::ip_selector::probe::observed_score(o, ScoreSource::Probe) {
        Some(s) => with_score(m, key.ip, s),
        None => m,
    }
}

/// The scores after some probes have ended.
pub open spec fn collected_all(probes: Seq<(ProbeKey, ProbeObservation)>) -> Map<
    AddrId,
    (u64, bool),
>
    decreases probes.len(),
{
    if probes.len() == 0 {
        Map::empty()
    } else {
        collected(collected_all(probes.drop_last()), probes.last().0, probes.last().1)
    }
}

impl ScoreCollector {
    pub closed spec fn view(&self) -> Map<AddrId, (u64, bool)> {
        self.scores@
    }

    pub closed spec fn mode(&self) -> ProbeWaitMode {
        self.mode
    }

    pub fn new(mode: ProbeWaitMode) -> (r: ScoreCollector)
        ensures
            r@ == Map::<AddrId, (u64, bool)>::empty(),
            r.mode() == mode,
    {
        ScoreCollector { scores: ScoreTable::new(), mode }
    }

    /// Takes the result of a probe. Returns whether the wait is over.
    pub fn record(&mut self, key: &ProbeKey, observation: ProbeObservation) -> (r: bool)
        ensures
            final(self)@ == collected(old(self)@, *key, observation),
            final(self).mode() == old(self).mode(),
            r == (observation.success && old(self).mode() == ProbeWaitMode::FirstSuccess),
    {
        if let Some(score) = observation.score(ScoreSource::Probe) {
            update_best_score(&mut self.scores, key.ip, score);
            if self.mode == ProbeWaitMode::FirstSuccess {
                return true;
            }
        }
        false
    }

    /// The scores.
    pub fn finish(self) -> (r: ScoreTable)
        ensures
            r@ == self@,
    {
        self.scores
    }
}

/// The latency that a probe gives.
pub open spec fn latency_of(o: ProbeObservation) -> u64 {
    match o.latency_ms {
        Some(l) => l,
        None => u64::MAX,
    }
}

/// Whether a probe of this address with this latency has succeeded.
pub open spec fn was_seen(probes: Seq<(ProbeKey, ProbeObservation)>, id: AddrId, latency: u64) -> bool {
    exists|i: int|
        0 <= i < probes.len() && addr_id((#[trigger] probes[i]).0.ip) == id && probes[i].1.success
            && latency_of(probes[i].1) == latency
}

/// The score of an address is the lowest latency of its successful probes.
pub proof fn law_best_latency_stays(probes: Seq<(ProbeKey, ProbeObservation)>, id: AddrId)
    ensures
        ({
            let m = collected_all(probes);
            &&& m.dom().contains(id) ==> was_seen(probes, id, m[id].0)
            &&& forall|i: int|
                0 <= i < probes.len() && addr_id((#[trigger] probes[i]).0.ip) == id
                    && probes[i].1.success ==> m.dom().contains(id) && m[id].0 <= latency_of(
                    probes[i].1,
                )
        }),
    decreases probes.len(),
{
    if probes.len() > 0 {
        let init = probes.drop_last();
        law_best_latency_stays(init, id);
        let before = collected_all(init);
        let m = collected_all(probes);
        let last = probes.last();
        if before.dom().contains(id) {
            let i = choose|i: int|
                0 <= i < init.len() && addr_id((#[trigger] init[i]).0.ip) == id && init[i].1.success
                    && latency_of(init[i].1) == before[id].0;
            assert(probes[i] == init[i]);
            assert(was_seen(probes, id, before[id].0));
        }
        if addr_id(last.0.ip) == id && last.1.success {
            assert(probes[probes.len() - 1] == last);
            assert(was_seen(probes, id, latency_of(last.1)));
        }
        assert forall|i: int|
            0 <= i < probes.len() && addr_id((#[trigger] probes[i]).0.ip) == id
                && probes[i].1.success implies m.dom().contains(id) && m[id].0 <= latency_of(
            probes[i].1,
        ) by {
            if i < init.len() {
                assert(init[i] == probes[i]);
            }
        }
    }
}

} // verus!
