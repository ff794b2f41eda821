//! What holds of the scores of addresses and of the results that are kept.

use vstd::prelude::*;

use crate::ip_selector::probe::{
    is_command, longest, observed_score, Delay, PingCommand, ProbeKey, ProbeObservation,
};
use crate::ip_selector::runtime::{
    evicted, freed, is_sample, kept, looked_up, probe_id, surplus, taken, RuntimeView,
};
use crate::ip_selector::score::{
    addr_id, collected, collected_all, score_in, with_score, AddrId, IpScore, ScoreSource,
};
use crate::proto::message::IpAddr;
use crate::ttl_cache::Slot;

verus! {

/// Different addresses are never taken for one.
pub proof fn law_addresses_are_told_apart(a: IpAddr, b: IpAddr)
    requires
        a != b,
    ensures
        addr_id(a) != addr_id(b),
{
}

/// Probes of different addresses, and different probes of an address, are never taken for
/// one.
pub proof fn law_probes_are_told_apart(a: ProbeKey, b: ProbeKey)
    requires
        a != b,
    ensures
        probe_id(a) != probe_id(b),
{
}

/// The score of an address leaves those of all others as they are.
pub proof fn law_score_is_of_its_address(
    m: Map<AddrId, (u64, bool)>,
    a: IpAddr,
    s: IpScore,
    b: IpAddr,
)
    requires
        a != b,
    ensures
        score_in(with_score(m, a, s), b) == score_in(m, b),
{
    law_addresses_are_told_apart(a, b);
}

/// Of two scores of an address the one with the lower latency is had, the earlier where
/// they are the same. A first score is had as it is.
pub proof fn law_lower_score_is_had(m: Map<AddrId, (u64, bool)>, a: IpAddr, s: IpScore)
    ensures
        score_in(with_score(m, a, s), a) == (match score_in(m, a) {
            Some(earlier) => if s.latency_ms < earlier.latency_ms {
                Some(s)
            } else {
                Some(earlier)
            },
            None => Some(s),
        }),
{
}

/// The latency of a successful probe; one without a latency is as slow as can be.
pub open spec fn slowness(o: ProbeObservation) -> int {
    match o.latency_ms {
        Some(l) => l as int,
        None => u64::MAX as int,
    }
}

/// Whether the probe at `i` is a successful one of this address.
pub open spec fn reached(probes: Seq<(ProbeKey, ProbeObservation)>, i: int, ip: IpAddr) -> bool {
    0 <= i < probes.len() && probes[i].0.ip == ip && probes[i].1.success
}

/// An address has a score exactly where a probe of this very address succeeded, and the
/// score is the lowest latency of these probes, whatever came of probes of others.
pub proof fn law_score_of_successful_probes(
    probes: Seq<(ProbeKey, ProbeObservation)>,
    ip: IpAddr,
)
    ensures
        match score_in(collected_all(probes), ip) {
            Some(s) => {
                &&& s.source == ScoreSource::Probe
                &&& exists|i: int| #[trigger]
                    reached(probes, i, ip) && slowness(probes[i].1) == s.latency_ms
                &&& forall|i: int| #[trigger]
                    reached(probes, i, ip) ==> s.latency_ms <= slowness(probes[i].1)
            },
            None => forall|i: int| !#[trigger] reached(probes, i, ip),
        },
    decreases probes.len(),
{
    if probes.len() > 0 {
        let init = probes.drop_last();
        let n = init.len() as int;
        law_score_of_successful_probes(init, ip);
        let before = collected_all(init);
        let (key, o) = probes.last();
        assert(probes[n] == (key, o));
        assert(forall|i: int| 0 <= i < n ==> #[trigger] probes[i] == init[i]);
        assert(forall|i: int|
            #![trigger reached(probes, i, ip)]
            #![trigger reached(init, i, ip)]
            i < n ==> (reached(probes, i, ip) <==> reached(init, i, ip)));
        if o.success {
            let s = observed_score(o, ScoreSource::Probe)->0;
            if key.ip == ip {
                law_lower_score_is_had(before, ip, s);
                assert(reached(probes, n, ip));
            } else {
                law_score_is_of_its_address(before, key.ip, s, ip);
            }
        }
        if score_in(before, ip) is Some {
            let l = score_in(before, ip)->0.latency_ms;
            let i = choose|i: int| #[trigger]
                reached(init, i, ip) && slowness(init[i].1) == l;
            assert(reached(probes, i, ip));
        }
    }
}

/// A failed probe changes no score.
pub proof fn law_failure_scores_nothing(
    m: Map<AddrId, (u64, bool)>,
    key: ProbeKey,
    o: ProbeObservation,
)
    requires
        !o.success,
    ensures
        collected(m, key, o) == m,
{
}

/// A probe under way is found by its own key, and by no other.
pub proof fn law_probe_under_way_is_joined(s: RuntimeView, key: ProbeKey, other: ProbeKey)
    ensures
        taken(s, key).inflight.contains(probe_id(other)) <==> other == key || s.inflight.contains(
            probe_id(other),
        ),
        freed(s, key).inflight.contains(probe_id(other)) <==> other != key && s.inflight.contains(
            probe_id(other),
        ),
        freed(s, key).cache == s.cache && taken(s, key).cache == s.cache,
{
    if other != key {
        law_probes_are_told_apart(key, other);
    }
}

/// A success is kept for the time of successes and a failure for that of failures; when
/// that time is over the result is not found any more.
pub proof fn law_results_are_kept_for_their_time(
    s: RuntimeView,
    key: ProbeKey,
    o: ProbeObservation,
    now_ms: u64,
    after: RuntimeView,
    later_ms: u64,
)
    requires
        s.settings.cache_enabled,
        kept(s, key, o, now_ms, after),
        after.cache.dom().contains(key),
    ensures
        ({
            let ttl = if o.success {
                s.settings.cache_ttl_ms
            } else {
                s.settings.failure_ttl_ms
            };
            let found = looked_up(after, key, later_ms).1;
            &&& later_ms < now_ms + ttl && later_ms < u64::MAX ==> found == Some(o)
            &&& later_ms >= now_ms + ttl ==> found is None
        }),
{
}

/// Without a cache nothing is kept and nothing is found.
pub proof fn law_no_results_without_cache(
    s: RuntimeView,
    key: ProbeKey,
    o: ProbeObservation,
    now_ms: u64,
    after: RuntimeView,
)
    requires
        !s.settings.cache_enabled,
        kept(s, key, o, now_ms, after),
    ensures
        after == s,
        looked_up(s, key, now_ms) == (s, None::<ProbeObservation>),
{
}

/// Looking a result up leaves all others as they are.
pub proof fn law_lookup_leaves_other_results(
    s: RuntimeView,
    key: ProbeKey,
    now_ms: u64,
    other: ProbeKey,
)
    requires
        other != key,
    ensures
        ({
            let after = looked_up(s, key, now_ms).0;
            &&& after.cache.dom().contains(other) <==> s.cache.dom().contains(other)
            &&& s.cache.dom().contains(other) ==> after.cache[other] == s.cache[other]
            &&& after.running == s.running && after.inflight == s.inflight
        }),
{
}

/// A use of a result is noted where the last one was at least a second ago. Nothing else of the
/// result changes.
pub proof fn law_use_of_result_is_noted(s: RuntimeView, key: ProbeKey, now_ms: u64)
    requires
        looked_up(s, key, now_ms).1 is Some,
        s.cache[key].last_access_ms <= now_ms,
    ensures
        ({
            let before = s.cache[key];
            let after = looked_up(s, key, now_ms).0.cache[key];
            &&& after.last_access_ms == (if now_ms >= before.last_access_ms + 1000 {
                now_ms
            } else {
                before.last_access_ms
            })
            &&& after.value == before.value && after.expire_at_ms == before.expire_at_ms
                && after.cache_time_ms == before.cache_time_ms && after.generation
                == before.generation
        }),
{
}

/// Making room takes no result where there are few enough, and changes none that stays.
/// Where all results are looked at, as many stay as are wanted, and those that go were used
/// no later than those that stay.
pub proof fn law_oldest_results_make_room(
    m: Map<ProbeKey, Slot<ProbeObservation>>,
    size: usize,
    after: Map<ProbeKey, Slot<ProbeObservation>>,
)
    requires
        m.dom().finite(),
        evicted(m, size, after),
    ensures
        m.dom().len() <= size ==> after == m,
        forall|k: ProbeKey| #[trigger]
            after.dom().contains(k) ==> m.dom().contains(k) && after[k] == m[k],
        size < m.dom().len() <= 1024 ==> after.dom().len() == size,
        size < m.dom().len() <= 1024 ==> forall|gone: ProbeKey, left: ProbeKey|
            m.dom().contains(gone) && !(#[trigger] after.dom().contains(gone)) && (
            #[trigger] after.dom().contains(left)) ==> m[gone].last_access_ms
                <= m[left].last_access_ms,
{
    let sample = choose|sample: Seq<ProbeKey>| #[trigger]
        is_sample(m, sample) && after == m.remove_keys(sample.take(surplus(m, size)).to_set());
    let n = surplus(m, size);
    let removed = sample.take(n);
    if m.dom().len() <= size {
        assert(removed =~= Seq::empty());
        assert(after =~= m);
    }
    if size < m.dom().len() <= 1024 {
        sample.unique_seq_to_set();
        assert(sample.to_set().subset_of(m.dom())) by {
            assert forall|k: ProbeKey| sample.to_set().contains(k) implies m.dom().contains(k) by {
                let i = choose|i: int| 0 <= i < sample.len() && sample[i] == k;
                assert(m.dom().contains(sample[i]));
            }
        }
        vstd::set_lib::lemma_subset_equality(sample.to_set(), m.dom());
        assert(removed.no_duplicates());
        removed.unique_seq_to_set();
        assert(removed.to_set().subset_of(m.dom())) by {
            assert forall|k: ProbeKey| removed.to_set().contains(k) implies m.dom().contains(k) by {
                let i = choose|i: int| 0 <= i < removed.len() && removed[i] == k;
                assert(m.dom().contains(sample[i]));
            }
        }
        assert(after.dom() =~= m.dom().difference(removed.to_set()));
        vstd::set_lib::lemma_len_difference(m.dom(), removed.to_set());
        vstd::set_lib::lemma_set_disjoint_lens(after.dom(), removed.to_set());
        assert(after.dom() + removed.to_set() =~= m.dom());
        assert forall|gone: ProbeKey, left: ProbeKey|
            m.dom().contains(gone) && !(#[trigger] after.dom().contains(gone)) && (
            #[trigger] after.dom().contains(left)) implies m[gone].last_access_ms
            <= m[left].last_access_ms by {
            assert(removed.to_set().contains(gone));
            let i = choose|i: int| 0 <= i < removed.len() && removed[i] == gone;
            assert(sample[i] == gone);
            assert(sample.to_set().contains(left));
            let j = choose|j: int| 0 <= j < sample.len() && sample[j] == left;
            if j < n {
                assert(removed[j] == left);
                assert(removed.to_set().contains(left));
            }
            assert(m[sample[i]].last_access_ms <= m[sample[j]].last_access_ms);
        }
    }
}

/// A command has its program and its arguments, in order and no others; the longest delay is
/// one that no other exceeds.
pub proof fn law_commands_and_delays(
    c: PingCommand,
    program: Seq<char>,
    args: Seq<Seq<char>>,
    i: int,
    d: Delay,
)
    requires
        is_command(c, program, args),
    ensures
        c.program@ == program,
        c.args@.len() == args.len(),
        0 <= i < args.len() ==> c.args@[i]@ == args[i],
        d.nanos < 1000000000 ==> d.total() <= longest().total(),
{
    assert(crate::text::views(c.args@).len() == args.len());
    if 0 <= i < args.len() {
        assert(crate::text::views(c.args@)[i] == args[i]);
    }
}

} // verus!
