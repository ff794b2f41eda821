//! The executor that passes addresses on to the writer.

use vstd::prelude::*;

use crate::cache::metrics::{emit, sample_views, tagged, MetricKind, MetricSample, MetricSampleView};
use crate::error::{DnsError, DnsErrorView};
use crate::nftset::config::{
    parse_quick_sets, quick_sets, resolve_sets, set_view, sets_of, NftSetConfig, ResolvedSet,
    SetView,
};
use crate::nftset::writer::{prefix_id, IpPrefix, NftSetBatch, WriteOutcome};
use crate::prefix_set::{PrefixId, PrefixSet};
use crate::proto::message::{record_addr, record_views, IpAddr, Message, RecordView};
use crate::text::words;

verus! {

/// Counters.
#[derive(Debug, PartialEq, Eq)]
pub struct NftSetMetrics {
    pub tag: String,
    pub entries_total: u64,
    pub dropped_total: u64,
    pub write_total: u64,
    pub write_error_total: u64,
}

impl NftSetMetrics {
    /// Counters that stand at zero.
    pub fn new(tag: String) -> (r: NftSetMetrics)
        ensures
            r == (NftSetMetrics {
                tag,
                entries_total: 0,
                dropped_total: 0,
                write_total: 0,
                write_error_total: 0,
            }),
    {
        NftSetMetrics {
            tag,
            entries_total: 0,
            dropped_total: 0,
            write_total: 0,
            write_error_total: 0,
        }
    }

    /// All samples.
    pub fn collect(&self) -> (r: Vec<MetricSample>)
        ensures
            sample_views(r@) == samples(*self),
    {
        let c = MetricKind::Counter;
        let mut out: Vec<MetricSample> = Vec::new();
        assert(sample_views(out@) =~= Seq::empty());
        emit(
            &mut out,
            c,
            "nftset_entries_total",
            "Total IP prefixes enqueued for nftset writes.",
            &self.tag,
            self.entries_total,
        );
        emit(
            &mut out,
            c,
            "nftset_dropped_total",
            "Total nftset write batches dropped because the writer queue was full.",
            &self.tag,
            self.dropped_total,
        );
        emit(
            &mut out,
            c,
            "nftset_write_total",
            "Total IP prefixes successfully written to nftables via netlink.",
            &self.tag,
            self.write_total,
        );
        emit(
            &mut out,
            c,
            "nftset_write_error_total",
            "Total nftset netlink write failures.",
            &self.tag,
            self.write_error_total,
        );
        assert(sample_views(out@) =~= samples(*self));
        out
    }
}

pub open spec fn samples(m: NftSetMetrics) -> Seq<MetricSampleView> {
    let c = MetricKind::Counter;
    seq![
        tagged(
            c,
            "nftset_entries_total"@,
            "Total IP prefixes enqueued for nftset writes."@,
            m.tag@,
            m.entries_total,
        ),
        tagged(
            c,
            "nftset_dropped_total"@,
            "Total nftset write batches dropped because the writer queue was full."@,
            m.tag@,
            m.dropped_total,
        ),
        tagged(
            c,
            "nftset_write_total"@,
            "Total IP prefixes successfully written to nftables via netlink."@,
            m.tag@,
            m.write_total,
        ),
        tagged(
            c,
            "nftset_write_error_total"@,
            "Total nftset netlink write failures."@,
            m.tag@,
            m.write_error_total,
        ),
    ]
}

/// Counts what came of a write.
pub fn record_outcome(outcome: &WriteOutcome, metrics: &mut NftSetMetrics)
    ensures
        *final(metrics) == (NftSetMetrics {
            write_total: old(metrics).write_total.wrapping_add(outcome.ok),
            write_error_total: old(metrics).write_error_total.wrapping_add(outcome.failed_total),
            ..*old(metrics)
        }),
{
    metrics.write_total = metrics.write_total.wrapping_add(outcome.ok);
    metrics.write_error_total = metrics.write_error_total.wrapping_add(outcome.failed_total);
}

/// What became of a batch that was handed to the writer.
#[derive(Debug, Clone, Copy, PartialEq, Eq, Structural)]
pub enum SendOutcome {
    Sent,
    /// The queue is full.
    Full,
    /// The writer is gone.
    Disconnected,
}

/// The executor.
#[derive(Debug, PartialEq, Eq)]
pub struct NftSetExecutor {
    pub tag: String,
    pub ipv4: Option<ResolvedSet>,
    pub ipv6: Option<ResolvedSet>,
    pub enabled: bool,
    pub metrics: NftSetMetrics,
}

/// The prefix under which the address of a record is written.
pub open spec fn prefix_of(r: RecordView, ipv4: Option<SetView>, ipv6: Option<SetView>) -> Option<
    IpPrefix,
> {
    match record_addr(r) {
        Some(IpAddr::V4(a)) => match ipv4 {
            Some(s) => Some(IpPrefix { addr: IpAddr::V4(a), mask: s.mask }),
            None => None,
        },
        Some(IpAddr::V6(a)) => match ipv6 {
            Some(s) => Some(IpPrefix { addr: IpAddr::V6(a), mask: s.mask }),
            None => None,
        },
        None => None,
    }
}

/// Whether some record has this prefix.
pub open spec fn has_prefix(
    answers: Seq<RecordView>,
    ipv4: Option<SetView>,
    ipv6: Option<SetView>,
    p: IpPrefix,
) -> bool {
    exists|i: int| 0 <= i < answers.len() && prefix_of(#[trigger] answers[i], ipv4, ipv6) == Some(p)
}

/// Whether a batch holds the prefixes of all records, each once, apart by family.
pub open spec fn holds_prefixes(
    b: NftSetBatch,
    answers: Seq<RecordView>,
    ipv4: Option<SetView>,
    ipv6: Option<SetView>,
) -> bool {
    &&& b.ipv4_prefixes@.no_duplicates()
    &&& b.ipv6_prefixes@.no_duplicates()
    &&& forall|p: IpPrefix| #[trigger]
        b.ipv4_prefixes@.contains(p) <==> p.addr is V4 && has_prefix(answers, ipv4, ipv6, p)
    &&& forall|p: IpPrefix| #[trigger]
        b.ipv6_prefixes@.contains(p) <==> p.addr is V6 && has_prefix(answers, ipv4, ipv6, p)
}

/// Whether a set holds the ids of the prefixes of a family.
spec fn ids_of(
    ids: Set<PrefixId>,
    answers: Seq<RecordView>,
    ipv4: Option<SetView>,
    ipv6: Option<SetView>,
    v4: bool,
) -> bool {
    forall|id: PrefixId| #[trigger]
        ids.contains(id) <==> exists|p: IpPrefix|
            #![trigger has_prefix(answers, ipv4, ipv6, p)]
            has_prefix(answers, ipv4, ipv6, p) && (p.addr is V4) == v4 && prefix_id(p.addr, p.mask)
                == id
}

proof fn lemma_ids_grow(
    ids: Set<PrefixId>,
    answers: Seq<RecordView>,
    ipv4: Option<SetView>,
    ipv6: Option<SetView>,
    v4: bool,
    n: int,
)
    requires
        0 <= n < answers.len(),
        ids_of(ids, answers.take(n), ipv4, ipv6, v4),
    ensures
        ({
            let p = prefix_of(answers[n], ipv4, ipv6);
            ids_of(
                if p is Some && (p->0.addr is V4) == v4 {
                    ids.insert(prefix_id(p->0.addr, p->0.mask))
                } else {
                    ids
                },
                answers.take(n + 1),
                ipv4,
                ipv6,
                v4,
            )
        }),
{
    let p = prefix_of(answers[n], ipv4, ipv6);
    let before = answers.take(n);
    let after = answers.take(n + 1);
    assert forall|q: IpPrefix| has_prefix(after, ipv4, ipv6, q) <==> has_prefix(
        before,
        ipv4,
        ipv6,
        q,
    ) || p == Some(q) by {
        if has_prefix(before, ipv4, ipv6, q) {
            let i = choose|i: int|
                0 <= i < before.len() && prefix_of(#[trigger] before[i], ipv4, ipv6) == Some(q);
            assert(after[i] == before[i]);
        }
        if p == Some(q) {
            assert(after[n] == answers[n]);
        }
        if has_prefix(after, ipv4, ipv6, q) && p != Some(q) {
            let i = choose|i: int|
                0 <= i < after.len() && prefix_of(#[trigger] after[i], ipv4, ipv6) == Some(q);
            assert(before[i] == after[i]);
        }
    }
    let grown = if p is Some && (p->0.addr is V4) == v4 {
        ids.insert(prefix_id(p->0.addr, p->0.mask))
    } else {
        ids
    };
    assert forall|id: PrefixId| #[trigger] grown.contains(id) <==> exists|q: IpPrefix|
        #![trigger has_prefix(after, ipv4, ipv6, q)]
        has_prefix(after, ipv4, ipv6, q) && (q.addr is V4) == v4 && prefix_id(q.addr, q.mask)
            == id by {
        if ids.contains(id) {
            let q = choose|q: IpPrefix|
                #![trigger has_prefix(before, ipv4, ipv6, q)]
                has_prefix(before, ipv4, ipv6, q) && (q.addr is V4) == v4 && prefix_id(
                    q.addr,
                    q.mask,
                ) == id;
            assert(has_prefix(after, ipv4, ipv6, q));
        }
        if p is Some {
            assert(has_prefix(after, ipv4, ipv6, p->0));
        }
    }
}

/// The prefix that an id stands for.
fn prefix_of_id(id: PrefixId) -> (r: IpPrefix)
    ensures
        id.0 == 4 && id.1 <= u32::MAX ==> prefix_id(r.addr, r.mask) == id && r.addr is V4,
        id.0 == 6 ==> prefix_id(r.addr, r.mask) == id && r.addr is V6,
{
    if id.0 == 4 {
        IpPrefix { addr: IpAddr::V4(id.1 as u32), mask: id.2 }
    } else {
        IpPrefix { addr: IpAddr::V6(id.1), mask: id.2 }
    }
}

fn prefixes_of_ids(
    ids: &Vec<PrefixId>,
    answers: Ghost<Seq<RecordView>>,
    ipv4: Ghost<Option<SetView>>,
    ipv6: Ghost<Option<SetView>>,
    v4: Ghost<bool>,
) -> (r: Vec<IpPrefix>)
    requires
        ids@.no_duplicates(),
        ids_of(ids@.to_set(), answers@, ipv4@, ipv6@, v4@),
    ensures
        r@.no_duplicates(),
        r@.len() == ids@.len(),
        forall|p: IpPrefix| #[trigger]
            r@.contains(p) <==> (p.addr is V4) == v4@ && has_prefix(answers@, ipv4@, ipv6@, p),
{
    let mut out: Vec<IpPrefix> = Vec::new();
    let mut i: usize = 0;
    while i < ids.len()
        invariant
            i <= ids@.len(),
            out@.len() == i,
            ids_of(ids@.to_set(), answers@, ipv4@, ipv6@, v4@),
            forall|j: int|
                0 <= j < i ==> prefix_id((#[trigger] out@[j]).addr, out@[j].mask) == ids@[j]
                    && (out@[j].addr is V4) == v4@ && has_prefix(
                    answers@,
                    ipv4@,
                    ipv6@,
                    out@[j],
                ),
        decreases ids@.len() - i,
    {
        let id = ids[i];
        proof {
            assert(ids@.to_set().contains(id)) by {
                assert(ids@[i as int] == id);
            }
        }
        let ghost p = choose|p: IpPrefix|
            #![trigger has_prefix(answers@, ipv4@, ipv6@, p)]
            has_prefix(answers@, ipv4@, ipv6@, p) && (p.addr is V4) == v4@ && prefix_id(
                p.addr,
                p.mask,
            ) == id;
        let q = prefix_of_id(id);
        assert(q == p);
        out.push(q);
        i = i + 1;
    }
    assert forall|p: IpPrefix| #[trigger] out@.contains(p) <==> (p.addr is V4) == v4@ && has_prefix(
        answers@,
        ipv4@,
        ipv6@,
        p,
    ) by {
        if out@.contains(p) {
            let j = choose|j: int| 0 <= j < out@.len() && out@[j] == p;
            assert(has_prefix(answers@, ipv4@, ipv6@, out@[j]));
        }
        if (p.addr is V4) == v4@ && has_prefix(answers@, ipv4@, ipv6@, p) {
            let id = prefix_id(p.addr, p.mask);
            assert(ids@.to_set().contains(id));
            let j = choose|j: int| 0 <= j < ids@.len() && ids@[j] == id;
            assert(prefix_id(out@[j].addr, out@[j].mask) == id);
            assert(out@[j] == p);
        }
    }
    assert(out@.no_duplicates()) by {
        assert forall|a: int, b: int| 0 <= a < b < out@.len() implies out@[a] != out@[b] by {
            assert(ids@[a] != ids@[b]);
            assert(prefix_id(out@[a].addr, out@[a].mask) == ids@[a]);
            assert(prefix_id(out@[b].addr, out@[b].mask) == ids@[b]);
        }
    }
    out
}

impl NftSetExecutor {
    /// The prefixes to write for a response, where there are any.
    pub fn plan(&self, response: Option<&Message>) -> (r: Option<NftSetBatch>)
        ensures
            ({
                let v4 = set_view(self.ipv4);
                let v6 = set_view(self.ipv6);
                match r {
                    Some(b) => {
                        &&& self.enabled
                        &&& response is Some
                        &&& holds_prefixes(b, response->0@.answers, v4, v6)
                        &&& b.ipv4_prefixes@.len() + b.ipv6_prefixes@.len() > 0
                    },
                    None => !self.enabled || response is None || forall|p: IpPrefix|
                        !#[trigger] has_prefix(response->0@.answers, v4, v6, p),
                }
            }),
    {
        if !self.enabled {
            return None;
        }
        let message = match response {
            Some(m) => m,
            None => return None,
        };
        let ghost answers = message@.answers;
        let ghost v4 = set_view(self.ipv4);
        let ghost v6 = set_view(self.ipv6);
        let mut ipv4_ids = PrefixSet::new();
        let mut ipv6_ids = PrefixSet::new();
        let mut i: usize = 0;
        assert(answers.take(0).len() == 0);
        while i < message.answers.len()
            invariant
                i <= message.answers@.len(),
                answers == record_views(message.answers@),
                v4 == set_view(self.ipv4),
                v6 == set_view(self.ipv6),
                ids_of(ipv4_ids@, answers.take(i as int), v4, v6, true),
                ids_of(ipv6_ids@, answers.take(i as int), v4, v6, false),
            decreases message.answers@.len() - i,
        {
            proof {
                lemma_ids_grow(ipv4_ids@, answers, v4, v6, true, i as int);
                lemma_ids_grow(ipv6_ids@, answers, v4, v6, false, i as int);
            }
            assert(answers[i as int] == message.answers@[i as int]@);
            match message.answers[i].ip_addr() {
                Some(IpAddr::V4(a)) => {
                    if let Some(set) = &self.ipv4 {
                        let _ = ipv4_ids.insert((4, a as u128, set.mask));
                    }
                },
                Some(IpAddr::V6(a)) => {
                    if let Some(set) = &self.ipv6 {
                        let _ = ipv6_ids.insert((6, a, set.mask));
                    }
                },
                None => {},
            }
            i = i + 1;
        }
        assert(answers.take(i as int) =~= answers);
        let list4 = ipv4_ids.into_vec();
        let list6 = ipv6_ids.into_vec();
        let ipv4_prefixes = prefixes_of_ids(
            &list4,
            Ghost(answers),
            Ghost(v4),
            Ghost(v6),
            Ghost(true),
        );
        let ipv6_prefixes = prefixes_of_ids(
            &list6,
            Ghost(answers),
            Ghost(v4),
            Ghost(v6),
            Ghost(false),
        );
        let batch = NftSetBatch { ipv4_prefixes, ipv6_prefixes };
        assert(holds_prefixes(batch, answers, v4, v6));
        if batch.ipv4_prefixes.len() == 0 && batch.ipv6_prefixes.len() == 0 {
            assert forall|p: IpPrefix| !#[trigger] has_prefix(answers, v4, v6, p) by {
                assert(!batch.ipv4_prefixes@.contains(p));
                assert(!batch.ipv6_prefixes@.contains(p));
            }
            return None;
        }
        Some(batch)
    }

    /// Notes what became of a batch with so many prefixes. Without a writer the executor
    /// is of no use any more.
    pub fn note_sent(&mut self, entry_count: u64, outcome: SendOutcome)
        ensures
            *final(self) == (match outcome {
                SendOutcome::Sent => NftSetExecutor {
                    metrics: NftSetMetrics {
                        entries_total: old(self).metrics.entries_total.wrapping_add(entry_count),
                        ..old(self).metrics
                    },
                    ..*old(self)
                },
                SendOutcome::Full => NftSetExecutor {
                    metrics: NftSetMetrics {
                        dropped_total: old(self).metrics.dropped_total.wrapping_add(1),
                        ..old(self).metrics
                    },
                    ..*old(self)
                },
                SendOutcome::Disconnected => NftSetExecutor {
                    metrics: NftSetMetrics {
                        dropped_total: old(self).metrics.dropped_total.wrapping_add(1),
                        ..old(self).metrics
                    },
                    enabled: false,
                    ..*old(self)
                },
            }),
    {
        match outcome {
            SendOutcome::Sent => {
                self.metrics.entries_total = self.metrics.entries_total.wrapping_add(entry_count);
            },
            SendOutcome::Full => {
                self.metrics.dropped_total = self.metrics.dropped_total.wrapping_add(1);
            },
            SendOutcome::Disconnected => {
                self.metrics.dropped_total = self.metrics.dropped_total.wrapping_add(1);
                self.enabled = false;
            },
        }
    }
}

/// Whether an executor is as it is made for these sets.
pub open spec fn is_new(
    e: NftSetExecutor,
    tag: Seq<char>,
    sets: (Option<SetView>, Option<SetView>),
) -> bool {
    &&& e.tag@ == tag
    &&& set_view(e.ipv4) == sets.0
    &&& set_view(e.ipv6) == sets.1
    &&& e.enabled
    &&& e.metrics.tag@ == tag
    &&& e.metrics.entries_total == 0
    &&& e.metrics.dropped_total == 0
    &&& e.metrics.write_total == 0
    &&& e.metrics.write_error_total == 0
}

/// Makes executors.
#[derive(Debug, Clone, Copy, PartialEq, Eq)]
pub struct NftSetFactory;

impl NftSetFactory {
    fn build(&self, tag: &str, ipv4: Option<ResolvedSet>, ipv6: Option<ResolvedSet>) -> (r:
        NftSetExecutor)
        ensures
            is_new(r, tag@, (set_view(ipv4), set_view(ipv6))),
    {
        NftSetExecutor {
            tag: tag.to_owned(),
            ipv4,
            ipv6,
            enabled: true,
            metrics: NftSetMetrics::new(tag.to_owned()),
        }
    }

    /// The executor of a configuration.
    pub fn create(&self, tag: &str, cfg: &NftSetConfig) -> (r: Result<NftSetExecutor, DnsError>)
        ensures
            match r {
                Ok(e) => sets_of(*cfg) is Ok && is_new(e, tag@, sets_of(*cfg)->Ok_0),
                Err(e) => sets_of(*cfg) is Err && e@ == DnsErrorView::Plugin(sets_of(*cfg)->Err_0),
            },
    {
        match resolve_sets(cfg) {
            Ok((ipv4, ipv6)) => Ok(self.build(tag, ipv4, ipv6)),
            Err(e) => Err(e),
        }
    }

    /// The executor of a quick setup.
    pub fn quick_setup(&self, tag: &str, param: Option<String>) -> (r: Result<
        NftSetExecutor,
        DnsError,
    >)
        ensures
            ({
                let q = quick_sets(
                    match param {
                        Some(p) => words(p@),
                        None => Seq::empty(),
                    },
                );
                match r {
                    Ok(e) => q is Ok && is_new(e, tag@, q->Ok_0),
                    Err(e) => q is Err && e@ == DnsErrorView::Plugin(q->Err_0),
                }
            }),
    {
        let raw = match param {
            Some(p) => p,
            None => {
                assert(words(Seq::empty()) =~= Seq::empty());
                String::new()
            },
        };
        assert(param is None ==> raw@ =~= Seq::empty());
        match parse_quick_sets(raw.as_str()) {
            Ok((ipv4, ipv6)) => Ok(self.build(tag, ipv4, ipv6)),
            Err(e) => Err(e),
        }
    }
}

} // verus!
