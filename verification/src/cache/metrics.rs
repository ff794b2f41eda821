//! The counters of the cache.

use vstd::prelude::*;

use crate::cache::policy::CacheSkipReason;

verus! {

/// The counters of one cache. They start again from zero after their largest value.
#[derive(Debug, PartialEq, Eq)]
pub struct CacheMetrics {
    pub tag: String,
    pub lookup_total: u64,
    pub ecs_lookup_requests_total: u64,
    pub ecs_lookup_candidates_total: u64,
    pub ecs_lookup_exact_fallback_total: u64,
    pub fresh_hit_total: u64,
    pub stale_hit_total: u64,
    pub miss_total: u64,
    pub miss_coalesced_total: u64,
    pub miss_coalesce_timeout_total: u64,
    pub miss_coalesce_reentrant_total: u64,
    pub expired_total: u64,
    pub insert_total: u64,
    pub skip_truncated_total: u64,
    pub skip_no_ttl_total: u64,
    pub skip_incomplete_answer_total: u64,
    pub skip_low_positive_ttl_total: u64,
    pub lazy_refresh_started_total: u64,
    pub lazy_refresh_success_total: u64,
    pub lazy_refresh_failed_total: u64,
    pub lazy_refresh_skipped_busy_total: u64,
    pub lazy_refresh_skipped_cooldown_total: u64,
}

/// Counters with one skipped response added.
pub open spec fn with_skip(m: CacheMetrics, reason: CacheSkipReason) -> CacheMetrics {
    match reason {
        CacheSkipReason::NoTtl => CacheMetrics {
            skip_no_ttl_total: m.skip_no_ttl_total.wrapping_add(1),
            ..m
        },
        CacheSkipReason::IncompleteAnswer => CacheMetrics {
            skip_incomplete_answer_total: m.skip_incomplete_answer_total.wrapping_add(1),
            ..m
        },
        CacheSkipReason::LowPositiveTtl => CacheMetrics {
            skip_low_positive_ttl_total: m.skip_low_positive_ttl_total.wrapping_add(1),
            ..m
        },
    }
}

/// Counters at zero.
pub open spec fn zero_metrics(tag: String) -> CacheMetrics {
    CacheMetrics {
        tag,
        lookup_total: 0,
        ecs_lookup_requests_total: 0,
        ecs_lookup_candidates_total: 0,
        ecs_lookup_exact_fallback_total: 0,
        fresh_hit_total: 0,
        stale_hit_total: 0,
        miss_total: 0,
        miss_coalesced_total: 0,
        miss_coalesce_timeout_total: 0,
        miss_coalesce_reentrant_total: 0,
        expired_total: 0,
        insert_total: 0,
        skip_truncated_total: 0,
        skip_no_ttl_total: 0,
        skip_incomplete_answer_total: 0,
        skip_low_positive_ttl_total: 0,
        lazy_refresh_started_total: 0,
        lazy_refresh_success_total: 0,
        lazy_refresh_failed_total: 0,
        lazy_refresh_skipped_busy_total: 0,
        lazy_refresh_skipped_cooldown_total: 0,
    }
}

impl CacheMetrics {
    /// Counters that stand at zero.
    pub fn new(tag: String) -> (r: CacheMetrics)
        ensures
            r == zero_metrics(tag),
    {
        CacheMetrics {
            tag,
            lookup_total: 0,
            ecs_lookup_requests_total: 0,
            ecs_lookup_candidates_total: 0,
            ecs_lookup_exact_fallback_total: 0,
            fresh_hit_total: 0,
            stale_hit_total: 0,
            miss_total: 0,
            miss_coalesced_total: 0,
            miss_coalesce_timeout_total: 0,
            miss_coalesce_reentrant_total: 0,
            expired_total: 0,
            insert_total: 0,
            skip_truncated_total: 0,
            skip_no_ttl_total: 0,
            skip_incomplete_answer_total: 0,
            skip_low_positive_ttl_total: 0,
            lazy_refresh_started_total: 0,
            lazy_refresh_success_total: 0,
            lazy_refresh_failed_total: 0,
            lazy_refresh_skipped_busy_total: 0,
            lazy_refresh_skipped_cooldown_total: 0,
        }
    }

    /// Counts a response that was not cached.
    pub fn record_skip(&mut self, reason: CacheSkipReason)
        ensures
            *final(self) == with_skip(*old(self), reason),
    {
        match reason {
            CacheSkipReason::NoTtl => {
                self.skip_no_ttl_total = self.skip_no_ttl_total.wrapping_add(1);
            },
            CacheSkipReason::IncompleteAnswer => {
                self.skip_incomplete_answer_total = self.skip_incomplete_answer_total.wrapping_add(
                    1,
                );
            },
            CacheSkipReason::LowPositiveTtl => {
                self.skip_low_positive_ttl_total = self.skip_low_positive_ttl_total.wrapping_add(1);
            },
        }
    }
}

/// Whether a sample only grows or can go both ways.
#[derive(Debug, Clone, Copy, PartialEq, Eq, Structural)]
pub enum MetricKind {
    Counter,
    Gauge,
}

/// One value of a metric.
#[derive(Debug, PartialEq, Eq)]
pub struct MetricSample {
    pub kind: MetricKind,
    pub name: String,
    pub help: String,
    /// Names and values of the labels.
    pub labels: Vec<(String, String)>,
    pub value: u64,
}

/// The mathematical content of a [`MetricSample`].
pub struct MetricSampleView {
    pub kind: MetricKind,
    pub name: Seq<char>,
    pub help: Seq<char>,
    pub labels: Seq<(Seq<char>, Seq<char>)>,
    pub value: u64,
}

/// The views of a list of labels.
pub open spec fn label_views(v: Seq<(String, String)>) -> Seq<(Seq<char>, Seq<char>)> {
    Seq::new(v.len(), |i: int| (v[i].0@, v[i].1@))
}

impl View for MetricSample {
    type V = MetricSampleView;

    open spec fn view(&self) -> MetricSampleView {
        MetricSampleView {
            kind: self.kind,
            name: self.name@,
            help: self.help@,
            labels: label_views(self.labels@),
            value: self.value,
        }
    }
}

/// The views of a list of samples.
pub open spec fn sample_views(v: Seq<MetricSample>) -> Seq<MetricSampleView> {
    Seq::new(v.len(), |i: int| v[i]@)
}

/// A sample labelled with the tag of the cache.
pub open spec fn tagged(
    kind: MetricKind,
    name: Seq<char>,
    help: Seq<char>,
    tag: Seq<char>,
    value: u64,
) -> MetricSampleView {
    MetricSampleView { kind, name, help, labels: seq![("plugin_tag"@, tag)], value }
}

/// A sample labelled with the tag of the cache and with another label.
pub open spec fn labelled(
    kind: MetricKind,
    name: Seq<char>,
    help: Seq<char>,
    tag: Seq<char>,
    label: (Seq<char>, Seq<char>),
    value: u64,
) -> MetricSampleView {
    MetricSampleView { kind, name, help, labels: seq![("plugin_tag"@, tag), label], value }
}

/// The samples on lookups and on what they found.
pub open spec fn lookup_samples(m: CacheMetrics, ipv4_hints: u64, ipv6_hints: u64) -> Seq<
    MetricSampleView,
> {
    let t = m.tag@;
    let hints = "Number of reusable ECS scope prefixes observed by the monotonic hint bitmap."@;
    let hits = "Total cache hits by freshness kind."@;
    Seq::empty().push(
        tagged(
            MetricKind::Counter,
            "cache_lookup_total"@,
            "Total cache lookups with a cacheable request key."@,
            t,
            m.lookup_total,
        ),
    ).push(
        tagged(
            MetricKind::Counter,
            "cache_ecs_lookup_requests_total"@,
            "Total cache lookups carrying an ECS request key."@,
            t,
            m.ecs_lookup_requests_total,
        ),
    ).push(
        tagged(
            MetricKind::Counter,
            "cache_ecs_lookup_candidates_total"@,
            "Total ECS cache key candidates probed after prefix-hint filtering."@,
            t,
            m.ecs_lookup_candidates_total,
        ),
    ).push(
        tagged(
            MetricKind::Counter,
            "cache_ecs_lookup_exact_fallback_total"@,
            "Total ECS lookups that reached the exact-SOURCE fallback key."@,
            t,
            m.ecs_lookup_exact_fallback_total,
        ),
    ).push(
        labelled(
            MetricKind::Gauge,
            "cache_ecs_prefix_hint_count"@,
            hints,
            t,
            ("family"@, "ipv4"@),
            ipv4_hints,
        ),
    ).push(
        labelled(
            MetricKind::Gauge,
            "cache_ecs_prefix_hint_count"@,
            hints,
            t,
            ("family"@, "ipv6"@),
            ipv6_hints,
        ),
    ).push(
        labelled(
            MetricKind::Counter,
            "cache_hit_total"@,
            hits,
            t,
            ("kind"@, "fresh"@),
            m.fresh_hit_total,
        ),
    ).push(
        labelled(
            MetricKind::Counter,
            "cache_hit_total"@,
            hits,
            t,
            ("kind"@, "stale"@),
            m.stale_hit_total,
        ),
    )
}

/// The samples on misses, expiries and inserts.
pub open spec fn miss_samples(m: CacheMetrics) -> Seq<MetricSampleView> {
    let t = m.tag@;
    Seq::empty().push(
        tagged(
            MetricKind::Counter,
            "cache_miss_total"@,
            "Total cache misses."@,
            t,
            m.miss_total,
        ),
    ).push(
        tagged(
            MetricKind::Counter,
            "cache_miss_coalesced_total"@,
            "Total cache misses served by a concurrent in-flight fetch."@,
            t,
            m.miss_coalesced_total,
        ),
    ).push(
        tagged(
            MetricKind::Counter,
            "cache_miss_coalesce_timeout_total"@,
            "Total cache miss coalescing waits that timed out."@,
            t,
            m.miss_coalesce_timeout_total,
        ),
    ).push(
        tagged(
            MetricKind::Counter,
            "cache_miss_coalesce_reentrant_total"@,
            "Total recursive cache misses that bypassed waiting on an ancestor leader."@,
            t,
            m.miss_coalesce_reentrant_total,
        ),
    ).push(
        tagged(
            MetricKind::Counter,
            "cache_expired_total"@,
            "Total cache lookups that found and removed expired entries."@,
            t,
            m.expired_total,
        ),
    ).push(
        tagged(
            MetricKind::Counter,
            "cache_insert_total"@,
            "Total cache entry inserts or updates."@,
            t,
            m.insert_total,
        ),
    )
}

/// The samples on responses that were not cached.
pub open spec fn skip_samples(m: CacheMetrics) -> Seq<MetricSampleView> {
    let t = m.tag@;
    let name = "cache_skip_total"@;
    let help = "Total responses skipped by cache write policy."@;
    Seq::empty().push(
        labelled(
            MetricKind::Counter,
            name,
            help,
            t,
            ("reason"@, "truncated"@),
            m.skip_truncated_total,
        ),
    ).push(
        labelled(
            MetricKind::Counter,
            name,
            help,
            t,
            ("reason"@, "no_ttl"@),
            m.skip_no_ttl_total,
        ),
    ).push(
        labelled(
            MetricKind::Counter,
            name,
            help,
            t,
            ("reason"@, "incomplete_answer"@),
            m.skip_incomplete_answer_total,
        ),
    ).push(
        labelled(
            MetricKind::Counter,
            name,
            help,
            t,
            ("reason"@, "low_positive_ttl"@),
            m.skip_low_positive_ttl_total,
        ),
    )
}

/// The samples on refreshes.
pub open spec fn refresh_samples(m: CacheMetrics) -> Seq<MetricSampleView> {
    let t = m.tag@;
    let name = "cache_lazy_refresh_total"@;
    let help = "Total lazy refresh attempts by result."@;
    Seq::empty().push(
        labelled(
            MetricKind::Counter,
            name,
            help,
            t,
            ("result"@, "started"@),
            m.lazy_refresh_started_total,
        ),
    ).push(
        labelled(
            MetricKind::Counter,
            name,
            help,
            t,
            ("result"@, "success"@),
            m.lazy_refresh_success_total,
        ),
    ).push(
        labelled(
            MetricKind::Counter,
            name,
            help,
            t,
            ("result"@, "failed"@),
            m.lazy_refresh_failed_total,
        ),
    ).push(
        labelled(
            MetricKind::Counter,
            name,
            help,
            t,
            ("result"@, "skipped_busy"@),
            m.lazy_refresh_skipped_busy_total,
        ),
    ).push(
        labelled(
            MetricKind::Counter,
            name,
            help,
            t,
            ("result"@, "skipped_cooldown"@),
            m.lazy_refresh_skipped_cooldown_total,
        ),
    )
}

/// All samples of a cache.
pub open spec fn metric_samples(
    m: CacheMetrics,
    ipv4_hints: u64,
    ipv6_hints: u64,
    entry_count: u64,
) -> Seq<MetricSampleView> {
    (lookup_samples(m, ipv4_hints, ipv6_hints) + miss_samples(m) + skip_samples(m)
        + refresh_samples(m)).push(
        tagged(
            MetricKind::Gauge,
            "cache_entry_count"@,
            "Current number of cache entries."@,
            m.tag@,
            entry_count,
        ),
    )
}

pub(crate) fn emit(
    out: &mut Vec<MetricSample>,
    kind: MetricKind,
    name: &str,
    help: &str,
    tag: &String,
    value: u64,
)
    ensures
        sample_views(final(out)@) == sample_views(old(out)@).push(
            tagged(kind, name@, help@, tag@, value),
        ),
{
    let mut labels: Vec<(String, String)> = Vec::new();
    labels.push(("plugin_tag".to_owned(), tag.clone()));
    assert(label_views(labels@) =~= seq![("plugin_tag"@, tag@)]);
    out.push(MetricSample { kind, name: name.to_owned(), help: help.to_owned(), labels, value });
    assert(sample_views(out@) =~= sample_views(old(out)@).push(
        tagged(kind, name@, help@, tag@, value),
    ));
}

fn emit_labelled(
    out: &mut Vec<MetricSample>,
    kind: MetricKind,
    name: &str,
    help: &str,
    tag: &String,
    label: (&str, &str),
    value: u64,
)
    ensures
        sample_views(final(out)@) == sample_views(old(out)@).push(
            labelled(kind, name@, help@, tag@, (label.0@, label.1@), value),
        ),
{
    let mut labels: Vec<(String, String)> = Vec::new();
    labels.push(("plugin_tag".to_owned(), tag.clone()));
    labels.push((label.0.to_owned(), label.1.to_owned()));
    assert(label_views(labels@) =~= seq![("plugin_tag"@, tag@), (label.0@, label.1@)]);
    out.push(MetricSample { kind, name: name.to_owned(), help: help.to_owned(), labels, value });
    assert(sample_views(out@) =~= sample_views(old(out)@).push(
        labelled(kind, name@, help@, tag@, (label.0@, label.1@), value),
    ));
}

fn collect_lookups(m: &CacheMetrics, ipv4_hints: u64, ipv6_hints: u64) -> (r: Vec<MetricSample>)
    ensures
        sample_views(r@) == lookup_samples(*m, ipv4_hints, ipv6_hints),
{
    let mut out: Vec<MetricSample> = Vec::new();
    assert(sample_views(out@) =~= Seq::empty());
    let c = MetricKind::Counter;
    let g = MetricKind::Gauge;
    let hints = "Number of reusable ECS scope prefixes observed by the monotonic hint bitmap.";
    let hits = "Total cache hits by freshness kind.";
    emit(
        &mut out,
        c,
        "cache_lookup_total",
        "Total cache lookups with a cacheable request key.",
        &m.tag,
        m.lookup_total,
    );
    emit(
        &mut out,
        c,
        "cache_ecs_lookup_requests_total",
        "Total cache lookups carrying an ECS request key.",
        &m.tag,
        m.ecs_lookup_requests_total,
    );
    emit(
        &mut out,
        c,
        "cache_ecs_lookup_candidates_total",
        "Total ECS cache key candidates probed after prefix-hint filtering.",
        &m.tag,
        m.ecs_lookup_candidates_total,
    );
    emit(
        &mut out,
        c,
        "cache_ecs_lookup_exact_fallback_total",
        "Total ECS lookups that reached the exact-SOURCE fallback key.",
        &m.tag,
        m.ecs_lookup_exact_fallback_total,
    );
    emit_labelled(
        &mut out,
        g,
        "cache_ecs_prefix_hint_count",
        hints,
        &m.tag,
        ("family", "ipv4"),
        ipv4_hints,
    );
    emit_labelled(
        &mut out,
        g,
        "cache_ecs_prefix_hint_count",
        hints,
        &m.tag,
        ("family", "ipv6"),
        ipv6_hints,
    );
    emit_labelled(
        &mut out,
        c,
        "cache_hit_total",
        hits,
        &m.tag,
        ("kind", "fresh"),
        m.fresh_hit_total,
    );
    emit_labelled(
        &mut out,
        c,
        "cache_hit_total",
        hits,
        &m.tag,
        ("kind", "stale"),
        m.stale_hit_total,
    );
    out
}

fn collect_misses(m: &CacheMetrics) -> (r: Vec<MetricSample>)
    ensures
        sample_views(r@) == miss_samples(*m),
{
    let mut out: Vec<MetricSample> = Vec::new();
    assert(sample_views(out@) =~= Seq::empty());
    let c = MetricKind::Counter;
    emit(&mut out, c, "cache_miss_total", "Total cache misses.", &m.tag, m.miss_total);
    emit(
        &mut out,
        c,
        "cache_miss_coalesced_total",
        "Total cache misses served by a concurrent in-flight fetch.",
        &m.tag,
        m.miss_coalesced_total,
    );
    emit(
        &mut out,
        c,
        "cache_miss_coalesce_timeout_total",
        "Total cache miss coalescing waits that timed out.",
        &m.tag,
        m.miss_coalesce_timeout_total,
    );
    emit(
        &mut out,
        c,
        "cache_miss_coalesce_reentrant_total",
        "Total recursive cache misses that bypassed waiting on an ancestor leader.",
        &m.tag,
        m.miss_coalesce_reentrant_total,
    );
    emit(
        &mut out,
        c,
        "cache_expired_total",
        "Total cache lookups that found and removed expired entries.",
        &m.tag,
        m.expired_total,
    );
    emit(
        &mut out,
        c,
        "cache_insert_total",
        "Total cache entry inserts or updates.",
        &m.tag,
        m.insert_total,
    );
    out
}

fn collect_skips(m: &CacheMetrics) -> (r: Vec<MetricSample>)
    ensures
        sample_views(r@) == skip_samples(*m),
{
    let mut out: Vec<MetricSample> = Vec::new();
    assert(sample_views(out@) =~= Seq::empty());
    let c = MetricKind::Counter;
    let name = "cache_skip_total";
    let help = "Total responses skipped by cache write policy.";
    emit_labelled(
        &mut out,
        c,
        name,
        help,
        &m.tag,
        ("reason", "truncated"),
        m.skip_truncated_total,
    );
    emit_labelled(&mut out, c, name, help, &m.tag, ("reason", "no_ttl"), m.skip_no_ttl_total);
    emit_labelled(
        &mut out,
        c,
        name,
        help,
        &m.tag,
        ("reason", "incomplete_answer"),
        m.skip_incomplete_answer_total,
    );
    emit_labelled(
        &mut out,
        c,
        name,
        help,
        &m.tag,
        ("reason", "low_positive_ttl"),
        m.skip_low_positive_ttl_total,
    );
    out
}

fn collect_refreshes(m: &CacheMetrics) -> (r: Vec<MetricSample>)
    ensures
        sample_views(r@) == refresh_samples(*m),
{
    let mut out: Vec<MetricSample> = Vec::new();
    assert(sample_views(out@) =~= Seq::empty());
    let c = MetricKind::Counter;
    let name = "cache_lazy_refresh_total";
    let help = "Total lazy refresh attempts by result.";
    emit_labelled(
        &mut out,
        c,
        name,
        help,
        &m.tag,
        ("result", "started"),
        m.lazy_refresh_started_total,
    );
    emit_labelled(
        &mut out,
        c,
        name,
        help,
        &m.tag,
        ("result", "success"),
        m.lazy_refresh_success_total,
    );
    emit_labelled(
        &mut out,
        c,
        name,
        help,
        &m.tag,
        ("result", "failed"),
        m.lazy_refresh_failed_total,
    );
    emit_labelled(
        &mut out,
        c,
        name,
        help,
        &m.tag,
        ("result", "skipped_busy"),
        m.lazy_refresh_skipped_busy_total,
    );
    emit_labelled(
        &mut out,
        c,
        name,
        help,
        &m.tag,
        ("result", "skipped_cooldown"),
        m.lazy_refresh_skipped_cooldown_total,
    );
    out
}

/// All samples of a cache, in a fixed order.
pub fn collect(m: &CacheMetrics, ipv4_hints: u64, ipv6_hints: u64, entry_count: u64) -> (r: Vec<
    MetricSample,
>)
    ensures
        sample_views(r@) == metric_samples(*m, ipv4_hints, ipv6_hints, entry_count),
{
    let mut out = collect_lookups(m, ipv4_hints, ipv6_hints);
    let ghost a = out@;
    let mut misses = collect_misses(m);
    let ghost b = misses@;
    let mut skips = collect_skips(m);
    let ghost c = skips@;
    let mut refreshes = collect_refreshes(m);
    let ghost d = refreshes@;
    out.append(&mut misses);
    out.append(&mut skips);
    out.append(&mut refreshes);
    assert(sample_views(out@) =~= sample_views(a) + sample_views(b) + sample_views(c)
        + sample_views(d));
    emit(
        &mut out,
        MetricKind::Gauge,
        "cache_entry_count",
        "Current number of cache entries.",
        &m.tag,
        entry_count,
    );
    out
}

} // verus!
