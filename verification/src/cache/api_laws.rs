//! What holds of the requests to the API and of the counters that it shows.

use vstd::prelude::*;

use crate::cache::api::{
    below, named_entry, replies_page, tells_dump, to_delete, ApiFailure, DumpReply, FailureView,
};
use crate::cache::entry_id::{decoded, IdView};
use crate::cache::listing::CacheEntriesPage;
use crate::cache::metrics::{metric_samples, with_skip, CacheMetrics, MetricKind, MetricSampleView};
use crate::cache::persistence::dump::CacheDumpOutcome;
use crate::cache::persistence::error::DumpError;
use crate::cache::policy::CacheSkipReason;
use crate::cache::query::QueryView;
use crate::cache::store::StoreView;

verus! {

/// A path names what stands behind its prefix: an entry where that is one part, and nothing
/// that can be named where it is none or several. A path with another prefix is not found.
pub proof fn law_path_names_entry(prefix: Seq<char>, raw: Seq<char>, path: Seq<char>)
    ensures
        raw.len() > 0 && !raw.contains('/') ==> named_entry(prefix + raw, prefix) == Ok::<
            Seq<char>,
            FailureView,
        >(raw),
        raw.len() == 0 || raw.contains('/') ==> (named_entry(prefix + raw, prefix) matches Err(
            FailureView::Json { status, .. },
        ) && status == 400),
        !prefix.is_prefix_of(path) ==> (named_entry(path, prefix) matches Err(
            FailureView::Text { status, .. },
        ) && status == 404),
{
    assert((prefix + raw).take(prefix.len() as int) =~= prefix);
    assert((prefix + raw).skip(prefix.len() as int) =~= raw);
    if !prefix.is_prefix_of(path) {
        if prefix.len() <= path.len() && path.take(prefix.len() as int) == prefix {
            assert(path.take(prefix.len() as int) =~= path.subrange(0, prefix.len() as int));
        }
        assert(below(path, prefix) is None);
    }
}

/// A request to delete an entry asks for the key that its text names; a text that names none is
/// told so.
pub proof fn law_entry_to_delete(prefix: Seq<char>, raw: Seq<char>, id: Option<IdView>)
    requires
        raw.len() > 0,
        !raw.contains('/'),
    ensures
        match (to_delete(prefix + raw, prefix, id), decoded(raw, id)) {
            (Ok(k), Ok(d)) => k == d,
            (Err(FailureView::Json { status, message, .. }), Err(e)) => status == 400 && message
                == e,
            _ => false,
        },
{
    law_path_names_entry(prefix, raw, prefix);
}

/// Whether samples show a value under a name, with a label of its own where it has one.
pub open spec fn shows(
    samples: Seq<MetricSampleView>,
    i: int,
    kind: MetricKind,
    name: Seq<char>,
    label: Option<(Seq<char>, Seq<char>)>,
    tag: Seq<char>,
    value: u64,
) -> bool {
    &&& 0 <= i < samples.len()
    &&& samples[i].kind == kind
    &&& samples[i].name == name
    &&& samples[i].value == value
    &&& samples[i].labels.len() == (if label is Some {
        2int
    } else {
        1
    })
    &&& samples[i].labels[0] == ("plugin_tag"@, tag)
    &&& label is Some ==> samples[i].labels[1] == label->0
}

/// Each counter is shown under its name, with the tag of the cache.
pub proof fn law_counters_are_shown(m: CacheMetrics, ipv4: u64, ipv6: u64, entries: u64)
    ensures
        ({
            let s = metric_samples(m, ipv4, ipv6, entries);
            let t = m.tag@;
            let c = MetricKind::Counter;
            let g = MetricKind::Gauge;
            &&& s.len() == 24
            &&& shows(s, 0, c, "cache_lookup_total"@, None, t, m.lookup_total)
            &&& shows(
                s,
                1,
                c,
                "cache_ecs_lookup_requests_total"@,
                None,
                t,
                m.ecs_lookup_requests_total,
            )
            &&& shows(
                s,
                2,
                c,
                "cache_ecs_lookup_candidates_total"@,
                None,
                t,
                m.ecs_lookup_candidates_total,
            )
            &&& shows(
                s,
                3,
                c,
                "cache_ecs_lookup_exact_fallback_total"@,
                None,
                t,
                m.ecs_lookup_exact_fallback_total,
            )
            &&& shows(
                s,
                4,
                g,
                "cache_ecs_prefix_hint_count"@,
                Some(("family"@, "ipv4"@)),
                t,
                ipv4,
            )
            &&& shows(
                s,
                5,
                g,
                "cache_ecs_prefix_hint_count"@,
                Some(("family"@, "ipv6"@)),
                t,
                ipv6,
            )
            &&& shows(s, 6, c, "cache_hit_total"@, Some(("kind"@, "fresh"@)), t, m.fresh_hit_total)
            &&& shows(s, 7, c, "cache_hit_total"@, Some(("kind"@, "stale"@)), t, m.stale_hit_total)
            &&& shows(s, 8, c, "cache_miss_total"@, None, t, m.miss_total)
            &&& shows(s, 9, c, "cache_miss_coalesced_total"@, None, t, m.miss_coalesced_total)
            &&& shows(
                s,
                10,
                c,
                "cache_miss_coalesce_timeout_total"@,
                None,
                t,
                m.miss_coalesce_timeout_total,
            )
            &&& shows(
                s,
                11,
                c,
                "cache_miss_coalesce_reentrant_total"@,
                None,
                t,
                m.miss_coalesce_reentrant_total,
            )
            &&& shows(s, 12, c, "cache_expired_total"@, None, t, m.expired_total)
            &&& shows(s, 13, c, "cache_insert_total"@, None, t, m.insert_total)
            &&& shows(
                s,
                14,
                c,
                "cache_skip_total"@,
                Some(("reason"@, "truncated"@)),
                t,
                m.skip_truncated_total,
            )
            &&& shows(
                s,
                15,
                c,
                "cache_skip_total"@,
                Some(("reason"@, "no_ttl"@)),
                t,
                m.skip_no_ttl_total,
            )
            &&& shows(
                s,
                16,
                c,
                "cache_skip_total"@,
                Some(("reason"@, "incomplete_answer"@)),
                t,
                m.skip_incomplete_answer_total,
            )
            &&& shows(
                s,
                17,
                c,
                "cache_skip_total"@,
                Some(("reason"@, "low_positive_ttl"@)),
                t,
                m.skip_low_positive_ttl_total,
            )
            &&& shows(
                s,
                18,
                c,
                "cache_lazy_refresh_total"@,
                Some(("result"@, "started"@)),
                t,
                m.lazy_refresh_started_total,
            )
            &&& shows(
                s,
                19,
                c,
                "cache_lazy_refresh_total"@,
                Some(("result"@, "success"@)),
                t,
                m.lazy_refresh_success_total,
            )
            &&& shows(
                s,
                20,
                c,
                "cache_lazy_refresh_total"@,
                Some(("result"@, "failed"@)),
                t,
                m.lazy_refresh_failed_total,
            )
            &&& shows(
                s,
                21,
                c,
                "cache_lazy_refresh_total"@,
                Some(("result"@, "skipped_busy"@)),
                t,
                m.lazy_refresh_skipped_busy_total,
            )
            &&& shows(
                s,
                22,
                c,
                "cache_lazy_refresh_total"@,
                Some(("result"@, "skipped_cooldown"@)),
                t,
                m.lazy_refresh_skipped_cooldown_total,
            )
            &&& shows(s, 23, g, "cache_entry_count"@, None, t, entries)
        }),
{
}

/// A response that is not cached is counted under its reason and under no other.
pub proof fn law_skips_are_counted(m: CacheMetrics, r: CacheSkipReason)
    requires
        m.skip_no_ttl_total < u64::MAX,
        m.skip_incomplete_answer_total < u64::MAX,
        m.skip_low_positive_ttl_total < u64::MAX,
    ensures
        ({
            let n = with_skip(m, r);
            &&& n.skip_no_ttl_total == m.skip_no_ttl_total + (if r == CacheSkipReason::NoTtl {
                1int
            } else {
                0
            })
            &&& n.skip_incomplete_answer_total == m.skip_incomplete_answer_total + (if r
                == CacheSkipReason::IncompleteAnswer {
                1int
            } else {
                0
            })
            &&& n.skip_low_positive_ttl_total == m.skip_low_positive_ttl_total + (if r
                == CacheSkipReason::LowPositiveTtl {
                1int
            } else {
                0
            })
            &&& n.skip_truncated_total == m.skip_truncated_total
            &&& n.tag == m.tag
        }),
{
}

/// A dump that has been made is handed out whole, under the tag of the cache; one that is too
/// large is refused as such, and one that failed as a failure.
pub proof fn law_dump_is_told(
    outcome: Result<CacheDumpOutcome, DumpError>,
    tag: Seq<char>,
    r: Result<DumpReply, ApiFailure>,
)
    requires
        tells_dump(outcome, tag, r),
    ensures
        match outcome {
            Ok(CacheDumpOutcome::Complete(bytes)) => r is Ok && r->Ok_0.body@ == bytes@
                && r->Ok_0.disposition@ == "attachment; filename=\""@ + tag + ".dump\""@,
            Ok(CacheDumpOutcome::TooLarge { .. }) => r is Err && (r->Err_0@ matches
                FailureView::Json { status, .. } && status == 413),
            Err(_) => r is Err && (r->Err_0@ matches FailureView::Text { status, .. } && status
                == 500),
        },
{
}

/// A page of entries that cannot be given is a failure of the server.
pub proof fn law_failed_page(
    s: StoreView,
    q: QueryView,
    now: u64,
    now_unix_ms: u64,
    r: Result<CacheEntriesPage, ApiFailure>,
)
    requires
        replies_page(s, q, now, now_unix_ms, r),
        r is Err,
    ensures
        r->Err_0@ == (FailureView::Json {
            status: 500,
            code: "cache_cursor_encode_failed"@,
            message: "failed to encode cache entries cursor"@,
        }),
{
}

} // verus!
