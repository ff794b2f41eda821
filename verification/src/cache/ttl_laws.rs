//! How long responses are cached: what holds of every TTL.

use vstd::prelude::*;

use crate::cache::item::{later, since};
use crate::cache::key::{domain_text, CacheKeyView};
use crate::cache::policy::{
    cache_disposition, clamped_ttl, expires_at, fresh_until, min_soa_ttl, min_u32, negative_ttl,
    of_class, policy_ttl, ttl_decision, CacheLoadPolicy, CacheSkipReason, CacheTtlDecision,
};
use crate::proto::laws::law_smallest_ttl;
use crate::proto::message::{
    min_ttl, DNSClass, MessageView, QuestionView, RDataView, RecordView,
};
use crate::proto::name::parse_name;
use crate::proto::response::{disposition, NegativeResponseKind, ResponseDisposition};

verus! {

/// Whether some record has a TTL below a number.
pub open spec fn some_ttl_below(records: Seq<RecordView>, n: int) -> bool {
    exists|i: int| 0 <= i < records.len() && (#[trigger] records[i]).ttl < n
}

/// Whether some record of a class has a TTL below a number.
pub open spec fn some_class_ttl_below(records: Seq<RecordView>, class: DNSClass, n: int) -> bool {
    exists|i: int|
        0 <= i < records.len() && (#[trigger] records[i]).class == class && records[i].ttl < n
}

/// Whether the start of a zone's authority in some record gives negative responses of a
/// class a time below a number.
pub open spec fn some_soa_below(records: Seq<RecordView>, class: DNSClass, n: int) -> bool {
    exists|i: int|
        0 <= i < records.len() && (#[trigger] records[i]).class == class && match records[i].data {
            RDataView::SOA(s) => records[i].ttl < n || s.minimum < n,
            _ => false,
        }
}

/// Whether there is a start of authority of a class.
pub open spec fn some_soa(records: Seq<RecordView>, class: DNSClass) -> bool {
    exists|i: int|
        0 <= i < records.len() && (#[trigger] records[i]).class == class && records[i].data is SOA
}

/// The limit that a configuration sets from above is below a number.
pub open spec fn limit_below(limit: Option<u32>, n: int) -> bool {
    match limit {
        Some(l) => l < n,
        None => false,
    }
}

/// A positive response is cached for as long as all its answers and the configured limit
/// allow and no longer: for `t` seconds only where no answer has a smaller TTL, and for less
/// than `t` only where an answer or the limit is smaller. It is not cached where that is no
/// time at all or less than the configured minimum.
pub proof fn law_positive_response_lasts(m: MessageView, class: DNSClass, p: CacheLoadPolicy)
    ensures
        match ttl_decision(m, class, ResponseDisposition::CompletePositive, p) {
            CacheTtlDecision::Cache(t) => {
                &&& t > 0
                &&& m.answers.len() > 0
                &&& !some_ttl_below(m.answers, t as int)
                &&& !limit_below(p.max_positive_ttl, t as int)
                &&& some_ttl_below(m.answers, t + 1) || limit_below(p.max_positive_ttl, t + 1)
                &&& p.min_positive_ttl matches Some(min) ==> t >= min
            },
            CacheTtlDecision::Skip(CacheSkipReason::NoTtl) => m.answers.len() == 0
                || some_ttl_below(m.answers, 1) || limit_below(p.max_positive_ttl, 1),
            CacheTtlDecision::Skip(CacheSkipReason::LowPositiveTtl) => p.min_positive_ttl is Some
                && (some_ttl_below(m.answers, p.min_positive_ttl->0 as int) || limit_below(
                p.max_positive_ttl,
                p.min_positive_ttl->0 as int,
            )),
            CacheTtlDecision::Skip(_) => false,
        },
{
    law_smallest_ttl(m.answers);
    if let Some(t) = min_ttl(m.answers) {
        let k = choose|k: int|
            0 <= k < m.answers.len() && (#[trigger] m.answers[k]).ttl == t;
        assert(m.answers[k].ttl == t);
    }
}

proof fn lemma_filtered_from(records: Seq<RecordView>, p: spec_fn(RecordView) -> bool, k: int) -> (i:
    int)
    requires
        0 <= k < records.filter(p).len(),
    ensures
        0 <= i < records.len(),
        records[i] == records.filter(p)[k],
    decreases records.len(),
{
    reveal(Seq::filter);
    let init = records.drop_last();
    if k < init.filter(p).len() {
        lemma_filtered_from(init, p, k)
    } else {
        records.len() - 1
    }
}

proof fn lemma_class_ttls(records: Seq<RecordView>, class: DNSClass)
    ensures
        min_ttl(of_class(records, class)) matches Some(t) ==> !some_class_ttl_below(
            records,
            class,
            t as int,
        ) && some_class_ttl_below(records, class, t + 1),
        min_ttl(of_class(records, class)) is None ==> forall|n: int|
            !some_class_ttl_below(records, class, n),
{
    let p = |r: RecordView| r.class == class;
    let f = of_class(records, class);
    law_smallest_ttl(f);
    match min_ttl(f) {
        Some(t) => {
            assert forall|i: int|
                0 <= i < records.len() && (#[trigger] records[i]).class
                    == class implies records[i].ttl >= t by {
                assert(p(records[i]));
                records.lemma_filter_contains(p, i);
                let k = f.index_of(records[i]);
                assert(f[k] == records[i]);
            }
            let k = choose|k: int| 0 <= k < f.len() && (#[trigger] f[k]).ttl == t;
            records.lemma_filter_pred(p, k);
            let i = lemma_filtered_from(records, p, k);
            assert(records[i].class == class && records[i].ttl == t);
        },
        None => {
            assert forall|n: int| !some_class_ttl_below(records, class, n) by {
                if some_class_ttl_below(records, class, n) {
                    let i = choose|i: int|
                        0 <= i < records.len() && (#[trigger] records[i]).class == class
                            && records[i].ttl < n;
                    assert(p(records[i]));
                    records.lemma_filter_contains(p, i);
                }
            }
        },
    }
}

/// What the starts of authority give is the smallest of all their TTLs and minimums.
pub proof fn law_smallest_soa_ttl(records: Seq<RecordView>, class: DNSClass)
    ensures
        min_soa_ttl(records, class) is Some <==> some_soa(records, class),
        min_soa_ttl(records, class) matches Some(t) ==> !some_soa_below(records, class, t as int)
            && some_soa_below(records, class, t + 1),
    decreases records.len(),
{
    if records.len() > 0 {
        let init = records.drop_last();
        law_smallest_soa_ttl(init, class);
        let last = records.len() - 1;
        assert(records[last] == records.last());
        let counts = records.last().class == class && records.last().data is SOA;
        if let Some(t) = min_soa_ttl(init, class) {
            let k = choose|k: int|
                0 <= k < init.len() && (#[trigger] init[k]).class == class && match init[k].data {
                    RDataView::SOA(s) => init[k].ttl < t + 1 || s.minimum < t + 1,
                    _ => false,
                };
            assert(records[k] == init[k]);
            assert(records[k].data is SOA);
        }
        if let Some(t) = min_soa_ttl(records, class) {
            assert forall|i: int|
                0 <= i < records.len() && (#[trigger] records[i]).class == class implies match records[i].data {
                RDataView::SOA(s) => records[i].ttl >= t && s.minimum >= t,
                _ => true,
            } by {
                if i < last {
                    assert(init[i] == records[i]);
                }
            }
            if counts {
                assert(records[last].data is SOA);
            }
        } else {
            assert forall|i: int| 0 <= i < records.len() implies !((#[trigger] records[i]).class
                == class && records[i].data is SOA) by {
                if i < last {
                    assert(init[i] == records[i]);
                }
            }
        }
    }
}

/// Whether what limits the time of a negative response is below a number: an answer of the
/// class, a start of authority of the class, the configured limit, or, without a start of
/// authority, the time that stands in for one.
pub open spec fn negative_limit_below(
    m: MessageView,
    class: DNSClass,
    p: CacheLoadPolicy,
    n: int,
) -> bool {
    ||| some_class_ttl_below(m.answers, class, n)
    ||| some_soa_below(m.authorities, class, n)
    ||| p.max_negative_ttl < n
    ||| !some_soa(m.authorities, class) && p.negative_ttl_without_soa < n
}

proof fn lemma_negative_ttl(m: MessageView, class: DNSClass, p: CacheLoadPolicy)
    ensures
        ({
            let t = negative_ttl(m, class, p.max_negative_ttl, p.negative_ttl_without_soa);
            !negative_limit_below(m, class, p, t as int) && negative_limit_below(
                m,
                class,
                p,
                t + 1,
            )
        }),
{
    law_smallest_soa_ttl(m.authorities, class);
    lemma_class_ttls(m.answers, class);
    let t = negative_ttl(m, class, p.max_negative_ttl, p.negative_ttl_without_soa);
    if some_soa_below(m.authorities, class, t as int) {
        let k = choose|k: int|
            0 <= k < m.authorities.len() && (#[trigger] m.authorities[k]).class == class
                && match m.authorities[k].data {
                RDataView::SOA(s) => m.authorities[k].ttl < t || s.minimum < t,
                _ => false,
            };
        assert(m.authorities[k].data is SOA);
        assert(some_soa(m.authorities, class));
        let least = min_soa_ttl(m.authorities, class)->0;
        assert(some_soa_below(m.authorities, class, least as int));
    }
    if some_class_ttl_below(m.answers, class, t as int) {
        let k = choose|k: int|
            0 <= k < m.answers.len() && (#[trigger] m.answers[k]).class == class
                && m.answers[k].ttl < t;
        assert(min_ttl(of_class(m.answers, class)) is Some);
        let least = min_ttl(of_class(m.answers, class))->0;
        assert(some_class_ttl_below(m.answers, class, least as int));
    }
}

/// A negative response is cached for as long as all that limits it allows and no longer: no
/// limit is below the time, and one of them is no larger. It is not cached where that is
/// no time at all or negative responses are not to be cached.
pub proof fn law_negative_response_lasts(
    m: MessageView,
    class: DNSClass,
    kind: NegativeResponseKind,
    p: CacheLoadPolicy,
)
    ensures
        match ttl_decision(m, class, ResponseDisposition::DefinitiveNegative(kind), p) {
            CacheTtlDecision::Cache(t) => {
                &&& p.cache_negative
                &&& t > 0
                &&& !negative_limit_below(m, class, p, t as int)
                &&& negative_limit_below(m, class, p, t + 1)
            },
            CacheTtlDecision::Skip(reason) => {
                &&& reason == CacheSkipReason::NoTtl
                &&& !p.cache_negative || negative_limit_below(m, class, p, 1)
            },
        },
{
    lemma_negative_ttl(m, class, p);
}

/// A response that neither answers nor denies is not cached. The reason tells an alias
/// without its records apart.
pub proof fn law_indefinite_response_is_skipped(m: MessageView, class: DNSClass, p: CacheLoadPolicy)
    ensures
        ttl_decision(m, class, ResponseDisposition::IncompleteAlias, p) == CacheTtlDecision::Skip(
            CacheSkipReason::IncompleteAnswer,
        ),
        ttl_decision(m, class, ResponseDisposition::Other, p) == CacheTtlDecision::Skip(
            CacheSkipReason::NoTtl,
        ),
{
}

/// Whether what limits the time of a stored response is below a number.
pub open spec fn stored_limit_below(
    m: MessageView,
    class: DNSClass,
    d: ResponseDisposition,
    persisted_ttl: u32,
    p: CacheLoadPolicy,
    n: int,
) -> bool {
    ||| persisted_ttl < n
    ||| match d {
        ResponseDisposition::CompletePositive => some_class_ttl_below(m.answers, class, n)
            || limit_below(p.max_positive_ttl, n),
        ResponseDisposition::DefinitiveNegative(_) => negative_limit_below(m, class, p, n),
        _ => true,
    }
}

/// A stored response lasts for as long as the TTL that was stored, its records and the
/// current configuration allow and no longer.
pub proof fn law_stored_response_lasts(
    m: MessageView,
    class: DNSClass,
    d: ResponseDisposition,
    persisted_ttl: u32,
    remaining_ttl_ms: u64,
    cache_age_ms: u64,
    p: CacheLoadPolicy,
)
    ensures
        ({
            let (t, fresh, retained) = clamped_ttl(
                m,
                class,
                d,
                persisted_ttl,
                remaining_ttl_ms,
                cache_age_ms,
                p,
            );
            &&& t > 0 ==> {
                &&& !stored_limit_below(m, class, d, persisted_ttl, p, t as int)
                &&& stored_limit_below(m, class, d, persisted_ttl, p, t + 1)
                &&& d is CompletePositive && p.min_positive_ttl is Some ==> exists|full: u32|
                    full >= p.min_positive_ttl->0 && full >= t && !limit_below(
                        p.max_positive_ttl,
                        full as int,
                    ) && !#[trigger] some_class_ttl_below(m.answers, class, full as int)
                &&& d is DefinitiveNegative ==> p.cache_negative
            }
            &&& t == 0 ==> fresh == 0 && retained == 0
        }),
{
    lemma_class_ttls(m.answers, class);
    lemma_negative_ttl(m, class, p);
    let full = policy_ttl(m, class, d, p);
    let t = min_u32(full, persisted_ttl);
    if t > 0 && d is CompletePositive {
        assert(!some_class_ttl_below(m.answers, class, full as int));
        if some_class_ttl_below(m.answers, class, t as int) {
            let k = choose|k: int|
                0 <= k < m.answers.len() && (#[trigger] m.answers[k]).class == class
                    && m.answers[k].ttl < t;
            assert(m.answers[k].ttl < full);
        }
        if persisted_ttl > t {
            assert(full == t);
        }
    }
    if t > 0 && d is DefinitiveNegative {
        if negative_limit_below(m, class, p, t as int) {
            if some_class_ttl_below(m.answers, class, t as int) {
                let k = choose|k: int|
                    0 <= k < m.answers.len() && (#[trigger] m.answers[k]).class == class
                        && m.answers[k].ttl < t;
                assert(m.answers[k].ttl < full);
                assert(some_class_ttl_below(m.answers, class, full as int));
            }
            if some_soa_below(m.authorities, class, t as int) {
                let k = choose|k: int|
                    0 <= k < m.authorities.len() && (#[trigger] m.authorities[k]).class == class
                        && match m.authorities[k].data {
                        RDataView::SOA(s) => m.authorities[k].ttl < t || s.minimum < t,
                        _ => false,
                    };
                assert(m.authorities[k].class == class);
                assert(some_soa_below(m.authorities, class, full as int));
            }
        }
    }
}

/// A stored response that has been in the cache for a while is fresh until its TTL is over,
/// counted from the time when it was first cached, or until the time that was left of it is
/// over, whichever comes first. A positive response is retained for the longer of its TTL
/// and the configured time, within the same limit; any other no longer than it is fresh.
pub proof fn law_stored_response_ages(
    m: MessageView,
    class: DNSClass,
    d: ResponseDisposition,
    persisted_ttl: u32,
    remaining_ttl_ms: u64,
    cache_age_ms: u64,
    p: CacheLoadPolicy,
)
    ensures
        ({
            let (t, fresh, retained) = clamped_ttl(
                m,
                class,
                d,
                persisted_ttl,
                remaining_ttl_ms,
                cache_age_ms,
                p,
            );
            t > 0 ==> {
                &&& fresh <= remaining_ttl_ms && retained <= remaining_ttl_ms
                &&& fresh == remaining_ttl_ms || fresh + cache_age_ms == t * 1000 || fresh == 0
                    && cache_age_ms >= t * 1000
                &&& fresh > 0 ==> fresh + cache_age_ms <= t * 1000
                &&& !(d is CompletePositive) || p.lazy_cache_ttl is None ==> retained == fresh
                &&& d is CompletePositive && p.lazy_cache_ttl is Some ==> {
                    let lazy = p.lazy_cache_ttl->0;
                    &&& retained >= fresh
                    &&& retained > 0 ==> retained + cache_age_ms <= t * 1000 || retained
                        + cache_age_ms <= lazy * 1000
                    &&& retained < remaining_ttl_ms ==> retained + cache_age_ms >= t * 1000
                        && retained + cache_age_ms >= lazy * 1000
                }
            }
        }),
{
}

/// A response that is cached turns stale when its TTL in seconds is over. It is dropped at
/// that time too, unless stale responses are kept: then when the longer of its TTL and the
/// configured time is over.
pub proof fn law_cached_response_expires(
    now: u64,
    ttl: u32,
    lazy_cache_ttl: Option<u32>,
    enable_lazy: bool,
)
    requires
        now + ttl * 1000 <= u64::MAX,
        lazy_cache_ttl matches Some(lazy) ==> now + lazy * 1000 <= u64::MAX,
    ensures
        fresh_until(now, ttl) == now + ttl * 1000,
        !enable_lazy || lazy_cache_ttl is None ==> expires_at(
            now,
            ttl,
            lazy_cache_ttl,
            enable_lazy,
        ) == now + ttl * 1000,
        enable_lazy && lazy_cache_ttl is Some ==> {
            let e = expires_at(now, ttl, lazy_cache_ttl, enable_lazy);
            &&& e >= now + ttl * 1000 && e >= now + lazy_cache_ttl->0 * 1000
            &&& e == now + ttl * 1000 || e == now + lazy_cache_ttl->0 * 1000
        },
{
}

/// A time that lies some while after another is that much later, as far as times go, and
/// the time since another is what has to be added to it.
pub proof fn law_times(a: u64, b: u64)
    ensures
        a + b <= u64::MAX ==> later(a, b as int) == a + b,
        a + b > u64::MAX ==> later(a, b as int) == u64::MAX,
        a >= b ==> b + since(a, b) == a,
        a < b ==> since(a, b) == 0,
{
}

/// A stored response is dropped only where it has no time left: the TTL that was stored, a
/// record or the configuration leaves it none; an answer has no record of the class or
/// falls short of the smallest TTL that is wanted; or denials are not wanted.
pub proof fn law_stored_response_is_dropped(
    m: MessageView,
    class: DNSClass,
    d: ResponseDisposition,
    persisted_ttl: u32,
    remaining_ttl_ms: u64,
    cache_age_ms: u64,
    p: CacheLoadPolicy,
)
    requires
        d is CompletePositive || d is DefinitiveNegative,
        clamped_ttl(m, class, d, persisted_ttl, remaining_ttl_ms, cache_age_ms, p).0 == 0,
    ensures
        stored_limit_below(m, class, d, persisted_ttl, p, 1) || (d is DefinitiveNegative
            && !p.cache_negative) || (d is CompletePositive && (no_record_of(m.answers, class) || (
        p.min_positive_ttl is Some && (some_class_ttl_below(
            m.answers,
            class,
            p.min_positive_ttl->0 as int,
        ) || limit_below(p.max_positive_ttl, p.min_positive_ttl->0 as int))))),
{
    lemma_class_ttls(m.answers, class);
    lemma_negative_ttl(m, class, p);
    if d is CompletePositive && min_ttl(of_class(m.answers, class)) is Some {
        let t = min_ttl(of_class(m.answers, class))->0;
        assert(some_class_ttl_below(m.answers, class, t + 1));
        let k = choose|k: int|
            0 <= k < m.answers.len() && (#[trigger] m.answers[k]).class == class && m.answers[k].ttl
                < t + 1;
        assert forall|n: int| t < n implies #[trigger] some_class_ttl_below(
            m.answers,
            class,
            n,
        ) by {
            assert(m.answers[k].ttl < n);
        }
        if t == 0 {
            assert(some_class_ttl_below(m.answers, class, 1));
        }
    }
    if d is CompletePositive && min_ttl(of_class(m.answers, class)) is None {
        assert forall|i: int| 0 <= i < m.answers.len() implies (#[trigger] m.answers[i]).class
            != class by {
            assert(!some_class_ttl_below(m.answers, class, m.answers[i].ttl + 1));
        }
    }
}

/// Whether no record is of a class.
pub open spec fn no_record_of(records: Seq<RecordView>, class: DNSClass) -> bool {
    forall|i: int| 0 <= i < records.len() ==> (#[trigger] records[i]).class != class
}

/// A response that repeats another question says nothing about the key. One that repeats the
/// question of the key says what it says about it, and one that repeats none what it says
/// about the question that the key stands for.
pub proof fn law_response_to_the_question(m: MessageView, key: CacheKeyView)
    ensures
        m.questions.len() > 0 && (m.questions[0].qtype != key.record_type || m.questions[0].qclass
            != key.dns_class || domain_text(m.questions[0].name) != key.domain)
            ==> cache_disposition(m, key) == ResponseDisposition::Other,
        m.questions.len() > 0 && m.questions[0].qtype == key.record_type && m.questions[0].qclass
            == key.dns_class && domain_text(m.questions[0].name) == key.domain ==> cache_disposition(
            m,
            key,
        ) == disposition(m, Some(m.questions[0])),
        m.questions.len() == 0 && parse_name(key.domain) is Some ==> cache_disposition(m, key)
            == disposition(
            m,
            Some(
                (QuestionView {
                    name: parse_name(key.domain)->0,
                    qtype: key.record_type,
                    qclass: key.dns_class,
                }),
            ),
        ),
{
}

} // verus!
