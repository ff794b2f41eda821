//! Which responses are cached, and for how long.

use vstd::prelude::*;

use crate::cache::item::{later, since};
use crate::cache::key::{
    cache_domain_matches_name, domain_text, key_question, CacheKey, CacheKeyView,
};
use crate::proto::message::{min_ttl, DNSClass, Message, MessageView, RData, RDataView, RecordView};
use crate::proto::response::{classify_response, disposition, ResponseDisposition};

verus! {

/// The longest TTL of negative entries where none is configured, in seconds.
pub const DEFAULT_MAX_NEGATIVE_TTL: u32 = 300;

/// The TTL of negative responses without an SOA where none is configured, in seconds.
pub const DEFAULT_NEGATIVE_TTL_WITHOUT_SOA: u32 = 60;

/// Why a response is not cached.
#[derive(Debug, Clone, Copy, PartialEq, Eq, Structural)]
pub enum CacheSkipReason {
    NoTtl,
    IncompleteAnswer,
    LowPositiveTtl,
}

/// Whether a response is cached, and for how many seconds.
#[derive(Debug, Clone, Copy, PartialEq, Eq, Structural)]
pub enum CacheTtlDecision {
    Cache(u32),
    Skip(CacheSkipReason),
}

/// The limits that apply to cached responses.
#[derive(Debug, Clone, Copy, PartialEq, Eq, Structural)]
pub struct CacheLoadPolicy {
    pub lazy_cache_ttl: Option<u32>,
    pub cache_negative: bool,
    pub max_negative_ttl: u32,
    pub negative_ttl_without_soa: u32,
    pub max_positive_ttl: Option<u32>,
    pub min_positive_ttl: Option<u32>,
}

impl Default for CacheLoadPolicy {
    fn default() -> (r: CacheLoadPolicy)
        ensures
            r == (CacheLoadPolicy {
                lazy_cache_ttl: None,
                cache_negative: true,
                max_negative_ttl: DEFAULT_MAX_NEGATIVE_TTL,
                negative_ttl_without_soa: DEFAULT_NEGATIVE_TTL_WITHOUT_SOA,
                max_positive_ttl: None,
                min_positive_ttl: None,
            }),
    {
        CacheLoadPolicy {
            lazy_cache_ttl: None,
            cache_negative: true,
            max_negative_ttl: DEFAULT_MAX_NEGATIVE_TTL,
            negative_ttl_without_soa: DEFAULT_NEGATIVE_TTL_WITHOUT_SOA,
            max_positive_ttl: None,
            min_positive_ttl: None,
        }
    }
}

pub open spec fn min_u32(a: u32, b: u32) -> u32 {
    if a <= b {
        a
    } else {
        b
    }
}

fn min_of(a: u32, b: u32) -> (r: u32)
    ensures
        r == min_u32(a, b),
{
    if a <= b {
        a
    } else {
        b
    }
}

/// The records of a class.
pub open spec fn of_class(records: Seq<RecordView>, class: DNSClass) -> Seq<RecordView> {
    records.filter(|r: RecordView| r.class == class)
}

/// The smallest of optional values.
pub open spec fn min_option(a: Option<u32>, b: Option<u32>) -> Option<u32> {
    match (a, b) {
        (Some(x), Some(y)) => Some(min_u32(x, y)),
        (Some(x), None) => Some(x),
        (None, y) => y,
    }
}

/// The negative TTL that an SOA record gives.
pub open spec fn soa_ttl(r: RecordView) -> Option<u32> {
    match r.data {
        RDataView::SOA(s) => Some(min_u32(r.ttl, s.minimum)),
        _ => None,
    }
}

/// The smallest negative TTL that the SOA records of a class give.
pub open spec fn min_soa_ttl(records: Seq<RecordView>, class: DNSClass) -> Option<u32>
    decreases records.len(),
{
    if records.len() == 0 {
        None
    } else {
        let rest = min_soa_ttl(records.drop_last(), class);
        if records.last().class == class {
            min_option(rest, soa_ttl(records.last()))
        } else {
            rest
        }
    }
}

/// The smallest TTL among the answers in the class of the key.
pub fn min_answer_ttl_for_key(response: &Message, key: &CacheKey) -> (r: Option<u32>)
    ensures
        r == min_ttl(of_class(response@.answers, key@.dns_class)),
{
    let ghost all = response@.answers;
    let ghost p = |r: RecordView| r.class == key@.dns_class;
    let mut best: Option<u32> = None;
    let mut i: usize = 0;
    assert(all.take(0) =~= Seq::empty());
    assert(all.take(0).filter(p) =~= Seq::empty()) by {
        reveal(Seq::filter);
    }
    while i < response.answers.len()
        invariant
            i <= response.answers@.len(),
            all == response@.answers,
            p == (|r: RecordView| r.class == key@.dns_class),
            best == min_ttl(all.take(i as int).filter(p)),
        decreases response.answers@.len() - i,
    {
        let record = &response.answers[i];
        proof {
            let next = all.take(i + 1);
            assert(next.drop_last() =~= all.take(i as int));
            assert(next.last() == record@);
            reveal(Seq::filter);
            assert(next.filter(p) == (if p(record@) {
                all.take(i as int).filter(p).push(record@)
            } else {
                all.take(i as int).filter(p)
            }));
            let f = all.take(i as int).filter(p);
            assert(f.push(record@).drop_last() =~= f);
        }
        if record.class == key.dns_class {
            best = match best {
                Some(t) => if record.ttl < t {
                    Some(record.ttl)
                } else {
                    Some(t)
                },
                None => Some(record.ttl),
            };
        }
        i = i + 1;
    }
    assert(all.take(i as int) =~= all);
    best
}

/// The smallest negative TTL that the SOA records in the class of the key give.
pub fn negative_ttl_from_soa_for_key(response: &Message, key: &CacheKey) -> (r: Option<u32>)
    ensures
        r == min_soa_ttl(response@.authorities, key@.dns_class),
{
    let ghost all = response@.authorities;
    let mut best: Option<u32> = None;
    let mut i: usize = 0;
    while i < response.authorities.len()
        invariant
            i <= response.authorities@.len(),
            all == response@.authorities,
            best == min_soa_ttl(all.take(i as int), key@.dns_class),
        decreases response.authorities@.len() - i,
    {
        let record = &response.authorities[i];
        proof {
            let next = all.take(i + 1);
            assert(next.drop_last() =~= all.take(i as int));
            assert(next.last() == record@);
        }
        if record.class == key.dns_class {
            if let RData::SOA(soa) = &record.data {
                let ttl: u32 = min_of(record.ttl, soa.minimum);
                best = match best {
                    Some(t) => Some(min_of(t, ttl)),
                    None => Some(ttl),
                };
            }
        }
        i = i + 1;
    }
    assert(all.take(i as int) =~= all);
    best
}

/// What a response says about the question of a key. A response that repeats
/// another question says nothing about it.
pub open spec fn cache_disposition(m: MessageView, key: CacheKeyView) -> ResponseDisposition {
    if m.questions.len() > 0 {
        let q = m.questions[0];
        if domain_text(q.name) != key.domain || q.qtype != key.record_type || q.qclass
            != key.dns_class {
            ResponseDisposition::Other
        } else {
            disposition(m, Some(q))
        }
    } else {
        match key_question(key) {
            Some(q) => disposition(m, Some(q)),
            None => ResponseDisposition::Other,
        }
    }
}

/// What a response says to the question of a key.
pub fn response_disposition_for_cache(response: &Message, key: &CacheKey) -> (r:
    ResponseDisposition)
    ensures
        r == cache_disposition(response@, key@),
{
    if response.questions.len() > 0 {
        let question = &response.questions[0];
        assert(response@.questions[0] == question@);
        if !cache_domain_matches_name(key.domain.as_str(), &question.name) || question.qtype
            != key.record_type || question.qclass != key.dns_class {
            return ResponseDisposition::Other;
        }
        return classify_response(response, Some(question));
    }
    match key.question() {
        Some(question) => classify_response(response, Some(&question)),
        None => ResponseDisposition::Other,
    }
}

/// The reason to give for a response that says nothing definite.
pub open spec fn skip_reason(d: ResponseDisposition) -> CacheSkipReason {
    if d is IncompleteAlias {
        CacheSkipReason::IncompleteAnswer
    } else {
        CacheSkipReason::NoTtl
    }
}

/// Why such a response is not cached.
pub fn cache_skip_reason_for_disposition(disposition: ResponseDisposition) -> (r: CacheSkipReason)
    ensures
        r == skip_reason(disposition),
{
    match disposition {
        ResponseDisposition::IncompleteAlias => CacheSkipReason::IncompleteAnswer,
        _ => CacheSkipReason::NoTtl,
    }
}

/// Whether a response can be cached at all.
pub open spec fn disposition_valid(d: ResponseDisposition) -> bool {
    d is CompletePositive || d is DefinitiveNegative
}

/// Whether such a response can be cached.
pub fn is_cache_disposition_valid(disposition: ResponseDisposition) -> (r: bool)
    ensures
        r == disposition_valid(disposition),
{
    match disposition {
        ResponseDisposition::CompletePositive => true,
        ResponseDisposition::DefinitiveNegative(_) => true,
        _ => false,
    }
}

/// The decision on a positive answer whose smallest TTL is `ttl`.
pub open spec fn positive_decision(
    ttl: Option<u32>,
    max_positive_ttl: Option<u32>,
    min_positive_ttl: Option<u32>,
) -> CacheTtlDecision {
    match ttl {
        None => CacheTtlDecision::Skip(CacheSkipReason::NoTtl),
        Some(t) => {
            let t = match max_positive_ttl {
                Some(max) => min_u32(t, max),
                None => t,
            };
            if t == 0 {
                CacheTtlDecision::Skip(CacheSkipReason::NoTtl)
            } else if min_positive_ttl is Some && t < min_positive_ttl->0 {
                CacheTtlDecision::Skip(CacheSkipReason::LowPositiveTtl)
            } else {
                CacheTtlDecision::Cache(t)
            }
        },
    }
}

/// The decision on a positive response.
pub fn compute_positive_ttl_with_policy(
    response: &Message,
    max_positive_ttl: Option<u32>,
    min_positive_ttl: Option<u32>,
) -> (r: CacheTtlDecision)
    ensures
        r == positive_decision(min_ttl(response@.answers), max_positive_ttl, min_positive_ttl),
{
    let ttl: u32 = match response.min_answer_ttl() {
        Some(ttl) => ttl,
        None => return CacheTtlDecision::Skip(CacheSkipReason::NoTtl),
    };
    let ttl: u32 = match max_positive_ttl {
        Some(max) => min_of(ttl, max),
        None => ttl,
    };
    if ttl == 0 {
        return CacheTtlDecision::Skip(CacheSkipReason::NoTtl);
    }
    if let Some(min) = min_positive_ttl {
        if ttl < min {
            return CacheTtlDecision::Skip(CacheSkipReason::LowPositiveTtl);
        }
    }
    CacheTtlDecision::Cache(ttl)
}

/// The TTL of a negative response: that of its SOA or else the fallback, limited by
/// its answers and by the configured maximum. Zero means that it is not cached.
pub open spec fn negative_ttl(
    m: MessageView,
    class: DNSClass,
    max_negative_ttl: u32,
    negative_ttl_without_soa: u32,
) -> u32 {
    let base = match min_soa_ttl(m.authorities, class) {
        Some(t) => t,
        None => negative_ttl_without_soa,
    };
    let limited = match min_ttl(of_class(m.answers, class)) {
        Some(t) => min_u32(base, t),
        None => base,
    };
    min_u32(limited, max_negative_ttl)
}

/// The TTL of a negative response, where it is cached.
pub open spec fn negative_decision(
    m: MessageView,
    class: DNSClass,
    cache_negative: bool,
    max_negative_ttl: u32,
    negative_ttl_without_soa: u32,
) -> Option<u32> {
    let ttl = negative_ttl(m, class, max_negative_ttl, negative_ttl_without_soa);
    if cache_negative && ttl != 0 {
        Some(ttl)
    } else {
        None
    }
}

/// The TTL of a negative response, where it is cached.
pub fn compute_negative_ttl_with_policy(
    response: &Message,
    key: &CacheKey,
    cache_negative: bool,
    max_negative_ttl: u32,
    negative_ttl_without_soa: u32,
) -> (r: Option<u32>)
    ensures
        r == negative_decision(
            response@,
            key@.dns_class,
            cache_negative,
            max_negative_ttl,
            negative_ttl_without_soa,
        ),
{
    if !cache_negative {
        return None;
    }
    let base: u32 = match negative_ttl_from_soa_for_key(response, key) {
        Some(ttl) => ttl,
        None => negative_ttl_without_soa,
    };
    let mut ttl: u32 = min_of(base, max_negative_ttl);
    if let Some(answer_ttl) = min_answer_ttl_for_key(response, key) {
        ttl = min_of(ttl, answer_ttl);
    }
    if ttl == 0 {
        None
    } else {
        Some(ttl)
    }
}

/// The decision on a response with a known disposition.
pub open spec fn ttl_decision(
    m: MessageView,
    class: DNSClass,
    d: ResponseDisposition,
    p: CacheLoadPolicy,
) -> CacheTtlDecision {
    match d {
        ResponseDisposition::CompletePositive => positive_decision(
            min_ttl(m.answers),
            p.max_positive_ttl,
            p.min_positive_ttl,
        ),
        ResponseDisposition::DefinitiveNegative(_) => match negative_decision(
            m,
            class,
            p.cache_negative,
            p.max_negative_ttl,
            p.negative_ttl_without_soa,
        ) {
            Some(ttl) => CacheTtlDecision::Cache(ttl),
            None => CacheTtlDecision::Skip(CacheSkipReason::NoTtl),
        },
        _ => CacheTtlDecision::Skip(skip_reason(d)),
    }
}

/// The decision on a response, and what the response says.
pub fn compute_cache_ttl_with_policy(
    response: &Message,
    key: &CacheKey,
    max_positive_ttl: Option<u32>,
    min_positive_ttl: Option<u32>,
    cache_negative: bool,
    max_negative_ttl: u32,
    negative_ttl_without_soa: u32,
) -> (r: (CacheTtlDecision, ResponseDisposition))
    ensures
        r.1 == cache_disposition(response@, key@),
        r.0 == ttl_decision(
            response@,
            key@.dns_class,
            r.1,
            (CacheLoadPolicy {
                lazy_cache_ttl: None,
                cache_negative,
                max_negative_ttl,
                negative_ttl_without_soa,
                max_positive_ttl,
                min_positive_ttl,
            }),
        ),
{
    let disposition = response_disposition_for_cache(response, key);
    let decision = match disposition {
        ResponseDisposition::CompletePositive => compute_positive_ttl_with_policy(
            response,
            max_positive_ttl,
            min_positive_ttl,
        ),
        ResponseDisposition::DefinitiveNegative(_) => match compute_negative_ttl_with_policy(
            response,
            key,
            cache_negative,
            max_negative_ttl,
            negative_ttl_without_soa,
        ) {
            Some(ttl) => CacheTtlDecision::Cache(ttl),
            None => CacheTtlDecision::Skip(CacheSkipReason::NoTtl),
        },
        ResponseDisposition::IncompleteAlias => CacheTtlDecision::Skip(
            CacheSkipReason::IncompleteAnswer,
        ),
        ResponseDisposition::Other => CacheTtlDecision::Skip(CacheSkipReason::NoTtl),
    };
    (decision, disposition)
}

/// The TTL that the policy gives to a stored response, or zero where it is to be
/// dropped.
pub open spec fn policy_ttl(
    m: MessageView,
    class: DNSClass,
    d: ResponseDisposition,
    p: CacheLoadPolicy,
) -> u32 {
    match d {
        ResponseDisposition::CompletePositive => match positive_decision(
            min_ttl(of_class(m.answers, class)),
            p.max_positive_ttl,
            p.min_positive_ttl,
        ) {
            CacheTtlDecision::Cache(t) => t,
            CacheTtlDecision::Skip(_) => 0,
        },
        ResponseDisposition::DefinitiveNegative(_) => if p.cache_negative {
            negative_ttl(m, class, p.max_negative_ttl, p.negative_ttl_without_soa)
        } else {
            0
        },
        _ => 0,
    }
}

pub open spec fn min_u64(a: u64, b: u64) -> u64 {
    if a <= b {
        a
    } else {
        b
    }
}

/// The effective TTL of a stored entry with the time for which it is still fresh
/// and still retained. All are zero where the entry is to be dropped.
pub open spec fn clamped_ttl(
    m: MessageView,
    class: DNSClass,
    d: ResponseDisposition,
    persisted_ttl: u32,
    remaining_ttl_ms: u64,
    cache_age_ms: u64,
    p: CacheLoadPolicy,
) -> (u32, u64, u64) {
    let ttl = min_u32(policy_ttl(m, class, d, p), persisted_ttl);
    let fresh = min_u64(remaining_ttl_ms, since((ttl * 1000) as u64, cache_age_ms));
    let retained = match p.lazy_cache_ttl {
        Some(lazy) if d is CompletePositive => min_u64(
            remaining_ttl_ms,
            since((if ttl >= lazy {
                ttl * 1000
            } else {
                lazy * 1000
            }) as u64, cache_age_ms),
        ),
        _ => fresh,
    };
    if ttl == 0 {
        (0, 0, 0)
    } else {
        (ttl, fresh, retained)
    }
}

fn min_of_u64(a: u64, b: u64) -> (r: u64)
    ensures
        r == min_u64(a, b),
{
    if a <= b {
        a
    } else {
        b
    }
}

/// The TTL that the policy gives to a stored response.
fn ttl_under_policy(
    response: &Message,
    key: &CacheKey,
    disposition: ResponseDisposition,
    policy: CacheLoadPolicy,
) -> (r: u32)
    ensures
        r == policy_ttl(response@, key@.dns_class, disposition, policy),
{
    match disposition {
        ResponseDisposition::CompletePositive => {
            let answer_ttl: u32 = match min_answer_ttl_for_key(response, key) {
                Some(ttl) => ttl,
                None => return 0,
            };
            let ttl: u32 = match policy.max_positive_ttl {
                Some(max) => min_of(answer_ttl, max),
                None => answer_ttl,
            };
            match policy.min_positive_ttl {
                Some(min) => if ttl < min {
                    0
                } else {
                    ttl
                },
                None => ttl,
            }
        },
        ResponseDisposition::DefinitiveNegative(_) => {
            if !policy.cache_negative {
                return 0;
            }
            let mut ttl: u32 = match negative_ttl_from_soa_for_key(response, key) {
                Some(ttl) => ttl,
                None => policy.negative_ttl_without_soa,
            };
            if let Some(answer_ttl) = min_answer_ttl_for_key(response, key) {
                ttl = min_of(ttl, answer_ttl);
            }
            min_of(ttl, policy.max_negative_ttl)
        },
        _ => 0,
    }
}

/// Holds a stored entry to the current policy. The result is the effective TTL and
/// the milliseconds for which the entry is still fresh and still retained; all are
/// zero where it is to be dropped.
pub fn clamp_persisted_cache_ttl(
    response: &Message,
    key: &CacheKey,
    disposition: ResponseDisposition,
    persisted_ttl: u32,
    remaining_ttl_ms: u64,
    cache_age_ms: u64,
    policy: CacheLoadPolicy,
) -> (r: (u32, u64, u64))
    ensures
        r == clamped_ttl(
            response@,
            key@.dns_class,
            disposition,
            persisted_ttl,
            remaining_ttl_ms,
            cache_age_ms,
            policy,
        ),
{
    // Freshness is never widened beyond the TTL that was stored.
    let ttl: u32 = min_of(ttl_under_policy(response, key, disposition, policy), persisted_ttl);
    if ttl == 0 {
        return (0, 0, 0);
    }
    let ttl_ms: u64 = (ttl as u64) * 1000;
    let fresh_remaining_ms: u64 = min_of_u64(
        remaining_ttl_ms,
        ttl_ms.saturating_sub(cache_age_ms),
    );
    let retention_remaining_ms: u64 = match policy.lazy_cache_ttl {
        Some(lazy_ttl) if disposition.is_complete_positive() => {
            let limit_ms: u64 = if ttl >= lazy_ttl {
                ttl_ms
            } else {
                (lazy_ttl as u64) * 1000
            };
            min_of_u64(remaining_ttl_ms, limit_ms.saturating_sub(cache_age_ms))
        },
        _ => fresh_remaining_ms,
    };
    (ttl, fresh_remaining_ms, retention_remaining_ms)
}

/// When a response cached at `now` turns stale.
pub open spec fn fresh_until(now: u64, ttl: u32) -> u64 {
    later(now, ttl * 1000)
}

/// When a response cached at `now` is dropped. Where stale answers are served, it
/// is retained for the longer of its TTL and the configured time.
pub open spec fn expires_at(now: u64, ttl: u32, lazy_cache_ttl: Option<u32>, enable_lazy: bool) -> u64 {
    match lazy_cache_ttl {
        Some(lazy) if enable_lazy => fresh_until(
            now,
            if ttl >= lazy {
                ttl
            } else {
                lazy
            },
        ),
        _ => fresh_until(now, ttl),
    }
}

/// When a response turns stale.
pub fn compute_fresh_until_ms(now: u64, ttl: u32) -> (r: u64)
    ensures
        r == fresh_until(now, ttl),
{
    now.saturating_add((ttl as u64) * 1000)
}

/// When a response leaves the cache.
pub fn compute_expire_time(now: u64, ttl: u32, lazy_cache_ttl: Option<u32>, enable_lazy: bool) -> (r:
    u64)
    ensures
        r == expires_at(now, ttl, lazy_cache_ttl, enable_lazy),
{
    match lazy_cache_ttl {
        Some(lazy) if enable_lazy => compute_fresh_until_ms(
            now,
            if ttl >= lazy {
                ttl
            } else {
                lazy
            },
        ),
        _ => compute_fresh_until_ms(now, ttl),
    }
}

/// Loading an entry never makes it younger: it is fresh for no longer than was left
/// of it and than its stored TTL allows at its age, and it is fresh no longer than
/// it is retained.
pub proof fn law_clamp_never_widens(
    m: MessageView,
    class: DNSClass,
    d: ResponseDisposition,
    persisted_ttl: u32,
    remaining_ttl_ms: u64,
    cache_age_ms: u64,
    p: CacheLoadPolicy,
)
    ensures
        ({
            let r = clamped_ttl(
                m,
                class,
                d,
                persisted_ttl,
                remaining_ttl_ms,
                cache_age_ms,
                p,
            );
            &&& r.0 <= persisted_ttl
            &&& r.1 <= r.2 <= remaining_ttl_ms
            &&& r.1 > 0 ==> r.1 + cache_age_ms <= persisted_ttl * 1000
        }),
{
}

/// A response that is cached has a TTL between the configured limits and above zero.
pub proof fn law_cached_ttl_within_limits(
    m: MessageView,
    class: DNSClass,
    d: ResponseDisposition,
    p: CacheLoadPolicy,
)
    requires
        ttl_decision(m, class, d, p) is Cache,
    ensures
        ({
            let ttl = ttl_decision(m, class, d, p)->Cache_0;
            &&& ttl > 0
            &&& disposition_valid(d)
            &&& d is CompletePositive && p.max_positive_ttl is Some ==> ttl
                <= p.max_positive_ttl->0
            &&& d is CompletePositive && p.min_positive_ttl is Some ==> ttl
                >= p.min_positive_ttl->0
            &&& d is DefinitiveNegative ==> p.cache_negative && ttl <= p.max_negative_ttl
        }),
{
}

/// An entry stays fresh no longer than it is retained.
pub proof fn law_fresh_within_retention(now: u64, ttl: u32, lazy_cache_ttl: Option<u32>, enable_lazy: bool)
    ensures
        fresh_until(now, ttl) <= expires_at(now, ttl, lazy_cache_ttl, enable_lazy),
{
}

} // verus!
