//! What holds of the configurations and of the index of subnets.

use vstd::prelude::*;

use crate::cache::config::{config_problem, quick_token, quick_tokens, CacheConfig};
use crate::cache::ecs_index::{
    base_id, candidates, covering_keys, covers, gives_hint, hint_of, hints_with, Hint,
};
use crate::cache::key::CacheKeyView;

verus! {

/// A configuration is refused exactly where the size, an interval or a TTL is zero that must
/// not be, or where the smallest TTL is larger than the largest.
pub proof fn law_refused_configurations(c: CacheConfig)
    ensures
        config_problem(c) is None <==> {
            &&& c.size != Some(0usize)
            &&& c.dump_file is Some ==> c.dump_interval != Some(0u64)
            &&& c.lazy_cache_ttl != Some(0u32)
            &&& c.lazy_refresh_concurrency != Some(0usize)
            &&& c.lazy_refresh_failure_cooldown != Some(0u64)
            &&& c.max_negative_ttl != Some(0u32)
            &&& c.max_positive_ttl != Some(0u32)
            &&& c.min_positive_ttl != Some(0u32)
            &&& c.min_positive_ttl is Some && c.max_positive_ttl is Some ==> c.min_positive_ttl->0
                <= c.max_positive_ttl->0
        },
{
}

/// The words of a quick setup say whether the chain ends at a hit, with a value or without;
/// no other word is known.
pub proof fn law_quick_words(t: Seq<char>, value: Seq<char>)
    ensures
        quick_token("short_circuit"@) == Ok::<bool, Seq<char>>(true),
        quick_token("short_circuit="@ + "true"@) == Ok::<bool, Seq<char>>(true),
        quick_token("short_circuit="@ + "false"@) == Ok::<bool, Seq<char>>(false),
        value != "true"@ && value != "false"@ ==> quick_token("short_circuit="@ + value) is Err,
        t != "short_circuit"@ && !"short_circuit="@.is_prefix_of(t) ==> quick_token(t) is Err,
{
    reveal_strlit("short_circuit=");
    reveal_strlit("short_circuit");
    reveal_strlit("true");
    reveal_strlit("false");
    let p = "short_circuit="@;
    let flag = "short_circuit"@;
    assert(p.len() == 14 && flag.len() == 13);
    assert forall|v: Seq<char>| #[trigger] (p + v) != flag && p.is_prefix_of(p + v) && (p + v).skip(
        14,
    ) == v by {
        assert((p + v).len() >= 14);
        assert((p + v).take(14) =~= p);
        assert((p + v).skip(14) =~= v);
    }
    assert("true"@.len() == 4 && "false"@.len() == 5);
    assert((p + "true"@).skip(14) == "true"@);
    assert((p + "false"@).skip(14) == "false"@);
    assert((p + value).skip(14) == value);
}

/// The last word of a quick setup wins, and the first that is not known is the error.
pub proof fn law_last_word_wins(words: Seq<Seq<char>>, w: Seq<char>, found: Option<bool>)
    ensures
        quick_tokens(Seq::empty(), found) == Ok::<Option<bool>, Seq<char>>(found),
        quick_tokens(words.push(w), found) == (match (quick_tokens(words, found), quick_token(w)) {
            (Err(e), _) => Err(e),
            (Ok(_), Ok(v)) => Ok(Some(v)),
            (Ok(_), Err(e)) => Err(e),
        }),
    decreases words.len(),
{
    let all = words.push(w);
    reveal_with_fuel(quick_tokens, 2);
    if words.len() == 0 {
        assert(all.skip(1) =~= Seq::empty());
        assert(all[0] == w);
    } else {
        assert(all[0] == words[0]);
        assert(all.skip(1) =~= words.skip(1).push(w));
        if let Ok(v) = quick_token(words[0]) {
            law_last_word_wins(words.skip(1), w, Some(v));
        }
    }
}

/// An entry is looked for only under keys that it can have: the request's own, and those of
/// its subnet cut to a prefix that is recorded for it.
pub proof fn law_candidates_are_fit(hints: Set<Hint>, request: CacheKeyView, k: CacheKeyView)
    ensures
        candidates(hints, request).contains(k) <==> k == request || exists|p: int|
            0 <= p < 256 && #[trigger] is_recorded(hints, request, p) && k == request.scoped(
                p as u8,
            ),
{
    let shared = covering_keys(hints, request, 256);
    let all = candidates(hints, request);
    lemma_covering(hints, request, 256);
    if all.contains(k) {
        let i = choose|i: int| 0 <= i < all.len() && all[i] == k;
        if i < shared.len() {
            assert(shared[i] == k);
            assert(shared.contains(k));
        }
    }
    if shared.contains(k) {
        let i = choose|i: int| 0 <= i < shared.len() && shared[i] == k;
        assert(all[i] == k);
    }
    if k == request && !shared.contains(request) {
        assert(all[all.len() - 1] == request);
    }
}

/// Whether a prefix of the subnet of a request is recorded: it is no longer than the subnet,
/// and an entry with this prefix has been written for the same question and family.
pub open spec fn is_recorded(hints: Set<Hint>, request: CacheKeyView, p: int) -> bool {
    request.ecs_scope is Some && p <= request.ecs_scope->0.source_prefix && hints.contains(
        (base_id(request.base()), request.ecs_scope->0.family, p as u8),
    )
}

proof fn lemma_covering(hints: Set<Hint>, request: CacheKeyView, n: int)
    requires
        0 <= n <= 256,
    ensures
        forall|k: CacheKeyView| #[trigger]
            covering_keys(hints, request, n).contains(k) <==> exists|p: int|
                0 <= p < n && #[trigger] is_recorded(hints, request, p) && k == request.scoped(
                    p as u8,
                ),
    decreases n,
{
    let keys = covering_keys(hints, request, n);
    if n > 0 {
        lemma_covering(hints, request, n - 1);
        let rest = covering_keys(hints, request, n - 1);
        let first = request.scoped((n - 1) as u8);
        assert(covers(hints, request, (n - 1) as u8) <==> is_recorded(hints, request, n - 1));
        assert forall|k: CacheKeyView| #[trigger] keys.contains(k) <==> exists|p: int|
            0 <= p < n && #[trigger] is_recorded(hints, request, p) && k == request.scoped(
                p as u8,
            ) by {
            if keys.contains(k) {
                let i = choose|i: int| 0 <= i < keys.len() && keys[i] == k;
                if is_recorded(hints, request, n - 1) {
                    if i > 0 {
                        assert(rest[i - 1] == k);
                        assert(rest.contains(k));
                    }
                } else {
                    assert(rest.contains(k));
                }
            }
            if rest.contains(k) {
                let i = choose|i: int| 0 <= i < rest.len() && rest[i] == k;
                if is_recorded(hints, request, n - 1) {
                    assert(keys[i + 1] == k);
                } else {
                    assert(keys[i] == k);
                }
            }
            if is_recorded(hints, request, n - 1) && k == first {
                assert(keys[0] == k);
            }
        }
    } else {
        assert(keys =~= Seq::empty());
    }
}

/// The longest prefix is looked for first.
pub proof fn law_longest_prefix_first(hints: Set<Hint>, request: CacheKeyView, p: u8)
    requires
        is_recorded(hints, request, p as int),
        forall|q: int| p < q < 256 ==> !#[trigger] is_recorded(hints, request, q),
    ensures
        candidates(hints, request)[0] == request.scoped(p),
{
    lemma_first_covering(hints, request, p, 256);
    let shared = covering_keys(hints, request, 256);
    assert(candidates(hints, request)[0] == shared[0]);
}

proof fn lemma_first_covering(hints: Set<Hint>, request: CacheKeyView, p: u8, n: int)
    requires
        p < n <= 256,
        is_recorded(hints, request, p as int),
        forall|q: int| p < q < 256 ==> !#[trigger] is_recorded(hints, request, q),
    ensures
        covering_keys(hints, request, n).len() > 0,
        covering_keys(hints, request, n)[0] == request.scoped(p),
    decreases n,
{
    if n - 1 > p {
        assert(!is_recorded(hints, request, n - 1));
        assert(!covers(hints, request, (n - 1) as u8));
        lemma_first_covering(hints, request, p, n - 1);
    } else {
        assert(covers(hints, request, p));
    }
}

/// A key is recorded where it is shared by all addresses within a prefix that its family can
/// have; any other leaves what is recorded as it is.
pub proof fn law_shared_keys_are_recorded(hints: Set<Hint>, k: CacheKeyView, h: Hint)
    ensures
        gives_hint(k) <==> k.ecs_scope is Some && k.ecs_scope->0.source_prefix
            == k.ecs_scope->0.scope_prefix && ((k.ecs_scope->0.family == 1
            && k.ecs_scope->0.scope_prefix <= 32) || (k.ecs_scope->0.family == 2
            && k.ecs_scope->0.scope_prefix <= 128)),
        hints_with(hints, k).contains(h) <==> hints.contains(h) || (gives_hint(k) && h == (
            base_id(k.base()),
            k.ecs_scope->0.family,
            k.ecs_scope->0.scope_prefix,
        )),
{
}

/// Keys are the same but for their subnets exactly where they agree in the name, the numbers of
/// type and class, and the flags.
pub proof fn law_bases_are_told_apart(a: CacheKeyView, b: CacheKeyView)
    ensures
        base_id(a.base()) == base_id(b.base()) <==> a.domain == b.domain && a.record_type.number()
            == b.record_type.number() && a.dns_class.number() == b.dns_class.number() && a.do_bit
            == b.do_bit && a.cd_bit == b.cd_bit,
        gives_hint(a) && gives_hint(b) ==> (hint_of(a) == hint_of(b) <==> base_id(a.base())
            == base_id(b.base()) && a.ecs_scope->0.family == b.ecs_scope->0.family
            && a.ecs_scope->0.scope_prefix == b.ecs_scope->0.scope_prefix),
{
}

} // verus!
