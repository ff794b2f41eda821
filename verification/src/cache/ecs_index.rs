//! An index of the reusable subnet prefixes in the cache.
//!
//! Each base key, the part of a cache key that is not the subnet, owns a bitmap
//! of the prefixes observed for it, so a lookup probes only those. The cache
//! itself stays authoritative: a hint may outlive its entry until the next
//! rebuild, but an entry is never without its hint.

use std::collections::hash_map::RandomState;

use dashmap::DashMap;
use vstd::prelude::*;

use crate::cache::key::{CacheKey, CacheKeyView, EcsBaseKey, EcsBaseView};

verus! {

/// `dashmap::DashMap`, opaque.
#[verifier::external_type_specification]
#[verifier::external_body]
#[verifier::reject_recursive_types(K)]
#[verifier::reject_recursive_types(V)]
#[verifier::reject_recursive_types(S)]
pub struct ExDashMap<K, V, S>(DashMap<K, V, S>);

/// A base key as plain values: domain, record type, class and the two flags.
pub type BaseId = (String, u16, u16, bool, bool);

/// A bitmap as plain values: the IPv4 word and the three IPv6 words.
pub type BitmapWords = (u64, u64, u64, u64);

/// The view of a [`BaseId`].
pub type BaseIdView = (Seq<char>, u16, u16, bool, bool);

/// What a table of bitmaps holds.
pub uninterp spec fn table_contents(
    table: DashMap<(String, u16, u16, bool, bool), (u64, u64, u64, u64), RandomState>,
) -> Map<(Seq<char>, u16, u16, bool, bool), (u64, u64, u64, u64)>;

/// The view of a base key in plain values.
pub open spec fn id_view(id: BaseId) -> BaseIdView {
    (id.0@, id.1, id.2, id.3, id.4)
}

/// The contents of an empty table.
pub open spec fn no_bitmaps() -> Map<BaseIdView, BitmapWords> {
    Map::empty()
}

/// `DashMap::new`: an empty table.
#[verifier::external_body]
fn table_new() -> (r: DashMap<BaseId, BitmapWords, RandomState>)
    ensures
        table_contents(r) == no_bitmaps(),
{
    DashMap::new()
}

/// `DashMap::get`: the value stored under a key, if there is one.
#[verifier::external_body]
fn table_get(table: &DashMap<BaseId, BitmapWords, RandomState>, id: &BaseId) -> (r: Option<
    BitmapWords,
>)
    ensures
        r == (if table_contents(*table).dom().contains(id_view(*id)) {
            Some(table_contents(*table)[id_view(*id)])
        } else {
            None
        }),
{
    table.get(id).map(|found| *found.value())
}

/// `DashMap::insert`: stores a value under a key, in place of an earlier one.
#[verifier::external_body]
fn table_insert(table: &mut DashMap<BaseId, BitmapWords, RandomState>, id: BaseId, bits: BitmapWords)
    ensures
        table_contents(*final(table)) == table_contents(*old(table)).insert(id_view(id), bits),
{
    table.insert(id, bits);
}

/// Whether a word has the bit `i` set.
pub open spec fn bit(w: u64, i: u8) -> bool {
    w & (1u64 << i) != 0
}

proof fn lemma_bit_or(w: u64, a: u8, i: u8)
    requires
        a < 64,
        i < 64,
    ensures
        bit(w | (1u64 << a), i) == (bit(w, i) || i == a),
{
    assert(((w | (1u64 << a)) & (1u64 << i) != 0) == (w & (1u64 << i) != 0 || i == a))
        by (bit_vector)
        requires
            a < 64,
            i < 64,
    ;
}

proof fn lemma_bit_below(w: u64, m: u8, i: u8)
    requires
        m < 63,
        i < 64,
    ensures
        (1u64 << ((m + 1) as u8)) >= 1,
        bit(w & ((1u64 << ((m + 1) as u8)) - 1) as u64, i) == (bit(w, i) && i <= m),
{
    assert((1u64 << ((m + 1) as u8)) >= 1 && ((w & ((1u64 << ((m + 1) as u8)) - 1) as u64) & (1u64
        << i) != 0) == (w & (1u64 << i) != 0 && i <= m)) by (bit_vector)
        requires
            m < 63,
            i < 64,
    ;
}

proof fn lemma_bit_clear(w: u64, a: u8, i: u8)
    requires
        a < 64,
        i < 64,
    ensures
        bit(w & !(1u64 << a), i) == (bit(w, i) && i != a),
{
    assert(((w & !(1u64 << a)) & (1u64 << i) != 0) == (w & (1u64 << i) != 0 && i != a))
        by (bit_vector)
        requires
            a < 64,
            i < 64,
    ;
}

proof fn lemma_bit_zero(i: u8)
    requires
        i < 64,
    ensures
        !bit(0, i),
{
    assert(0u64 & (1u64 << i) == 0) by (bit_vector);
}

/// Whether a prefix length exists in an address family: 1 is IPv4, 2 is IPv6.
pub open spec fn trackable(family: u16, prefix: u8) -> bool {
    (family == 1 && prefix <= 32) || (family == 2 && prefix <= 128)
}

/// The prefixes observed for one base key.
#[derive(Debug, Clone, Copy)]
pub struct EcsPrefixBitmap {
    pub ipv4: u64,
    pub ipv6: [u64; 3],
}

/// Prefixes still to be probed, as a set of bits over three words.
#[derive(Debug, Clone, Copy)]
pub struct EcsPrefixMask {
    pub words: [u64; 3],
}

/// Whether words of bits hold a prefix.
pub open spec fn words_have(w: (u64, u64, u64, u64), family: u16, prefix: u8) -> bool {
    trackable(family, prefix) && (if family == 1 {
        bit(w.0, prefix)
    } else if prefix < 64 {
        bit(w.1, prefix)
    } else if prefix < 128 {
        bit(w.2, (prefix - 64) as u8)
    } else {
        bit(w.3, (prefix - 128) as u8)
    })
}

impl EcsPrefixBitmap {
    /// The words of the bitmap.
    pub open spec fn words(self) -> (u64, u64, u64, u64) {
        (self.ipv4, self.ipv6[0], self.ipv6[1], self.ipv6[2])
    }

    /// Whether the bitmap holds a prefix.
    pub open spec fn has(self, family: u16, prefix: u8) -> bool {
        words_have(self.words(), family, prefix)
    }

    /// A bitmap without prefixes.
    pub fn empty() -> (r: EcsPrefixBitmap)
        ensures
            r.words() == (0u64, 0u64, 0u64, 0u64),
            forall|f: u16, p: u8| !r.has(f, p),
    {
        let r = EcsPrefixBitmap { ipv4: 0, ipv6: [0u64, 0u64, 0u64] };
        proof {
            assert forall|f: u16, p: u8| !r.has(f, p) by {
                if trackable(f, p) {
                    lemma_bit_zero(if f == 1 || p < 64 {
                        p
                    } else if p < 128 {
                        (p - 64) as u8
                    } else {
                        (p - 128) as u8
                    });
                }
            }
        }
        r
    }

    /// Records a prefix. Returns whether it is new; a prefix that does not exist
    /// in its family is not recorded.
    pub fn observe(&mut self, family: u16, prefix: u8) -> (r: bool)
        ensures
            r == (trackable(family, prefix) && !old(self).has(family, prefix)),
            forall|f: u16, p: u8| #[trigger]
                final(self).has(f, p) == (old(self).has(f, p) || (f == family && p == prefix
                    && trackable(family, prefix))),
    {
        let ghost before = *self;
        if family == 1 && prefix <= 32 {
            let mask: u64 = 1u64 << prefix;
            let inserted = self.ipv4 & mask == 0;
            self.ipv4 = self.ipv4 | mask;
            proof {
                assert forall|f: u16, p: u8| #[trigger]
                    self.has(f, p) == (before.has(f, p) || (f == family && p == prefix)) by {
                    if f == 1 && p <= 32 {
                        lemma_bit_or(before.ipv4, prefix, p);
                    }
                }
            }
            inserted
        } else if family == 2 && prefix <= 128 {
            let word: usize = (prefix / 64) as usize;
            let at: u8 = prefix % 64;
            let mask: u64 = 1u64 << at;
            let inserted = self.ipv6[word] & mask == 0;
            let updated: u64 = self.ipv6[word] | mask;
            self.ipv6[word] = updated;
            proof {
                assert(prefix == 64 * word + at);
                assert forall|f: u16, p: u8| #[trigger]
                    self.has(f, p) == (before.has(f, p) || (f == family && p == prefix)) by {
                    if f == 2 && p <= 128 {
                        let w = (p / 64) as int;
                        let i = (p % 64) as u8;
                        assert(p == 64 * w + i);
                        if w == word {
                            lemma_bit_or(before.ipv6[word as int], at, i);
                        }
                    }
                }
            }
            inserted
        } else {
            false
        }
    }

    /// The prefixes of a family that are no longer than `max_prefix`.
    pub fn snapshot_for(self, family: u16, max_prefix: u8) -> (r: EcsPrefixMask)
        ensures
            forall|p: u8| #[trigger] r.has(p) == (self.has(family, p) && p <= max_prefix),
    {
        if family != 1 && family != 2 {
            let r = EcsPrefixMask { words: [0u64, 0u64, 0u64] };
            proof {
                lemma_mask_empty(r);
            }
            return r;
        }
        let longest: u8 = if family == 1 {
            32
        } else {
            128
        };
        let max: u8 = if max_prefix < longest {
            max_prefix
        } else {
            longest
        };
        let all: [u64; 3] = if family == 1 {
            [self.ipv4, 0u64, 0u64]
        } else {
            self.ipv6
        };
        let max_word: usize = (max / 64) as usize;
        let max_bit: u8 = max % 64;
        let kept: u64 = if max_bit < 63 {
            proof {
                lemma_bit_below(all[max_word as int], max_bit, 0);
            }
            all[max_word] & ((1u64 << (max_bit + 1)) - 1)
        } else {
            all[max_word]
        };
        let words: [u64; 3] = if max_word == 0 {
            [kept, 0u64, 0u64]
        } else if max_word == 1 {
            [all[0], kept, 0u64]
        } else {
            [all[0], all[1], kept]
        };
        let r = EcsPrefixMask { words };
        proof {
            assert(max == 64 * max_word + max_bit);
            assert forall|p: u8| #[trigger]
                r.has(p) == (self.has(family, p) && p <= max_prefix) by {
                if p < 192 {
                    let w = (p / 64) as int;
                    let i = (p % 64) as u8;
                    assert(p == 64 * w + i);
                    lemma_bit_zero(i);
                    if w == max_word && max_bit < 63 {
                        lemma_bit_below(all[w], max_bit, i);
                    }
                }
            }
        }
        r
    }
}

proof fn lemma_mask_empty(m: EcsPrefixMask)
    requires
        m.words[0] == 0,
        m.words[1] == 0,
        m.words[2] == 0,
    ensures
        forall|p: u8| !m.has(p),
{
    assert forall|p: u8| !m.has(p) by {
        if p < 192 {
            lemma_bit_zero((p % 64) as u8);
        }
    }
}

/// The highest bit that is set in a word other than zero.
fn highest_bit(w: u64) -> (r: u8)
    requires
        w != 0,
    ensures
        r < 64,
        bit(w, r),
        forall|i: u8| i < 64 && bit(w, i) ==> i <= r,
{
    let mut r: u8 = 63;
    while r > 0 && w & (1u64 << r) == 0
        invariant
            r < 64,
            r < 63 ==> w >> ((r + 1) as u8) == 0,
        decreases r,
    {
        assert(r == 63 || w >> ((r + 1) as u8) == 0);
        assert(w >> r == 0) by (bit_vector)
            requires
                r < 64,
                r == 63 || w >> ((r + 1) as u8) == 0,
                w & (1u64 << r) == 0,
        ;
        r = r - 1;
    }
    assert forall|i: u8| i < 64 && bit(w, i) implies i <= r by {
        if i > r {
            assert(w & (1u64 << i) == 0) by (bit_vector)
                requires
                    r < i < 64,
                    w >> ((r + 1) as u8) == 0,
            ;
        }
    }
    if r == 0 {
        assert(w & (1u64 << 0u8) != 0) by (bit_vector)
            requires
                w >> 1u8 == 0,
                w != 0,
        ;
    }
    r
}

impl EcsPrefixMask {
    /// Whether the mask holds a prefix.
    pub open spec fn has(self, prefix: u8) -> bool {
        prefix < 192 && bit(self.words[(prefix / 64) as int], (prefix % 64) as u8)
    }

    /// Takes the longest prefix out.
    pub fn pop_highest(&mut self) -> (r: Option<u8>)
        ensures
            match r {
                Some(p) => {
                    &&& old(self).has(p)
                    &&& forall|q: u8| #[trigger] old(self).has(q) ==> q <= p
                    &&& forall|q: u8| #[trigger] final(self).has(q) == (old(self).has(q) && q != p)
                },
                None => (forall|q: u8| !#[trigger] old(self).has(q)) && *final(self) == *old(self),
            },
    {
        let ghost before = *self;
        let mut left: usize = 3;
        while left > 0
            invariant
                left <= 3,
                *self == before,
                before == *old(self),
                forall|q: u8| #[trigger] before.has(q) ==> q < 64 * left,
            decreases left,
        {
            left = left - 1;
            let word: u64 = self.words[left];
            if word != 0 {
                let at: u8 = highest_bit(word);
                let cleared: u64 = word & !(1u64 << at);
                self.words[left] = cleared;
                let p: u8 = (left as u8) * 64 + at;
                proof {
                    assert((p / 64) as int == left && p % 64 == at);
                    assert(before.has(p));
                    assert forall|q: u8| #[trigger] before.has(q) implies q <= p by {
                        if (q / 64) as int == left {
                            assert(bit(word, (q % 64) as u8));
                            assert(q == 64 * left + q % 64);
                        }
                    }
                    assert forall|q: u8| #[trigger] self.has(q) == (before.has(q) && q != p) by {
                        if q < 192 && (q / 64) as int == left {
                            lemma_bit_clear(word, at, (q % 64) as u8);
                            assert(q == 64 * left + q % 64);
                        }
                    }
                }
                return Some(p);
            }
            proof {
                assert forall|q: u8| #[trigger] before.has(q) implies q < 64 * left by {
                    if (q / 64) as int == left {
                        lemma_bit_zero((q % 64) as u8);
                    }
                }
            }
        }
        None
    }
}

/// A hint: under a base key, a prefix of an address family has been observed.
pub type Hint = (BaseIdView, u16, u8);

/// The number of values of a counter, after which it starts again from zero.
pub open spec fn counter_range() -> nat {
    0x1_0000_0000_0000_0000
}

/// The plain values of a base key.
pub open spec fn base_id(b: EcsBaseView) -> BaseIdView {
    (b.domain, b.record_type.number(), b.dns_class.number(), b.do_bit, b.cd_bit)
}

/// The hint that a reusable key gives.
pub open spec fn hint_of(k: CacheKeyView) -> Hint
    recommends
        k.reusable(),
{
    (base_id(k.base()), k.ecs_scope->0.family, k.ecs_scope->0.scope_prefix)
}

/// Whether a key gives a hint.
pub open spec fn gives_hint(k: CacheKeyView) -> bool {
    k.reusable() && trackable(k.ecs_scope->0.family, k.ecs_scope->0.scope_prefix)
}

/// The hints with the one of `k` added, where it gives one.
pub open spec fn hints_with(hints: Set<Hint>, k: CacheKeyView) -> Set<Hint> {
    if gives_hint(k) {
        hints.insert(hint_of(k))
    } else {
        hints
    }
}

/// The base keys that have a hint.
pub open spec fn hinted_bases(hints: Set<Hint>) -> Set<BaseIdView> {
    hints.map(|h: Hint| h.0)
}

/// The hints of an address family.
pub open spec fn family_hints(hints: Set<Hint>, family: u16) -> Set<Hint> {
    hints.filter(|h: Hint| h.1 == family)
}

/// The hints in a table.
pub open spec fn hints_of(c: Map<BaseIdView, BitmapWords>) -> Set<Hint> {
    Set::new(|h: Hint| c.dom().contains(h.0) && words_have(c[h.0], h.1, h.2))
}

/// A table of bitmaps with its counters.
struct EcsTable {
    entries: DashMap<BaseId, BitmapWords, RandomState>,
    base_keys: u64,
    ipv4: u64,
    ipv6: u64,
}

impl EcsTable {
    spec fn contents(&self) -> Map<BaseIdView, BitmapWords> {
        table_contents(self.entries)
    }

    spec fn hints(&self) -> Set<Hint> {
        hints_of(self.contents())
    }

    spec fn wf(&self) -> bool {
        &&& self.hints().finite()
        &&& self.contents().dom() == hinted_bases(self.hints())
        &&& self.base_keys == hinted_bases(self.hints()).len() % counter_range()
        &&& self.ipv4 == family_hints(self.hints(), 1).len() % counter_range()
        &&& self.ipv6 == family_hints(self.hints(), 2).len() % counter_range()
    }

    fn new() -> (r: EcsTable)
        ensures
            r.wf(),
            r.hints() == Set::<Hint>::empty(),
    {
        let r = EcsTable { entries: table_new(), base_keys: 0, ipv4: 0, ipv6: 0 };
        proof {
            assert(r.hints() =~= Set::<Hint>::empty());
            assert(hinted_bases(r.hints()) =~= Set::<BaseIdView>::empty());
            assert(r.contents().dom() =~= Set::<BaseIdView>::empty());
            assert(family_hints(r.hints(), 1) =~= Set::<Hint>::empty());
            assert(family_hints(r.hints(), 2) =~= Set::<Hint>::empty());
        }
        r
    }

    fn bitmap(&self, id: &BaseId) -> (r: Option<EcsPrefixBitmap>)
        ensures
            match r {
                Some(b) => self.contents().dom().contains(id_view(*id)) && self.contents()[id_view(
                    *id,
                )] == b.words(),
                None => !self.contents().dom().contains(id_view(*id)),
            },
    {
        match table_get(&self.entries, id) {
            Some(w) => Some(EcsPrefixBitmap { ipv4: w.0, ipv6: [w.1, w.2, w.3] }),
            None => None,
        }
    }

    fn observe(&mut self, key: &CacheKey, family: u16, prefix: u8)
        requires
            old(self).wf(),
        ensures
            final(self).wf(),
            final(self).hints() == (if trackable(family, prefix) {
                old(self).hints().insert((base_id(key@.base()), family, prefix))
            } else {
                old(self).hints()
            }),
    {
        let id = id_of(key);
        let ghost v = id_view(id);
        let ghost hint: Hint = (v, family, prefix);
        let ghost before = self.contents();
        let known = self.bitmap(&id);
        let vacant = known.is_none();
        let mut bitmap = match known {
            Some(b) => b,
            None => EcsPrefixBitmap::empty(),
        };
        let ghost start = bitmap;
        let inserted = bitmap.observe(family, prefix);
        if inserted {
            table_insert(
                &mut self.entries,
                id,
                (bitmap.ipv4, bitmap.ipv6[0], bitmap.ipv6[1], bitmap.ipv6[2]),
            );
            if vacant {
                self.base_keys = self.base_keys.wrapping_add(1);
            }
            if family == 1 {
                self.ipv4 = self.ipv4.wrapping_add(1);
            } else {
                self.ipv6 = self.ipv6.wrapping_add(1);
            }
        }
        proof {
            let old_hints = hints_of(before);
            let now = self.hints();
            if inserted {
                assert(self.contents() == before.insert(v, bitmap.words()));
                assert(now =~= old_hints.insert(hint)) by {
                    assert forall|h: Hint| now.contains(h) == old_hints.insert(hint).contains(h) by {
                        if h.0 == v {
                            assert(bitmap.has(h.1, h.2) == (start.has(h.1, h.2) || (h.1 == family
                                && h.2 == prefix)));
                        }
                    }
                }
                assert(!old_hints.contains(hint));
                assert(hinted_bases(now) =~= hinted_bases(old_hints).insert(v)) by {
                    assert forall|b: BaseIdView|
                        hinted_bases(now).contains(b) == hinted_bases(old_hints).insert(v).contains(
                            b,
                        ) by {
                        if hinted_bases(old_hints).contains(b) {
                            let h = choose|h: Hint| old_hints.contains(h) && h.0 == b;
                            assert(now.contains(h));
                        }
                        if b == v {
                            assert(now.contains(hint));
                        }
                        if hinted_bases(now).contains(b) && b != v {
                            let h = choose|h: Hint| now.contains(h) && h.0 == b;
                            assert(old_hints.contains(h));
                        }
                    }
                }
                lemma_hinted_finite(old_hints);
                let here = family_hints(old_hints, family);
                assert(family_hints(now, family) =~= here.insert(hint));
                if family == 1 {
                    assert(family_hints(now, 2) =~= family_hints(old_hints, 2));
                } else {
                    assert(family_hints(now, 1) =~= family_hints(old_hints, 1));
                }
                lemma_filter_finite(old_hints, family);
                assert(self.contents().dom() =~= hinted_bases(now));
            } else if trackable(family, prefix) {
                assert(start.has(family, prefix));
                assert(old_hints.contains(hint));
                assert(old_hints.insert(hint) =~= old_hints);
            }
        }
    }
}

proof fn lemma_hinted_finite(h: Set<Hint>)
    requires
        h.finite(),
    ensures
        hinted_bases(h).finite(),
{
    h.lemma_map_finite(|x: Hint| x.0);
}

proof fn lemma_filter_finite(h: Set<Hint>, family: u16)
    requires
        h.finite(),
    ensures
        family_hints(h, family).finite(),
{
    h.lemma_len_filter(|x: Hint| x.1 == family);
}

/// The plain values of the base of a key.
fn id_of(key: &CacheKey) -> (r: BaseId)
    ensures
        id_view(r) == base_id(key@.base()),
{
    let base = EcsBaseKey::from_cache_key(key);
    (base.domain, base.record_type.to_u16(), base.dns_class.to_u16(), base.do_bit, base.cd_bit)
}

/// A rebuild in progress.
#[derive(Debug, PartialEq, Eq)]
pub struct EcsRebuild {
    id: u64,
}

impl EcsRebuild {
    pub closed spec fn view(&self) -> u64 {
        self.id
    }
}

/// The mathematical content of an [`EcsLookupIndex`].
#[verifier::ext_equal]
pub struct EcsIndexView {
    /// The hints that lookups use.
    pub hints: Set<Hint>,
    /// The rebuild in progress and the hints that it has gathered.
    pub rebuild: Option<(u64, Set<Hint>)>,
    /// Advances with each removal that may leave a hint without an entry.
    pub stale_revision: u64,
    /// The stale revision that the last rebuild accounts for.
    pub rebuilt_revision: u64,
}

/// The index once a key has been recorded.
pub open spec fn published(v: EcsIndexView, k: CacheKeyView) -> EcsIndexView {
    EcsIndexView {
        hints: hints_with(v.hints, k),
        rebuild: match v.rebuild {
            Some(r) => Some((r.0, hints_with(r.1, k))),
            None => None,
        },
        ..v
    }
}

/// The index once a rebuild has come across a key.
pub open spec fn scanned(v: EcsIndexView, id: u64, k: CacheKeyView) -> EcsIndexView {
    EcsIndexView {
        rebuild: match v.rebuild {
            Some(r) => if r.0 == id {
                Some((r.0, hints_with(r.1, k)))
            } else {
                Some(r)
            },
            None => None,
        },
        ..v
    }
}

/// The index once hints may have lost their entries.
pub open spec fn outdated(v: EcsIndexView) -> EcsIndexView {
    EcsIndexView { stale_revision: v.stale_revision.wrapping_add(1), ..v }
}

/// The index once a rebuild has begun.
pub open spec fn rebuilding(v: EcsIndexView, id: u64) -> EcsIndexView {
    EcsIndexView { rebuild: Some((id, Set::empty())), ..v }
}

/// The index once a rebuild has been published.
pub open spec fn rebuilt_with(v: EcsIndexView, stale_revision: u64) -> EcsIndexView {
    EcsIndexView {
        hints: (v.rebuild->0).1,
        rebuild: None,
        stale_revision: v.stale_revision,
        rebuilt_revision: stale_revision,
    }
}

/// The reusable subnet prefixes in the cache, by base key.
pub struct EcsLookupIndex {
    live: EcsTable,
    shadow: Option<EcsTable>,
    shadow_id: u64,
    stale_revision: u64,
    rebuilt_revision: u64,
}

impl EcsLookupIndex {
    pub closed spec fn view(&self) -> EcsIndexView {
        EcsIndexView {
            hints: self.live.hints(),
            rebuild: match self.shadow {
                Some(t) => Some((self.shadow_id, t.hints())),
                None => None,
            },
            stale_revision: self.stale_revision,
            rebuilt_revision: self.rebuilt_revision,
        }
    }

    pub closed spec fn wf(&self) -> bool {
        self.live.wf() && (match self.shadow {
            Some(t) => t.wf(),
            None => true,
        })
    }

    /// An index without hints.
    pub fn new() -> (r: EcsLookupIndex)
        ensures
            r.wf(),
            r@ == (EcsIndexView {
                hints: Set::empty(),
                rebuild: None,
                stale_revision: 0,
                rebuilt_revision: 0,
            }),
    {
        EcsLookupIndex {
            live: EcsTable::new(),
            shadow: None,
            shadow_id: 0,
            stale_revision: 0,
            rebuilt_revision: 0,
        }
    }

    /// Whether a key can be shared by requests, so that the index records it.
    pub fn tracks_cache_key(key: &CacheKey) -> (r: bool)
        ensures
            r == key@.reusable(),
    {
        match &key.ecs_scope {
            Some(ecs) => ecs.source_prefix == ecs.scope_prefix,
            None => false,
        }
    }

    /// Records a reusable key, in the rebuild in progress as well.
    pub fn observe_cache_key(&mut self, key: &CacheKey)
        requires
            old(self).wf(),
        ensures
            final(self).wf(),
            final(self)@ == published(old(self)@, key@),
    {
        if let Some(ecs) = &key.ecs_scope {
            if ecs.source_prefix == ecs.scope_prefix {
                self.live.observe(key, ecs.family, ecs.scope_prefix);
                if let Some(shadow) = &mut self.shadow {
                    shadow.observe(key, ecs.family, ecs.scope_prefix);
                }
            }
        }
    }

    /// Records a reusable key in a rebuild only, where it is still in progress.
    pub fn observe_rebuilt(&mut self, rebuilt: &EcsRebuild, key: &CacheKey)
        requires
            old(self).wf(),
        ensures
            final(self).wf(),
            final(self)@ == scanned(old(self)@, rebuilt@, key@),
    {
        if self.shadow_id == rebuilt.id {
            if let Some(ecs) = &key.ecs_scope {
                if ecs.source_prefix == ecs.scope_prefix {
                    if let Some(shadow) = &mut self.shadow {
                        shadow.observe(key, ecs.family, ecs.scope_prefix);
                    }
                }
            }
        }
    }

    /// Notes that an entry has left the cache, where its key was recorded.
    pub fn mark_cache_key_maybe_stale(&mut self, key: &CacheKey)
        requires
            old(self).wf(),
        ensures
            final(self).wf(),
            final(self)@ == (if key@.reusable() {
                outdated(old(self)@)
            } else {
                old(self)@
            }),
    {
        if Self::tracks_cache_key(key) {
            self.mark_rebuild_needed();
        }
    }

    /// Notes that hints may have lost their entries.
    pub fn mark_rebuild_needed(&mut self)
        requires
            old(self).wf(),
        ensures
            final(self).wf(),
            final(self)@ == outdated(old(self)@),
    {
        self.stale_revision = self.stale_revision.wrapping_add(1);
    }

    /// Whether entries have left the cache since the last rebuild began.
    pub fn needs_rebuild(&self) -> (r: bool)
        ensures
            r == (self@.stale_revision != self@.rebuilt_revision),
    {
        self.stale_revision != self.rebuilt_revision
    }

    /// The number of removals that may have left hints without entries.
    pub fn stale_revision(&self) -> (r: u64)
        ensures
            r == self@.stale_revision,
    {
        self.stale_revision
    }

    /// Starts a rebuild where one is needed and none is in progress. Returns it
    /// with the stale revision that it accounts for.
    pub fn begin_rebuild(&mut self) -> (r: Option<(EcsRebuild, u64)>)
        requires
            old(self).wf(),
        ensures
            final(self).wf(),
            r is Some <==> old(self)@.rebuild is None && old(self)@.stale_revision != old(
                self,
            )@.rebuilt_revision,
            match r {
                Some(started) => {
                    &&& started.1 == old(self)@.stale_revision
                    &&& final(self)@ == rebuilding(old(self)@, started.0@)
                },
                None => final(self)@ == old(self)@,
            },
    {
        if self.shadow.is_some() || self.stale_revision == self.rebuilt_revision {
            return None;
        }
        self.shadow_id = self.shadow_id.wrapping_add(1);
        self.shadow = Some(EcsTable::new());
        Some((EcsRebuild { id: self.shadow_id }, self.stale_revision))
    }

    /// Publishes the hints of a rebuild that is still in progress. Removals during
    /// the rebuild keep the index in need of another one.
    pub fn commit_rebuild(&mut self, rebuilt: &EcsRebuild, stale_revision: u64) -> (r: bool)
        requires
            old(self).wf(),
        ensures
            final(self).wf(),
            r == (old(self)@.rebuild is Some && (old(self)@.rebuild->0).0 == rebuilt@),
            final(self)@ == (if r {
                rebuilt_with(old(self)@, stale_revision)
            } else {
                old(self)@
            }),
    {
        if self.shadow_id != rebuilt.id {
            return false;
        }
        match self.shadow.take() {
            Some(table) => {
                self.live = table;
                self.rebuilt_revision = stale_revision;
                true
            },
            None => false,
        }
    }

    /// The recorded prefixes that cover the subnet of a request's key.
    pub fn snapshot_for(&self, key: &CacheKey) -> (r: EcsPrefixMask)
        requires
            self.wf(),
        ensures
            forall|p: u8| #[trigger] r.has(p) == covers(self@.hints, key@, p),
    {
        let none = EcsPrefixMask { words: [0u64, 0u64, 0u64] };
        proof {
            lemma_mask_empty(none);
        }
        match &key.ecs_scope {
            None => none,
            Some(ecs) => {
                let id = id_of(key);
                match self.live.bitmap(&id) {
                    Some(bitmap) => bitmap.snapshot_for(ecs.family, ecs.source_prefix),
                    None => none,
                }
            },
        }
    }

    /// The number of base keys with a hint.
    pub fn indexed_base_keys(&self) -> (r: u64)
        requires
            self.wf(),
        ensures
            r == hinted_bases(self@.hints).len() % counter_range(),
    {
        self.live.base_keys
    }

    /// The number of hints on IPv4 prefixes.
    pub fn observed_ipv4_prefixes(&self) -> (r: u64)
        requires
            self.wf(),
        ensures
            r == family_hints(self@.hints, 1).len() % counter_range(),
    {
        self.live.ipv4
    }

    /// The number of hints on IPv6 prefixes.
    pub fn observed_ipv6_prefixes(&self) -> (r: u64)
        requires
            self.wf(),
        ensures
            r == family_hints(self@.hints, 2).len() % counter_range(),
    {
        self.live.ipv6
    }
}

/// Whether a hint under the base of `key` is on a prefix of its subnet.
pub open spec fn covers(hints: Set<Hint>, key: CacheKeyView, prefix: u8) -> bool {
    match key.ecs_scope {
        Some(e) => prefix <= e.source_prefix && hints.contains(
            (base_id(key.base()), e.family, prefix),
        ),
        None => false,
    }
}

/// The shared keys to probe for `key` whose prefix is below `n`, longest first.
pub open spec fn covering_keys(hints: Set<Hint>, key: CacheKeyView, n: int) -> Seq<CacheKeyView>
    decreases n,
{
    if n <= 0 {
        Seq::empty()
    } else if covers(hints, key, (n - 1) as u8) {
        seq![key.scoped((n - 1) as u8)] + covering_keys(hints, key, n - 1)
    } else {
        covering_keys(hints, key, n - 1)
    }
}

/// The keys to probe for a request: the shared keys that cover its subnet, longest
/// prefix first, and then the request's own key, each once.
pub open spec fn candidates(hints: Set<Hint>, key: CacheKeyView) -> Seq<CacheKeyView> {
    let shared = covering_keys(hints, key, 256);
    if shared.contains(key) {
        shared
    } else {
        shared.push(key)
    }
}

/// The views of a list of keys.
pub open spec fn cache_key_views(v: Seq<CacheKey>) -> Seq<CacheKeyView> {
    Seq::new(v.len(), |i: int| v[i]@)
}

proof fn lemma_covering_gap(hints: Set<Hint>, key: CacheKeyView, n: int, m: int)
    requires
        0 <= m <= n <= 256,
        forall|p: u8| m <= p < n ==> !covers(hints, key, p),
    ensures
        covering_keys(hints, key, n) == covering_keys(hints, key, m),
    decreases n - m,
{
    if m < n {
        assert(!covers(hints, key, (n - 1) as u8));
        lemma_covering_gap(hints, key, n - 1, m);
    }
}

/// The keys to probe for a request, in the order in which to probe them.
pub fn cache_lookup_keys(key: &CacheKey, index: &EcsLookupIndex) -> (r: Vec<CacheKey>)
    requires
        index.wf(),
        key@.wf(),
    ensures
        cache_key_views(r@) == candidates(index@.hints, key@),
{
    let ghost hints = index@.hints;
    let mut left = index.snapshot_for(key);
    let mut out: Vec<CacheKey> = Vec::new();
    let mut exact_pending = true;
    let mut more = true;
    let ghost mut below: int = 256;
    while more
        invariant
            0 <= below <= 256,
            hints == index@.hints,
            key@.wf(),
            forall|p: u8| #[trigger] left.has(p) == (covers(hints, key@, p) && p < below),
            cache_key_views(out@) + covering_keys(hints, key@, below) == covering_keys(
                hints,
                key@,
                256,
            ),
            !more ==> below == 0,
            exact_pending == !cache_key_views(out@).contains(key@),
        decreases below + (if more {
                1int
            } else {
                0
            }),
    {
        let ghost all = left;
        match left.pop_highest() {
            Some(p) => {
                let candidate = key.with_ecs_scope_prefix(p);
                let ghost before = out@;
                if candidate.same(key) {
                    exact_pending = false;
                }
                out.push(candidate);
                proof {
                    assert(cache_key_views(out@) =~= cache_key_views(before).push(key@.scoped(p)));
                    assert(covers(hints, key@, p));
                    assert forall|q: u8| p < q < below implies !covers(hints, key@, q) by {
                        assert(!all.has(q));
                    }
                    lemma_covering_gap(hints, key@, below, p + 1);
                    assert(covering_keys(hints, key@, p + 1) == seq![key@.scoped(p)]
                        + covering_keys(hints, key@, p as int));
                    assert(cache_key_views(out@) + covering_keys(hints, key@, p as int)
                        =~= cache_key_views(before) + covering_keys(hints, key@, below));
                    let v = cache_key_views(out@);
                    if cache_key_views(before).contains(key@) {
                        let i = choose|i: int|
                            0 <= i < before.len() && cache_key_views(before)[i] == key@;
                        assert(v[i] == key@);
                    }
                    assert(v[before.len() as int] == key@.scoped(p));
                    if v.contains(key@) && key@.scoped(p) != key@ {
                        let i = choose|i: int| 0 <= i < v.len() && v[i] == key@;
                        assert(cache_key_views(before)[i] == key@);
                    }
                    below = p as int;
                }
            },
            None => {
                more = false;
                proof {
                    assert forall|q: u8| 0 <= q < below implies !covers(hints, key@, q) by {
                        assert(!left.has(q));
                    }
                    lemma_covering_gap(hints, key@, below, 0);
                    below = 0;
                }
            },
        }
    }
    assert(cache_key_views(out@) + covering_keys(hints, key@, 0) =~= cache_key_views(out@));
    if exact_pending {
        let ghost before = out@;
        out.push(key.copy());
        assert(cache_key_views(out@) =~= cache_key_views(before).push(key@));
    }
    out
}

proof fn lemma_covering_contains(hints: Set<Hint>, key: CacheKeyView, n: int, prefix: u8)
    requires
        prefix < n <= 256,
        covers(hints, key, prefix),
    ensures
        covering_keys(hints, key, n).contains(key.scoped(prefix)),
    decreases n,
{
    let all = covering_keys(hints, key, n);
    let rest = covering_keys(hints, key, n - 1);
    if prefix == n - 1 {
        assert(all[0] == key.scoped(prefix));
    } else {
        lemma_covering_contains(hints, key, n - 1, prefix);
        let i = choose|i: int| 0 <= i < rest.len() && rest[i] == key.scoped(prefix);
        if covers(hints, key, (n - 1) as u8) {
            assert(all[i + 1] == rest[i]);
        }
    }
}

/// A lookup cannot miss a shared entry through the index: where the key of a shared
/// entry is the request's own subnet cut to a prefix, and the key has been
/// recorded, it is among the keys to probe. The request's own key always is.
pub proof fn law_candidates_complete(hints: Set<Hint>, request: CacheKeyView, prefix: u8)
    requires
        request.ecs_scope is Some ==> prefix <= request.ecs_scope->0.source_prefix,
    ensures
        candidates(hints, request).contains(request),
        request.ecs_scope is Some && hints.contains(hint_of(request.scoped(prefix)))
            ==> candidates(hints, request).contains(request.scoped(prefix)),
{
    let shared = covering_keys(hints, request, 256);
    if !shared.contains(request) {
        let all = shared.push(request);
        assert(all[shared.len() as int] == request);
    }
    if request.ecs_scope is Some && hints.contains(hint_of(request.scoped(prefix))) {
        lemma_covering_contains(hints, request, 256, prefix);
        let i = choose|i: int| 0 <= i < shared.len() && shared[i] == request.scoped(prefix);
        assert(shared.push(request)[i] == request.scoped(prefix));
    }
}

/// A request without a subnet probes its own key and nothing else.
pub proof fn law_candidates_without_subnet(hints: Set<Hint>, request: CacheKeyView)
    requires
        request.ecs_scope is None,
    ensures
        candidates(hints, request) == seq![request],
{
    lemma_covering_gap(hints, request, 256, 0);
    assert(candidates(hints, request) =~= seq![request]);
}

/// What happens to an index while it is rebuilt.
pub enum IndexChange {
    /// A key is recorded, since its entry is being published.
    Published(CacheKeyView),
    /// The rebuild comes across a key.
    Scanned(CacheKeyView),
    /// An entry leaves the cache.
    Removed,
}

/// The index after a change during the rebuild with this number.
pub open spec fn changed(v: EcsIndexView, id: u64, c: IndexChange) -> EcsIndexView {
    match c {
        IndexChange::Published(k) => published(v, k),
        IndexChange::Scanned(k) => scanned(v, id, k),
        IndexChange::Removed => outdated(v),
    }
}

/// The index after changes during the rebuild with this number.
pub open spec fn changed_by(v: EcsIndexView, id: u64, changes: Seq<IndexChange>) -> EcsIndexView
    decreases changes.len(),
{
    if changes.len() == 0 {
        v
    } else {
        changed(changed_by(v, id, changes.drop_last()), id, changes.last())
    }
}

/// Whether a rebuilt index accounts for a change during its rebuild: a recorded key has
/// its hint, and a removal calls for another rebuild.
pub open spec fn accounts_for(v: EcsIndexView, c: IndexChange) -> bool {
    match c {
        IndexChange::Published(k) => gives_hint(k) ==> v.hints.contains(hint_of(k)),
        IndexChange::Scanned(k) => gives_hint(k) ==> v.hints.contains(hint_of(k)),
        IndexChange::Removed => v.stale_revision != v.rebuilt_revision,
    }
}

spec fn removals(changes: Seq<IndexChange>) -> nat
    decreases changes.len(),
{
    if changes.len() == 0 {
        0
    } else {
        removals(changes.drop_last()) + (if changes.last() is Removed {
            1nat
        } else {
            0
        })
    }
}

proof fn lemma_removals(changes: Seq<IndexChange>, i: int)
    requires
        0 <= i < changes.len(),
        changes[i] is Removed,
    ensures
        removals(changes) > 0,
    decreases changes.len(),
{
    if i < changes.len() - 1 {
        lemma_removals(changes.drop_last(), i);
    }
}

proof fn lemma_stale_after(v: EcsIndexView, id: u64, changes: Seq<IndexChange>)
    ensures
        removals(changes) <= changes.len(),
        ({
            let w = changed_by(rebuilding(v, id), id, changes);
            &&& w.rebuild is Some && (w.rebuild->0).0 == id
            &&& w.stale_revision == (v.stale_revision + removals(changes)) % counter_range() as int
        }),
    decreases changes.len(),
{
    if changes.len() > 0 {
        lemma_stale_after(v, id, changes.drop_last());
    }
}

/// A rebuild loses no key that was recorded, or that it came across, while it ran.
/// Where an entry left the cache meanwhile, the index is still in need of a rebuild.
pub proof fn law_rebuild_keeps_what_was_published(
    v: EcsIndexView,
    id: u64,
    changes: Seq<IndexChange>,
    i: int,
)
    requires
        0 <= i < changes.len() < counter_range(),
    ensures
        ({
            let before = changed_by(rebuilding(v, id), id, changes);
            let after = rebuilt_with(before, v.stale_revision);
            &&& before.rebuild is Some && (before.rebuild->0).0 == id
            &&& accounts_for(after, changes[i])
        }),
    decreases changes.len(),
{
    lemma_stale_after(v, id, changes);
    lemma_stale_after(v, id, changes.drop_last());
    if changes[i] is Removed {
        lemma_removals(changes, i);
    }
    if i < changes.len() - 1 {
        law_rebuild_keeps_what_was_published(v, id, changes.drop_last(), i);
    }
}

} // verus!
