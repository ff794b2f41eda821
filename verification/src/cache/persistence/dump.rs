//! Writing a dump of a cache.

use vstd::prelude::*;

use crate::bytes::{lemma_le_len, slice_bytes};
use crate::cache::dump_wire::{
    entry_fits, entry_size, entry_wire, first_over, frame_wire, frames_wire, header_wire,
    lemma_entry_len, lemma_wire_lens, over_limit_text, tuple_view, tuple_views, write_entry,
    write_header, write_u64, EntryTuple, HeaderTuple, PersistedCacheEntry, PersistedView,
};
use crate::cache::item::{since, CacheItem, CacheItemView};
use crate::cache::key::{
    canonical_ecs, canonical_ecs_key_digest, CacheKey, CacheKeyView, EcsScopeView,
};
use crate::cache::persistence::error::{
    serialized_size_to_usize, CACHE_DUMP_MAGIC, CACHE_DUMP_VERSION, DumpError, DumpErrorView,
    MAX_PERSISTED_CACHE_DUMP_BYTES,
};
use crate::cache::policy::{is_cache_disposition_valid, response_disposition_for_cache};
use crate::cache::store::{entries_of, servable, slot_view, CacheMap};
use crate::proto::wire::{encodable, encode_message};
use crate::ttl_cache::{key_views, slot_of, Slot, TtlEntry};

verus! {

/// The stored form of a subnet.
pub open spec fn stored_scope(e: Option<EcsScopeView>) -> (
    Option<u16>,
    Option<u8>,
    Option<u8>,
    Option<Seq<u8>>,
) {
    match e {
        Some(d) => (
            Some(d.family),
            Some(d.source_prefix),
            Some(d.scope_prefix),
            Some(d.significant()),
        ),
        None => (None, None, None, None),
    }
}

/// Whether the subnet of a key can be stored.
pub open spec fn scope_storable(e: Option<EcsScopeView>) -> bool {
    match e {
        Some(d) => d.network_len <= 16 && canonical_ecs(
            d.family,
            d.source_prefix,
            d.scope_prefix,
            d.significant(),
        ),
        None => true,
    }
}

/// The stored form of an entry, where it is stored: it has not expired, answers its
/// key, and its response and subnet can be written.
pub open spec fn persisted_entry(
    k: CacheKeyView,
    slot: Slot<CacheItemView>,
    now_elapsed_ms: u64,
) -> Option<PersistedView> {
    let scope = stored_scope(k.ecs_scope);
    if slot.expire_at_ms <= now_elapsed_ms || !servable(slot.value, k) || !encodable(
        slot.value.resp,
    ) || !scope_storable(k.ecs_scope) {
        None
    } else {
        Some(
            PersistedView {
                domain: k.domain,
                record_type: k.record_type.number(),
                dns_class: k.dns_class.number(),
                do_bit: k.do_bit,
                cd_bit: k.cd_bit,
                ecs_family: scope.0,
                ecs_source_prefix: scope.1,
                ecs_scope_prefix: scope.2,
                ecs_network: scope.3,
                resp_bytes: encode_message(slot.value.resp),
                cache_age_ms: slot.value.age(slot.cache_time_ms, now_elapsed_ms),
                last_access_age_ms: since(now_elapsed_ms, slot.last_access_ms),
                ttl: slot.value.ttl,
                remaining_ttl_ms: (slot.expire_at_ms - now_elapsed_ms) as u64,
            },
        )
    }
}

/// The stored form of an entry, where it is stored.
pub fn prepare_persisted_entry(
    key: &CacheKey,
    item: &TtlEntry<CacheKey, CacheItem>,
    now_elapsed_ms: u64,
) -> (r: Option<PersistedCacheEntry>)
    ensures
        match r {
            Some(e) => persisted_entry(key@, slot_view(slot_of(*item)), now_elapsed_ms) == Some(e@),
            None => persisted_entry(key@, slot_view(slot_of(*item)), now_elapsed_ms) is None,
        },
{
    let value = &item.value;
    if item.expire_at_ms <= now_elapsed_ms {
        return None;
    }
    let remaining_ttl_ms: u64 = item.expire_at_ms - now_elapsed_ms;
    if !value.is_validated() {
        let disposition = response_disposition_for_cache(&value.resp, key);
        if !is_cache_disposition_valid(disposition) {
            return None;
        }
    }
    let resp_bytes = match value.resp.to_bytes() {
        Ok(bytes) => bytes,
        Err(_) => return None,
    };
    let (ecs_family, ecs_source_prefix, ecs_scope_prefix, ecs_network) = match &key.ecs_scope {
        Some(ecs) => {
            if ecs.network_len > 16 {
                return None;
            }
            let network = slice_bytes(ecs.network.as_slice(), 0, ecs.network_len as usize);
            assert(network@ =~= ecs@.significant());
            if canonical_ecs_key_digest(
                ecs.family,
                ecs.source_prefix,
                ecs.scope_prefix,
                network.as_slice(),
            ).is_none() {
                return None;
            }
            (
                Some(ecs.family),
                Some(ecs.source_prefix),
                Some(ecs.scope_prefix),
                Some(network),
            )
        },
        None => (None, None, None, None),
    };
    Some(
        PersistedCacheEntry {
            domain: key.domain.clone(),
            record_type: key.record_type.to_u16(),
            dns_class: key.dns_class.to_u16(),
            do_bit: key.do_bit,
            cd_bit: key.cd_bit,
            ecs_family,
            ecs_source_prefix,
            ecs_scope_prefix,
            ecs_network,
            resp_bytes,
            cache_age_ms: value.total_cache_age_ms(item.cache_time_ms, now_elapsed_ms),
            last_access_age_ms: now_elapsed_ms.saturating_sub(item.last_access_ms),
            ttl: value.ttl,
            remaining_ttl_ms,
        },
    )
}

/// The stored forms of the entries of `keys`, in that order.
pub open spec fn persisted_all(
    entries: Map<CacheKeyView, Slot<CacheItemView>>,
    keys: Seq<CacheKeyView>,
    now_elapsed_ms: u64,
) -> Seq<PersistedView>
    decreases keys.len(),
{
    if keys.len() == 0 {
        Seq::empty()
    } else {
        let rest = persisted_all(entries, keys.drop_last(), now_elapsed_ms);
        match persisted_entry(keys.last(), entries[keys.last()], now_elapsed_ms) {
            Some(e) => rest.push(e),
            None => rest,
        }
    }
}

/// The octets of a current dump.
pub open spec fn framed_wire(entries: Seq<PersistedView>, dumped_at_unix_ms: u64) -> Seq<u8> {
    header_wire(
        (CACHE_DUMP_MAGIC, CACHE_DUMP_VERSION, dumped_at_unix_ms, entries.len() as u64),
    ) + frames_wire(entries)
}

/// The number of octets of a current dump.
pub open spec fn framed_len(entries: Seq<PersistedView>) -> int {
    28 + frames_wire(entries).len() as int
}

/// A dump, or the word that it is larger than the limit.
#[derive(Debug, PartialEq, Eq)]
pub enum CacheDumpOutcome {
    Complete(Vec<u8>),
    TooLarge { limit: usize, minimum_size: usize },
}

/// Whether `keys` are the keys of the entries, each once.
pub open spec fn lists_keys(
    entries: Map<CacheKeyView, Slot<CacheItemView>>,
    keys: Seq<CacheKeyView>,
) -> bool {
    &&& keys.no_duplicates()
    &&& forall|k: CacheKeyView| keys.contains(k) <==> entries.dom().contains(k)
}

/// Whether the first `n` entries are the first that take more than `max_bytes`.
pub open spec fn first_too_large(entries: Seq<PersistedView>, n: int, max_bytes: usize) -> bool {
    &&& 0 <= n <= entries.len()
    &&& framed_len(entries.take(n)) > max_bytes
    &&& forall|m: int| 0 <= m < n ==> framed_len(#[trigger] entries.take(m)) <= max_bytes
}

/// Whether the entry at `i` is the first with a part that a reader would not allocate.
pub open spec fn first_not_fitting(entries: Seq<PersistedView>, i: int, limit: usize) -> bool {
    &&& 0 <= i < entries.len()
    &&& !entry_fits(entries[i], limit)
    &&& forall|j: int| 0 <= j < i ==> entry_fits(#[trigger] entries[j], limit)
}

/// A number of octets, held at the largest size.
pub open spec fn capped(n: int) -> usize {
    if n > usize::MAX {
        usize::MAX
    } else {
        n as usize
    }
}

/// Whether a dump of the entries came out as it must: within the limit it is
/// complete, unless an entry has a part that a reader would not allocate; over the
/// limit it is refused with what it takes at least.
pub open spec fn dump_outcome(
    entries: Seq<PersistedView>,
    r: Result<CacheDumpOutcome, DumpError>,
    prealloc_limit: usize,
    max_bytes: usize,
    dumped_at_unix_ms: u64,
) -> bool {
    match r {
        Ok(CacheDumpOutcome::Complete(b)) => {
            &&& framed_len(entries) <= max_bytes
            &&& b@ == framed_wire(entries, dumped_at_unix_ms)
            &&& b@.len() == framed_len(entries)
            &&& forall|i: int|
                0 <= i < entries.len() ==> entry_fits(#[trigger] entries[i], prealloc_limit)
        },
        Ok(CacheDumpOutcome::TooLarge { limit, minimum_size }) => {
            &&& limit == max_bytes
            &&& exists|n: int| #[trigger]
                first_too_large(entries, n, max_bytes) && minimum_size == capped(
                    framed_len(entries.take(n)),
                )
        },
        Err(e) => {
            ||| e@ == DumpErrorView::SizeOverflow && exists|i: int|
                0 <= i < entries.len() && entry_wire(#[trigger] entries[i]).len() > usize::MAX
            ||| framed_len(entries) <= max_bytes && exists|i: int| #[trigger]
                first_not_fitting(entries, i, prealloc_limit) && e@
                    == DumpErrorView::EntryNotSerializable(
                    over_limit_text(first_over(entries[i], prealloc_limit), prealloc_limit),
                )
        },
    }
}

/// Whether a dump of a cache came out as it must, with the entries in some order.
pub open spec fn dumped(
    entries: Map<CacheKeyView, Slot<CacheItemView>>,
    now_elapsed_ms: u64,
    r: Result<CacheDumpOutcome, DumpError>,
    prealloc_limit: usize,
    max_bytes: usize,
    dumped_at_unix_ms: u64,
) -> bool {
    exists|keys: Seq<CacheKeyView>|
        lists_keys(entries, keys) && dump_outcome(
            #[trigger] persisted_all(entries, keys, now_elapsed_ms),
            r,
            prealloc_limit,
            max_bytes,
            dumped_at_unix_ms,
        )
}

/// The number of octets of an entry, which may be more than fits into a size.
fn wide_entry_len(t: &EntryTuple) -> (r: u128)
    ensures
        r == entry_wire(tuple_view(*t)).len(),
{
    proof {
        lemma_entry_len(tuple_view(*t));
    }
    let family: u128 = if t.5.is_some() {
        3
    } else {
        1
    };
    let source: u128 = if t.6.is_some() {
        2
    } else {
        1
    };
    let scope: u128 = if t.7.is_some() {
        2
    } else {
        1
    };
    let network: u128 = match &t.8 {
        Some(n) => 9 + n.len() as u128,
        None => 1,
    };
    let domain: u128 = t.0.as_str().as_bytes().len() as u128;
    8 + domain + 6 + family + source + scope + network + 8 + t.9.len() as u128 + 28
}

pub(crate) proof fn lemma_frames_push(entries: Seq<PersistedView>, e: PersistedView)
    ensures
        frames_wire(entries.push(e)) == frames_wire(entries) + frame_wire(e),
        frames_wire(entries.push(e)).len() == frames_wire(entries).len() + 8 + entry_wire(e).len(),
{
    let all = entries.push(e);
    assert(all.drop_last() =~= entries);
    lemma_le_len(entry_wire(e).len(), 8);
}

pub(crate) proof fn lemma_frames_grow(entries: Seq<PersistedView>, m: int, n: int)
    requires
        0 <= m <= n <= entries.len(),
    ensures
        frames_wire(entries.take(m)).len() <= frames_wire(entries.take(n)).len(),
    decreases n - m,
{
    if m < n {
        lemma_frames_grow(entries, m, n - 1);
        assert(entries.take(n) =~= entries.take(n - 1).push(entries[n - 1]));
        lemma_frames_push(entries.take(n - 1), entries[n - 1]);
    }
}

proof fn lemma_persisted_prefix(
    entries: Map<CacheKeyView, Slot<CacheItemView>>,
    keys: Seq<CacheKeyView>,
    n: int,
    now_elapsed_ms: u64,
)
    requires
        0 <= n <= keys.len(),
    ensures
        persisted_all(entries, keys.take(n), now_elapsed_ms).len() <= persisted_all(
            entries,
            keys,
            now_elapsed_ms,
        ).len(),
        persisted_all(entries, keys.take(n), now_elapsed_ms) == persisted_all(
            entries,
            keys,
            now_elapsed_ms,
        ).take(persisted_all(entries, keys.take(n), now_elapsed_ms).len() as int),
    decreases keys.len() - n,
{
    let part = persisted_all(entries, keys.take(n), now_elapsed_ms);
    let whole = persisted_all(entries, keys, now_elapsed_ms);
    if n == keys.len() {
        assert(keys.take(n) =~= keys);
        assert(whole.take(whole.len() as int) =~= whole);
    } else {
        lemma_persisted_prefix(entries, keys, n + 1, now_elapsed_ms);
        let next = persisted_all(entries, keys.take(n + 1), now_elapsed_ms);
        assert(keys.take(n + 1).drop_last() =~= keys.take(n));
        assert(part =~= next.take(part.len() as int));
        assert(whole.take(next.len() as int).take(part.len() as int) =~= whole.take(
            part.len() as int,
        ));
    }
}

proof fn lemma_persisted_step(
    entries: Map<CacheKeyView, Slot<CacheItemView>>,
    keys: Seq<CacheKeyView>,
    i: int,
    now_elapsed_ms: u64,
)
    requires
        0 <= i < keys.len(),
    ensures
        ({
            let next = persisted_all(entries, keys.take(i + 1), now_elapsed_ms);
            let whole = persisted_all(entries, keys, now_elapsed_ms);
            &&& next == (match persisted_entry(keys[i], entries[keys[i]], now_elapsed_ms) {
                Some(e) => persisted_all(entries, keys.take(i), now_elapsed_ms).push(e),
                None => persisted_all(entries, keys.take(i), now_elapsed_ms),
            })
            &&& next.len() <= whole.len()
            &&& next == whole.take(next.len() as int)
        }),
{
    assert(keys.take(i + 1).drop_last() =~= keys.take(i));
    assert(keys.take(i + 1).last() == keys[i]);
    lemma_persisted_prefix(entries, keys, i + 1, now_elapsed_ms);
}

/// The stored form of the entry of `key`, as a tuple.
fn stored_form(cache_map: &CacheMap, key: &CacheKey, now_elapsed_ms: u64) -> (r: Option<EntryTuple>)
    requires
        cache_map.wf(),
        cache_map@.dom().contains(key@),
    ensures
        match r {
            Some(t) => persisted_entry(
                key@,
                entries_of(cache_map@)[key@],
                now_elapsed_ms,
            ) == Some(tuple_view(t)),
            None => persisted_entry(key@, entries_of(cache_map@)[key@], now_elapsed_ms) is None,
        },
{
    match cache_map.get(key) {
        Some(item) => match prepare_persisted_entry(key, item, now_elapsed_ms) {
            Some(entry) => Some(entry.into_tuple()),
            None => None,
        },
        None => None,
    }
}

/// The number of octets of an entry.
fn sized(t: &EntryTuple) -> (r: Result<usize, DumpError>)
    ensures
        match r {
            Ok(n) => n == entry_wire(tuple_view(*t)).len(),
            Err(e) => e@ == DumpErrorView::SizeOverflow && entry_wire(tuple_view(*t)).len()
                > usize::MAX,
        },
{
    if wide_entry_len(t) > usize::MAX as u128 {
        return Err(DumpError::SizeOverflow);
    }
    match entry_size(t) {
        Ok(n) => serialized_size_to_usize(n),
        Err(_) => Err(DumpError::SizeOverflow),
    }
}

/// The last of the first entries: it is one of all, and where it is the first over the
/// limit, none before it is.
proof fn lemma_next_entry(whole: Seq<PersistedView>, grown: Seq<PersistedView>, max_bytes: usize)
    requires
        0 < grown.len() <= whole.len(),
        grown == whole.take(grown.len() as int),
        framed_len(grown.drop_last()) <= max_bytes,
    ensures
        whole[grown.len() - 1] == grown.last(),
        framed_len(grown) > max_bytes ==> first_too_large(whole, grown.len() as int, max_bytes),
{
    let k = grown.len() as int;
    assert(whole.take(k)[k - 1] == whole[k - 1]);
    assert forall|j: int| 0 <= j < k implies framed_len(#[trigger] whole.take(j)) <= max_bytes by {
        lemma_frames_grow(whole, j, k - 1);
        assert(whole.take(k - 1) =~= grown.drop_last());
    }
}

/// The stored entries in the order of the keys, up to what the limit allows.
fn gather(cache_map: &CacheMap, keys: &Vec<CacheKey>, max_bytes: usize, now_elapsed_ms: u64) -> (r:
    Result<(Vec<EntryTuple>, Vec<usize>, Option<usize>), DumpError>)
    requires
        cache_map.wf(),
        28 <= max_bytes <= isize::MAX,
        forall|i: int| 0 <= i < keys@.len() ==> cache_map@.dom().contains((#[trigger] keys@[i])@),
    ensures
        ({
            let entries = persisted_all(
                entries_of(cache_map@),
                key_views(keys@),
                now_elapsed_ms,
            );
            match r {
                Ok((tuples, sizes, None)) => {
                    &&& tuple_views(tuples@) == entries
                    &&& framed_len(entries) <= max_bytes
                    &&& sizes@.len() == tuples@.len()
                    &&& forall|i: int|
                        0 <= i < sizes@.len() ==> #[trigger] sizes@[i] == entry_wire(entries[i]).len()
                },
                Ok((_, _, Some(minimum_size))) => exists|n: int| #[trigger]
                    first_too_large(entries, n, max_bytes) && minimum_size == capped(
                        framed_len(entries.take(n)),
                    ),
                Err(e) => e@ == DumpErrorView::SizeOverflow && exists|i: int|
                    0 <= i < entries.len() && entry_wire(#[trigger] entries[i]).len() > usize::MAX,
            }
        }),
{
    let ghost m = entries_of(cache_map@);
    let ghost all = key_views(keys@);
    let ghost whole = persisted_all(m, all, now_elapsed_ms);
    let mut tuples: Vec<EntryTuple> = Vec::new();
    let mut sizes: Vec<usize> = Vec::new();
    let mut encoded_size: usize = 28;
    let mut i: usize = 0;
    proof {
        assert(all.take(0) =~= Seq::empty());
        assert(tuple_views(tuples@) =~= Seq::empty());
        assert(whole.take(0) =~= Seq::empty());
    }
    while i < keys.len()
        invariant
            i <= keys@.len(),
            cache_map.wf(),
            m == entries_of(cache_map@),
            all == key_views(keys@),
            whole == persisted_all(m, all, now_elapsed_ms),
            forall|j: int| 0 <= j < keys@.len() ==> cache_map@.dom().contains((#[trigger] keys@[j])@),
            tuple_views(tuples@) == persisted_all(m, all.take(i as int), now_elapsed_ms),
            encoded_size == framed_len(tuple_views(tuples@)) <= max_bytes <= isize::MAX,
            sizes@.len() == tuples@.len(),
            forall|j: int|
                0 <= j < sizes@.len() ==> #[trigger] sizes@[j] == entry_wire(
                    tuple_view(tuples@[j]),
                ).len(),
        decreases keys@.len() - i,
    {
        let key = &keys[i];
        let ghost done = tuple_views(tuples@);
        proof {
            lemma_persisted_step(m, all, i as int, now_elapsed_ms);
        }
        if let Some(t) = stored_form(cache_map, key, now_elapsed_ms) {
            let ghost e = tuple_view(t);
            let ghost grown = done.push(e);
            proof {
                assert(grown == persisted_all(m, all.take(i + 1), now_elapsed_ms));
                lemma_frames_push(done, e);
                assert(grown.drop_last() =~= done);
                lemma_next_entry(whole, grown, max_bytes);
            }
            let entry_size: usize = match sized(&t) {
                Ok(n) => n,
                Err(e) => return Err(e),
            };
            let minimum_size: usize = encoded_size.saturating_add(8).saturating_add(entry_size);
            if minimum_size > max_bytes {
                return Ok((tuples, sizes, Some(minimum_size)));
            }
            encoded_size = minimum_size;
            tuples.push(t);
            sizes.push(entry_size);
            assert(tuple_views(tuples@) =~= grown);
        }
        i = i + 1;
    }
    assert(all.take(i as int) =~= all);
    Ok((tuples, sizes, None))
}

/// Writes the entries of a cache, under a limit on the octets and on what a reader
/// allocates at once. The entries come in no particular order.
pub fn dump_cache_to_bytes_with_limit<const LIMIT: usize>(
    cache_map: &CacheMap,
    max_bytes: usize,
    now_elapsed_ms: u64,
    dumped_at_unix_ms: u64,
) -> (r: Result<CacheDumpOutcome, DumpError>)
    requires
        cache_map.wf(),
        max_bytes <= isize::MAX,
    ensures
        dumped(
            entries_of(cache_map@),
            now_elapsed_ms,
            r,
            LIMIT,
            max_bytes,
            dumped_at_unix_ms,
        ),
{
    let keys = cache_map.keys();
    let ghost order = key_views(keys@);
    let ghost entries = persisted_all(entries_of(cache_map@), order, now_elapsed_ms);
    proof {
        assert(entries_of(cache_map@).dom() =~= cache_map@.dom());
        assert(lists_keys(entries_of(cache_map@), order));
        assert forall|i: int| 0 <= i < keys@.len() implies cache_map@.dom().contains(
            (#[trigger] keys@[i])@,
        ) by {
            assert(order[i] == keys@[i]@);
            assert(order.contains(order[i]));
        }
    }
    if 28 > max_bytes {
        proof {
            assert(entries.take(0) =~= Seq::empty());
            assert(first_too_large(entries, 0, max_bytes));
        }
        return Ok(CacheDumpOutcome::TooLarge { limit: max_bytes, minimum_size: 28 });
    }
    let (tuples, sizes, too_large) = match gather(cache_map, &keys, max_bytes, now_elapsed_ms) {
        Ok(g) => g,
        Err(e) => return Err(e),
    };
    if let Some(minimum_size) = too_large {
        return Ok(CacheDumpOutcome::TooLarge { limit: max_bytes, minimum_size });
    }
    let count: usize = tuples.len();
    let ghost header: HeaderTuple = (
        CACHE_DUMP_MAGIC,
        CACHE_DUMP_VERSION,
        dumped_at_unix_ms,
        count as u64,
    );
    let mut encoded = match write_header(
        (CACHE_DUMP_MAGIC, CACHE_DUMP_VERSION, dumped_at_unix_ms, count as u64),
    ) {
        Ok(b) => b,
        Err(e) => return Err(DumpError::EntryNotSerializable(e)),
    };
    proof {
        lemma_wire_lens(header, 0, 0, 0);
        assert(entries.take(0) =~= Seq::empty());
        assert(header_wire(header) + frames_wire(entries.take(0)) =~= header_wire(header));
    }
    let mut i: usize = 0;
    while i < count
        invariant
            i <= count == tuples@.len(),
            entries == tuple_views(tuples@),
            sizes@.len() == count,
            framed_len(entries) <= max_bytes <= isize::MAX,
            header_wire(header).len() == 28,
            forall|j: int|
                0 <= j < sizes@.len() ==> #[trigger] sizes@[j] == entry_wire(entries[j]).len(),
            encoded@ == header_wire(header) + frames_wire(entries.take(i as int)),
            forall|j: int| 0 <= j < i ==> entry_fits(#[trigger] entries[j], LIMIT),
            entries == persisted_all(entries_of(cache_map@), order, now_elapsed_ms),
            lists_keys(entries_of(cache_map@), order),
        decreases count - i,
    {
        proof {
            lemma_frames_grow(entries, i + 1, entries.len() as int);
            assert(entries.take(i + 1) =~= entries.take(i as int).push(entries[i as int]));
            assert(entries.take(entries.len() as int) =~= entries);
            lemma_frames_push(entries.take(i as int), entries[i as int]);
        }
        let mut len_bytes = match write_u64(sizes[i] as u64) {
            Ok(b) => b,
            Err(e) => return Err(DumpError::EntryNotSerializable(e)),
        };
        let mut frame = match write_entry::<LIMIT>(&tuples[i]) {
            Ok(b) => b,
            Err(e) => {
                proof {
                    assert(first_not_fitting(entries, i as int, LIMIT));
                }
                return Err(DumpError::EntryNotSerializable(e));
            },
        };
        let ghost before = encoded@;
        encoded.append(&mut len_bytes);
        encoded.append(&mut frame);
        assert(encoded@ =~= header_wire(header) + (frames_wire(entries.take(i as int))
            + frame_wire(entries[i as int])));
        i = i + 1;
    }
    assert(entries.take(i as int) =~= entries);
    Ok(CacheDumpOutcome::Complete(encoded))
}

/// Writes the entries of a cache with the limit of files.
pub fn dump_cache_to_bytes(cache_map: &CacheMap, now_elapsed_ms: u64, dumped_at_unix_ms: u64) -> (r:
    Result<Vec<u8>, DumpError>)
    requires
        cache_map.wf(),
    ensures
        dumped(
            entries_of(cache_map@),
            now_elapsed_ms,
            (match r {
                Ok(b) => Ok(CacheDumpOutcome::Complete(b)),
                Err(DumpError::TooLarge { limit, minimum_size }) => Ok(
                    CacheDumpOutcome::TooLarge { limit, minimum_size },
                ),
                Err(e) => Err(e),
            }),
            MAX_PERSISTED_CACHE_DUMP_BYTES,
            MAX_PERSISTED_CACHE_DUMP_BYTES,
            dumped_at_unix_ms,
        ),
{
    match dump_cache_to_bytes_with_limit::<MAX_PERSISTED_CACHE_DUMP_BYTES>(
        cache_map,
        MAX_PERSISTED_CACHE_DUMP_BYTES,
        now_elapsed_ms,
        dumped_at_unix_ms,
    ) {
        Ok(CacheDumpOutcome::Complete(bytes)) => Ok(bytes),
        Ok(CacheDumpOutcome::TooLarge { limit, minimum_size }) => Err(
            DumpError::TooLarge { limit, minimum_size },
        ),
        Err(e) => Err(e),
    }
}

} // verus!
