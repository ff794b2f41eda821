//! Requests for managing a cache, and the replies to them.

use vstd::prelude::*;

use crate::cache::ecs_index::outdated;
use crate::cache::entry_id::{decode_cache_entry_id, decoded, id_view, CacheEntryId, IdView};
use crate::cache::executor::initial_cache_capacity;
use crate::cache::key::CacheKeyView;
use crate::cache::listing::{
    behind_cursor, first_of, list_entries, page_of, row_views, shows, CacheEntriesPage,
};
use crate::cache::mutation::with_changes;
use crate::cache::persistence::collect::{selected, PreparedView};
use crate::cache::persistence::dump::{dump_cache_to_bytes_with_limit, dumped, CacheDumpOutcome};
use crate::cache::persistence::error::DumpError;
use crate::cache::persistence::load::{loadable, LoadSetting};
use crate::cache::policy::CacheLoadPolicy;
use crate::cache::query::{
    id_views, optional_view, parse_cache_entries_query, parsed_query, text_view, QueryView,
};
use crate::cache::store::{
    entries_of, replaced_by, replaced_count, without, CacheMap, DnsCacheStore, StoreView,
};
use crate::text::{between, chars_of, starts_with, string_from};

verus! {

/// The size of the largest dump that is sent or taken.
pub const MAX_CACHE_DUMP_BODY: usize = 16777216;

/// A reply that tells of a failure.
#[derive(Debug, PartialEq, Eq)]
pub enum ApiFailure {
    /// A status, a code for programs and a message.
    Json { status: u16, code: String, message: String },
    /// A status and a plain text.
    Text { status: u16, body: String },
}

/// The mathematical content of an [`ApiFailure`].
pub enum FailureView {
    Json { status: u16, code: Seq<char>, message: Seq<char> },
    Text { status: u16, body: Seq<char> },
}

impl View for ApiFailure {
    type V = FailureView;

    open spec fn view(&self) -> FailureView {
        match self {
            ApiFailure::Json { status, code, message } => FailureView::Json {
                status: *status,
                code: code@,
                message: message@,
            },
            ApiFailure::Text { status, body } => FailureView::Text { status: *status, body: body@ },
        }
    }
}

fn failure(status: u16, code: &str, message: &str) -> (r: ApiFailure)
    ensures
        r@ == (FailureView::Json { status, code: code@, message: message@ }),
{
    ApiFailure::Json { status, code: code.to_owned(), message: message.to_owned() }
}

/// Removes all entries. Returns them, and how many there were.
pub fn flush_cache(store: &mut DnsCacheStore, now_ms: u64) -> (r: (CacheMap, usize))
    requires
        old(store).wf(),
    ensures
        final(store).wf(),
        final(store)@ == (StoreView {
            entries: Map::empty(),
            next_generation: 1,
            index: outdated(old(store)@.index),
            mutations: with_changes(
                old(store)@.mutations,
                replaced_count(old(store)@.entries.dom().len(), 0),
                now_ms,
            ),
            ..old(store)@
        }),
        r.0.wf(),
        entries_of(r.0@) == old(store)@.entries,
        r.1 == old(store)@.entries.dom().len(),
{
    let capacity: usize = initial_cache_capacity(store.cache_size());
    let retired = store.flush(capacity, now_ms);
    assert(entries_of(retired@).dom() =~= retired@.dom());
    let cleared: usize = retired.len();
    (retired, cleared)
}

/// A dump for download.
#[derive(Debug, PartialEq, Eq)]
pub struct DumpReply {
    pub body: Vec<u8>,
    /// The value of the header that names the file.
    pub disposition: String,
}

/// The name under which a dump is offered.
pub open spec fn disposition_text(tag: Seq<char>) -> Seq<char> {
    "attachment; filename=\""@ + tag + ".dump\""@
}

/// Whether this is the reply for a dump that has been made, or not.
pub open spec fn tells_dump(
    outcome: Result<CacheDumpOutcome, DumpError>,
    tag: Seq<char>,
    r: Result<DumpReply, ApiFailure>,
) -> bool {
    match outcome {
        Ok(CacheDumpOutcome::Complete(bytes)) => r is Ok && r->Ok_0.body == bytes
            && r->Ok_0.disposition@ == disposition_text(tag),
        Ok(CacheDumpOutcome::TooLarge { .. }) => r is Err && r->Err_0@ == (FailureView::Json {
            status: 413,
            code: "cache_dump_too_large"@,
            message: "cache dump exceeds API size limit"@,
        }),
        Err(_) => r is Err && r->Err_0@ == (FailureView::Text {
            status: 500,
            body: "failed to dump cache"@,
        }),
    }
}

/// The reply for a dump that has been made, or not.
pub fn dump_reply(outcome: Result<CacheDumpOutcome, DumpError>, tag: &str) -> (r: Result<
    DumpReply,
    ApiFailure,
>)
    ensures
        tells_dump(outcome, tag@, r),
{
    match outcome {
        Ok(CacheDumpOutcome::Complete(body)) => Ok(
            DumpReply { body, disposition: between("attachment; filename=\"", tag, ".dump\"") },
        ),
        Ok(CacheDumpOutcome::TooLarge { .. }) => Err(
            failure(413, "cache_dump_too_large", "cache dump exceeds API size limit"),
        ),
        Err(_) => Err(ApiFailure::Text { status: 500, body: "failed to dump cache".to_owned() }),
    }
}

/// Dumps a cache for download.
pub fn dump_cache(store: &DnsCacheStore, tag: &str, now_elapsed_ms: u64, now_unix_ms: u64) -> (r:
    Result<DumpReply, ApiFailure>)
    requires
        store.wf(),
    ensures
        exists|outcome: Result<CacheDumpOutcome, DumpError>| #[trigger]
            dumped(
                store@.entries,
                now_elapsed_ms,
                outcome,
                MAX_CACHE_DUMP_BODY,
                MAX_CACHE_DUMP_BODY,
                now_unix_ms,
            ) && tells_dump(outcome, tag@, r),
{
    let outcome = dump_cache_to_bytes_with_limit::<MAX_CACHE_DUMP_BODY>(
        store.cache_map(),
        MAX_CACHE_DUMP_BODY,
        now_elapsed_ms,
        now_unix_ms,
    );
    dump_reply(outcome, tag)
}

/// Puts the entries of a dump in place of those of a cache. Returns the old entries and
/// how many there are now. Where the dump is not valid, the cache stays as it is.
pub fn load_dump(
    store: &mut DnsCacheStore,
    body: &[u8],
    ecs_in_key: bool,
    policy: CacheLoadPolicy,
    now_elapsed_ms: u64,
    now_unix_ms: u64,
) -> (r: Result<(CacheMap, usize), ApiFailure>)
    requires
        old(store).wf(),
    ensures
        final(store).wf(),
        ({
            let all = loadable(
                body@,
                MAX_CACHE_DUMP_BODY,
                (LoadSetting { ecs_in_key, policy, now_elapsed_ms, now_unix_ms }),
            );
            match r {
                Ok((retired, loaded)) => {
                    &&& all is Ok
                    &&& retired.wf()
                    &&& entries_of(retired@) == old(store)@.entries
                    &&& exists|prepared: Seq<PreparedView>, counts: (usize, usize, usize)|
                        #[trigger] selected(all->Ok_0, old(store)@.cache_size, prepared)
                            && #[trigger] replaced_by(
                            old(store)@,
                            final(store)@,
                            prepared,
                            counts,
                            now_elapsed_ms,
                        ) && loaded == counts.2
                },
                Err(e) => {
                    &&& all is Err
                    &&& e@ == (FailureView::Json {
                        status: 400,
                        code: "invalid_cache_dump"@,
                        message: "failed to load cache dump"@,
                    })
                    &&& final(store)@ == old(store)@
                },
            }
        }),
{
    let capacity: usize = initial_cache_capacity(store.cache_size());
    match store.replace_from_dump::<MAX_CACHE_DUMP_BODY>(
        body,
        ecs_in_key,
        policy,
        capacity,
        now_elapsed_ms,
        now_unix_ms,
    ) {
        Ok((retired, counts)) => Ok((retired, counts.2)),
        Err(_) => Err(failure(400, "invalid_cache_dump", "failed to load cache dump")),
    }
}

/// Whether a reply is a page of the first keys behind the cursor.
pub open spec fn replies_page(
    s: StoreView,
    q: QueryView,
    now: u64,
    now_unix_ms: u64,
    r: Result<CacheEntriesPage, ApiFailure>,
) -> bool {
    exists|keys: Seq<CacheKeyView>| #[trigger]
        first_of(behind_cursor(s, q, now), q.limit as int, keys) && match (
            page_of(s, q, keys, now, now_unix_ms),
            r,
        ) {
            (Ok((rows, cursor, total)), Ok(p)) => row_views(p.entries@) == rows && text_view(
                p.next_cursor,
            ) == cursor && p.total_entries == total,
            (Err(e), Err(f)) => f@ == (FailureView::Json {
                status: 500,
                code: "cache_cursor_encode_failed"@,
                message: e,
            }),
            _ => false,
        }
}

/// Lists the entries that a URL query asks for. The octets of the cursors in the query
/// are the `ids` as JSON, in the order of the cursors.
pub fn list_cache(
    store: &DnsCacheStore,
    query: Option<&str>,
    ids: &Vec<Option<CacheEntryId>>,
    now: u64,
    now_unix_ms: u64,
) -> (r: Result<CacheEntriesPage, ApiFailure>)
    requires
        store.wf(),
    ensures
        match parsed_query(optional_view(query), id_views(ids@)) {
            Err(e) => r is Err && r->Err_0@ == (FailureView::Json {
                status: 400,
                code: "invalid_query"@,
                message: e,
            }),
            Ok(q) => replies_page(store@, q, now, now_unix_ms, r),
        },
{
    let query = match parse_cache_entries_query(query, ids) {
        Ok(q) => q,
        Err(e) => return Err(failure(400, "invalid_query", e.as_str())),
    };
    let listed = list_entries(store, &query, now, now_unix_ms);
    proof {
        let keys = choose|keys: Seq<CacheKeyView>| #[trigger]
            first_of(behind_cursor(store@, query@, now), query.limit as int, keys) && shows(
                page_of(store@, query@, keys, now, now_unix_ms),
                listed,
            );
        assert(first_of(behind_cursor(store@, query@, now), query@.limit as int, keys));
    }
    match listed {
        Ok(page) => Ok(page),
        Err(e) => Err(failure(500, "cache_cursor_encode_failed", e.as_str())),
    }
}

/// What a path names below a prefix.
pub open spec fn below(path: Seq<char>, prefix: Seq<char>) -> Option<Seq<char>> {
    if prefix.len() <= path.len() && path.take(prefix.len() as int) == prefix {
        Some(path.skip(prefix.len() as int))
    } else {
        None
    }
}

/// The text in a path that names an entry, or the failure.
pub open spec fn named_entry(path: Seq<char>, prefix: Seq<char>) -> Result<Seq<char>, FailureView> {
    match below(path, prefix) {
        None => Err(FailureView::Text { status: 404, body: "404 Not Found"@ }),
        Some(raw) => if raw.len() == 0 || raw.contains('/') {
            Err(
                FailureView::Json {
                    status: 400,
                    code: "invalid_cache_entry_id"@,
                    message: "invalid cache entry id"@,
                },
            )
        } else {
            Ok(raw)
        },
    }
}

/// What a request to delete an entry asks for: a key, or the failure. The octets of the
/// text that names the entry are `id` as JSON.
pub open spec fn to_delete(path: Seq<char>, prefix: Seq<char>, id: Option<IdView>) -> Result<
    CacheKeyView,
    FailureView,
> {
    match named_entry(path, prefix) {
        Err(e) => Err(e),
        Ok(raw) => match decoded(raw, id) {
            Ok(k) => Ok(k),
            Err(e) => Err(
                FailureView::Json { status: 400, code: "invalid_cache_entry_id"@, message: e },
            ),
        },
    }
}

fn has_slash(v: &[char], from: usize) -> (r: bool)
    requires
        from <= v@.len(),
    ensures
        r == v@.skip(from as int).contains('/'),
{
    let ghost rest = v@.skip(from as int);
    let mut i: usize = from;
    while i < v.len()
        invariant
            from <= i <= v@.len(),
            rest == v@.skip(from as int),
            forall|j: int| 0 <= j < i - from ==> rest[j] != '/',
        decreases v@.len() - i,
    {
        if v[i] == '/' {
            assert(rest[i - from] == '/');
            return true;
        }
        assert(rest[i - from] == v@[i as int]);
        i = i + 1;
    }
    false
}

/// The text in a path that names an entry.
pub fn entry_name(path: &str, prefix: &str) -> (r: Result<String, ApiFailure>)
    ensures
        match r {
            Ok(raw) => named_entry(path@, prefix@) == Ok::<Seq<char>, FailureView>(raw@),
            Err(e) => named_entry(path@, prefix@) == Err::<Seq<char>, FailureView>(e@),
        },
{
    let whole = chars_of(path);
    let head = chars_of(prefix);
    if !starts_with(whole.as_slice(), head.as_slice()) {
        proof {
            if head@.len() <= whole@.len() {
                assert(whole@.take(head@.len() as int) =~= whole@.subrange(0, head@.len() as int));
            }
        }
        return Err(ApiFailure::Text { status: 404, body: "404 Not Found".to_owned() });
    }
    assert(whole@.take(head@.len() as int) =~= whole@.subrange(0, head@.len() as int));
    if head.len() == whole.len() || has_slash(whole.as_slice(), head.len()) {
        return Err(failure(400, "invalid_cache_entry_id", "invalid cache entry id"));
    }
    let raw = string_from(whole.as_slice(), head.len(), whole.len());
    assert(raw@ =~= whole@.skip(head@.len() as int));
    Ok(raw)
}

/// Deletes the entry that a path names. The octets of the text that names it are `id` as
/// JSON.
pub fn delete_entry(
    store: &mut DnsCacheStore,
    path: &str,
    prefix: &str,
    id: &Option<CacheEntryId>,
    now_ms: u64,
) -> (r: Result<(), ApiFailure>)
    requires
        old(store).wf(),
    ensures
        final(store).wf(),
        match to_delete(path@, prefix@, id_view(*id)) {
            Err(e) => r is Err && r->Err_0@ == e && final(store)@ == old(store)@,
            Ok(k) => if old(store)@.entries.dom().contains(k) {
                r is Ok && final(store)@ == without(old(store)@, k, now_ms)
            } else {
                r is Err && r->Err_0@ == (FailureView::Json {
                    status: 404,
                    code: "cache_entry_not_found"@,
                    message: "cache entry does not exist"@,
                }) && final(store)@ == old(store)@
            },
        },
{
    let raw = match entry_name(path, prefix) {
        Ok(raw) => raw,
        Err(e) => return Err(e),
    };
    let key = match decode_cache_entry_id(raw.as_str(), id) {
        Ok(k) => k,
        Err(e) => return Err(failure(400, "invalid_cache_entry_id", e.as_str())),
    };
    if !store.remove(&key, now_ms) {
        return Err(failure(404, "cache_entry_not_found", "cache entry does not exist"));
    }
    Ok(())
}

} // verus!
