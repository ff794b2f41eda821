//! Giving space back after records have been deleted.

use vstd::prelude::*;

use crate::error::{DnsError, DnsErrorView};
use crate::text::{between, decimal, decimal_int, decimal_of, decimal_of_signed, push_text};

verus! {

/// How large a database is.
#[derive(Debug, Clone, Copy, PartialEq, Eq, Structural)]
pub struct SpaceStats {
    pub auto_vacuum: i64,
    pub page_size: u64,
    pub page_count: u64,
    pub freelist_count: u64,
    pub database_bytes: u64,
    pub wal_bytes: u64,
}

/// How free pages are given back.
#[derive(Debug, Clone, Copy, PartialEq, Eq, Structural)]
pub enum ReclaimMethod {
    /// The database is written anew, in the mode in which it can give pages back.
    Rewrite,
    /// The database gives them back by itself.
    Nothing,
    /// Some at a time.
    Incremental,
}

/// The method for a mode of the database.
pub open spec fn method_for(auto_vacuum: i64) -> Option<ReclaimMethod> {
    if auto_vacuum == 0 {
        Some(ReclaimMethod::Rewrite)
    } else if auto_vacuum == 1 {
        Some(ReclaimMethod::Nothing)
    } else if auto_vacuum == 2 {
        Some(ReclaimMethod::Incremental)
    } else {
        None
    }
}

/// The method for a mode of the database.
pub fn reclaim_method(auto_vacuum: i64) -> (r: Result<ReclaimMethod, DnsError>)
    ensures
        match r {
            Ok(m) => method_for(auto_vacuum) == Some(m),
            Err(e) => method_for(auto_vacuum) is None && e@ == DnsErrorView::Runtime(
                "query_recorder returned unsupported auto_vacuum mode "@ + decimal_int(
                    auto_vacuum as int,
                ),
            ),
        },
{
    if auto_vacuum == 0 {
        Ok(ReclaimMethod::Rewrite)
    } else if auto_vacuum == 1 {
        Ok(ReclaimMethod::Nothing)
    } else if auto_vacuum == 2 {
        Ok(ReclaimMethod::Incremental)
    } else {
        let mut text = "query_recorder returned unsupported auto_vacuum mode ".to_owned();
        push_text(&mut text, decimal_of_signed(auto_vacuum).as_str());
        Err(DnsError::Runtime(text))
    }
}

/// What went wrong with giving space back, if anything.
pub open spec fn reclaim_problem(reclaimable: SpaceStats, after: SpaceStats, migrated: bool) -> Option<
    Seq<char>,
> {
    if migrated && after.auto_vacuum != 2 {
        Some(
            "query_recorder legacy database migration did not enable incremental auto-vacuum (mode "@
                + decimal_int(after.auto_vacuum as int) + ")"@,
        )
    } else if after.freelist_count != 0 {
        Some(
            "query_recorder space reclaim left "@ + decimal(after.freelist_count as nat)
                + " free pages"@,
        )
    } else if reclaimable.freelist_count > 0 && after.page_count >= reclaimable.page_count {
        Some(
            "query_recorder space reclaim made no page-count progress ("@ + decimal(
                after.page_count as nat,
            ) + " pages, "@ + decimal(reclaimable.freelist_count as nat) + " free)"@,
        )
    } else {
        None
    }
}

/// What giving space back has brought.
#[derive(Debug, Clone, Copy, PartialEq, Eq, Structural)]
pub struct SpaceReclaimResult {
    pub before: SpaceStats,
    pub reclaimable: SpaceStats,
    pub after: SpaceStats,
    pub migrated: bool,
    pub peak_wal_bytes: u64,
}

/// Checks what giving space back has brought.
pub fn check_reclaimed(result: SpaceReclaimResult) -> (r: Result<SpaceReclaimResult, DnsError>)
    ensures
        ({
            let p = reclaim_problem(result.reclaimable, result.after, result.migrated);
            match r {
                Ok(s) => p is None && s == result,
                Err(e) => p is Some && e@ == DnsErrorView::Runtime(p->0),
            }
        }),
{
    let after = result.after;
    if result.migrated && after.auto_vacuum != 2 {
        return Err(
            DnsError::Runtime(
                between(
                    "query_recorder legacy database migration did not enable incremental auto-vacuum (mode ",
                    decimal_of_signed(after.auto_vacuum).as_str(),
                    ")",
                ),
            ),
        );
    }
    if after.freelist_count != 0 {
        return Err(
            DnsError::Runtime(
                between(
                    "query_recorder space reclaim left ",
                    decimal_of(after.freelist_count).as_str(),
                    " free pages",
                ),
            ),
        );
    }
    if result.reclaimable.freelist_count > 0 && after.page_count >= result.reclaimable.page_count {
        let mut text = between(
            "query_recorder space reclaim made no page-count progress (",
            decimal_of(after.page_count).as_str(),
            " pages, ",
        );
        push_text(&mut text, decimal_of(result.reclaimable.freelist_count).as_str());
        push_text(&mut text, " free)");
        return Err(DnsError::Runtime(text));
    }
    Ok(result)
}

/// Whether giving pages back is done, some at a time. `before` and `after` are the free
/// pages around one time. There must be fewer each time.
pub fn vacuum_progress(before: u64, after: u64) -> (r: Result<bool, DnsError>)
    ensures
        match r {
            Ok(done) => after < before && done == (after == 0),
            Err(e) => after >= before && e@ == DnsErrorView::Runtime(
                "query_recorder incremental vacuum made no progress ("@ + decimal(after as nat)
                    + " of "@ + decimal(before as nat) + " free pages remain)"@,
            ),
        },
{
    if after >= before {
        let mut text = between(
            "query_recorder incremental vacuum made no progress (",
            decimal_of(after).as_str(),
            " of ",
        );
        push_text(&mut text, decimal_of(before).as_str());
        push_text(&mut text, " free pages remain)");
        return Err(DnsError::Runtime(text));
    }
    Ok(after == 0)
}

/// Checks the outcome of writing the log back.
pub fn check_checkpoint(busy: i64) -> (r: Result<(), DnsError>)
    ensures
        match r {
            Ok(_) => busy == 0,
            Err(e) => busy != 0 && e@ == DnsErrorView::Runtime(
                "query_recorder WAL checkpoint remained busy ("@ + decimal_int(busy as int) + ")"@,
            ),
        },
{
    if busy != 0 {
        return Err(
            DnsError::Runtime(
                between(
                    "query_recorder WAL checkpoint remained busy (",
                    decimal_of_signed(busy).as_str(),
                    ")",
                ),
            ),
        );
    }
    Ok(())
}

/// Notes the size of the log: the largest counts.
pub fn observe_wal_size(peak_wal_bytes: &mut u64, size: u64)
    ensures
        *final(peak_wal_bytes) == (if size > *old(peak_wal_bytes) {
            size
        } else {
            *old(peak_wal_bytes)
        }),
{
    if size > *peak_wal_bytes {
        *peak_wal_bytes = size;
    }
}

/// The number of records that have been deleted so far, after one more batch, and
/// whether all are gone.
pub fn after_deletion(total: usize, deleted: usize) -> (r: (usize, bool))
    ensures
        r.0 == (if total + deleted > usize::MAX {
            usize::MAX
        } else {
            (total + deleted) as usize
        }),
        r.1 == (deleted == 0),
{
    (total.saturating_add(deleted), deleted == 0)
}

/// The error where the history is gone and space could not be given back.
pub fn reclaim_failed(cleared: usize, error: &DnsError) -> (r: DnsError)
    ensures
        r@ == DnsErrorView::Runtime(
            "query history cleared ("@ + decimal(cleared as nat)
                + " records), but space reclaim failed: "@
                + crate::forward::upstream::message_of(error@),
        ),
{
    let mut text = between(
        "query history cleared (",
        decimal_of(cleared as u64).as_str(),
        " records), but space reclaim failed: ",
    );
    push_text(&mut text, error.message());
    DnsError::Runtime(text)
}

} // verus!
