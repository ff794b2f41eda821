//! Cached responses.

use vstd::prelude::*;

use crate::proto::message::{Message, MessageView};

verus! {

/// Whether a cached response has been checked against its key.
#[derive(Debug, Clone, Copy, PartialEq, Eq, Structural)]
pub enum CacheEntryValidation {
    Validated,
    Unknown,
}

/// A cached response.
#[derive(Debug, PartialEq, Eq)]
pub struct CacheItem {
    /// The response.
    pub resp: Message,
    /// The TTL of the entry, in seconds.
    pub ttl: u32,
    /// When the response turns from fresh to stale.
    pub fresh_until_ms: u64,
    /// Age gathered before the entry's cache time, by entries restored from a dump.
    pub cache_age_offset_ms: u64,
    /// Whether the response has been checked against its key.
    pub validation: CacheEntryValidation,
    /// When a failed refresh may be tried again.
    pub lazy_refresh_retry_after_ms: u64,
}

/// The mathematical content of a [`CacheItem`].
pub struct CacheItemView {
    pub resp: MessageView,
    pub ttl: u32,
    pub fresh_until_ms: u64,
    pub cache_age_offset_ms: u64,
    pub validation: CacheEntryValidation,
    pub lazy_refresh_retry_after_ms: u64,
}

impl View for CacheItem {
    type V = CacheItemView;

    open spec fn view(&self) -> CacheItemView {
        CacheItemView {
            resp: self.resp@,
            ttl: self.ttl,
            fresh_until_ms: self.fresh_until_ms,
            cache_age_offset_ms: self.cache_age_offset_ms,
            validation: self.validation,
            lazy_refresh_retry_after_ms: self.lazy_refresh_retry_after_ms,
        }
    }
}

/// The sum of two times, held at the largest time.
pub open spec fn later(a: u64, b: int) -> u64 {
    if a + b > u64::MAX {
        u64::MAX
    } else {
        (a + b) as u64
    }
}

/// The time from `b` to `a`, or zero where `b` is the later one.
pub open spec fn since(a: u64, b: u64) -> u64 {
    if a >= b {
        (a - b) as u64
    } else {
        0
    }
}

impl CacheItemView {
    /// A new entry.
    pub open spec fn fresh(
        resp: MessageView,
        ttl: u32,
        fresh_until_ms: u64,
        cache_age_offset_ms: u64,
        validation: CacheEntryValidation,
    ) -> CacheItemView {
        CacheItemView {
            resp,
            ttl,
            fresh_until_ms,
            cache_age_offset_ms,
            validation,
            lazy_refresh_retry_after_ms: 0,
        }
    }

    /// The age of an entry with the given cache time.
    pub open spec fn age(self, cache_time_ms: u64, now_elapsed_ms: u64) -> u64 {
        later(self.cache_age_offset_ms, since(now_elapsed_ms, cache_time_ms) as int)
    }
}

impl CacheItem {
    /// An entry whose response has not been checked against its key.
    pub fn new(resp: Message, ttl: u32, fresh_until_ms: u64) -> (r: CacheItem)
        ensures
            r@ == CacheItemView::fresh(
                resp@,
                ttl,
                fresh_until_ms,
                0,
                CacheEntryValidation::Unknown,
            ),
    {
        CacheItem {
            resp,
            ttl,
            fresh_until_ms,
            cache_age_offset_ms: 0,
            validation: CacheEntryValidation::Unknown,
            lazy_refresh_retry_after_ms: 0,
        }
    }

    /// An entry whose response has been checked against its key.
    pub fn new_validated(resp: Message, ttl: u32, fresh_until_ms: u64) -> (r: CacheItem)
        ensures
            r@ == CacheItemView::fresh(
                resp@,
                ttl,
                fresh_until_ms,
                0,
                CacheEntryValidation::Validated,
            ),
    {
        Self::new_validated_with_age_offset(resp, ttl, fresh_until_ms, 0)
    }

    /// A checked entry with age from before its cache time.
    pub fn new_validated_with_age_offset(
        resp: Message,
        ttl: u32,
        fresh_until_ms: u64,
        cache_age_offset_ms: u64,
    ) -> (r: CacheItem)
        ensures
            r@ == CacheItemView::fresh(
                resp@,
                ttl,
                fresh_until_ms,
                cache_age_offset_ms,
                CacheEntryValidation::Validated,
            ),
    {
        CacheItem {
            resp,
            ttl,
            fresh_until_ms,
            cache_age_offset_ms,
            validation: CacheEntryValidation::Validated,
            lazy_refresh_retry_after_ms: 0,
        }
    }

    /// The same item once more.
    pub fn copy(&self) -> (r: CacheItem)
        ensures
            r@ == self@,
    {
        CacheItem {
            resp: self.resp.copy(),
            ttl: self.ttl,
            fresh_until_ms: self.fresh_until_ms,
            cache_age_offset_ms: self.cache_age_offset_ms,
            validation: self.validation,
            lazy_refresh_retry_after_ms: self.lazy_refresh_retry_after_ms,
        }
    }

    /// Whether a refresh may be tried.
    pub fn lazy_refresh_retry_allowed(&self, now_ms: u64) -> (r: bool)
        ensures
            r == (now_ms >= self@.lazy_refresh_retry_after_ms),
    {
        now_ms >= self.lazy_refresh_retry_after_ms
    }

    /// Puts the next try of a refresh off by `cooldown_ms`.
    pub fn defer_lazy_refresh(&mut self, now_ms: u64, cooldown_ms: u64)
        ensures
            final(self)@ == (CacheItemView {
                lazy_refresh_retry_after_ms: later(now_ms, cooldown_ms as int),
                ..old(self)@
            }),
    {
        self.lazy_refresh_retry_after_ms = now_ms.saturating_add(cooldown_ms);
    }

    /// The age of the entry, with what it had before its cache time.
    pub fn total_cache_age_ms(&self, cache_time_ms: u64, now_elapsed_ms: u64) -> (r: u64)
        ensures
            r == self@.age(cache_time_ms, now_elapsed_ms),
    {
        self.cache_age_offset_ms.saturating_add(now_elapsed_ms.saturating_sub(cache_time_ms))
    }

    /// Whether the response is known to answer its key.
    pub fn is_validated(&self) -> (r: bool)
        ensures
            r == (self@.validation == CacheEntryValidation::Validated),
    {
        self.validation == CacheEntryValidation::Validated
    }
}

/// An entry that was put off cannot be tried before the cooldown is over, and can
/// from then on.
pub proof fn law_deferred_refresh(item: CacheItemView, now_ms: u64, cooldown_ms: u64, at_ms: u64)
    requires
        now_ms + cooldown_ms <= u64::MAX,
    ensures
        at_ms >= (CacheItemView {
            lazy_refresh_retry_after_ms: later(now_ms, cooldown_ms as int),
            ..item
        }).lazy_refresh_retry_after_ms <==> at_ms >= now_ms + cooldown_ms,
{
}

} // verus!
