//! Bookkeeping of changes that a dump has yet to save.

use vstd::prelude::*;

use crate::cache::item::since;

verus! {

/// Counts changes to the cache and remembers since when some are unsaved.
#[derive(Debug, Clone, Copy, PartialEq, Eq, Structural)]
pub struct CacheMutationState {
    /// The changes since the last dump began.
    pub updated_keys: u64,
    /// When the oldest unsaved change was made; zero where there is none.
    pub dirty_since_ms: u64,
    /// Advances with each group of changes.
    pub dirty_generation: u64,
    /// The dirty generation that the last dump saved.
    pub persisted_generation: u64,
}

/// A dump in progress, which either completes or is rolled back.
#[derive(Debug, PartialEq, Eq)]
pub struct CacheDumpHandoff {
    pub changed: u64,
    pub generation: u64,
    pub previous_dirty_since_ms: u64,
    pub resolved: bool,
}

pub open spec fn stamp(now_ms: u64) -> u64 {
    if now_ms >= 1 {
        now_ms
    } else {
        1
    }
}

/// The state after `changes` changes.
pub open spec fn with_changes(s: CacheMutationState, changes: u64, now_ms: u64) -> CacheMutationState {
    if changes == 0 {
        s
    } else {
        CacheMutationState {
            updated_keys: s.updated_keys.wrapping_add(changes),
            dirty_since_ms: if s.dirty_since_ms == 0 {
                stamp(now_ms)
            } else {
                s.dirty_since_ms
            },
            dirty_generation: if s.dirty_generation == u64::MAX {
                u64::MAX
            } else {
                (s.dirty_generation + 1) as u64
            },
            ..s
        }
    }
}

/// The earlier of two times, of which zero stands for none.
pub open spec fn earlier(a: u64, b: u64) -> u64 {
    if a == 0 {
        b
    } else if b == 0 || a <= b {
        a
    } else {
        b
    }
}

/// Whether unsaved changes are old enough for a dump, or will be before the next
/// check.
pub open spec fn age_due(
    now_ms: u64,
    dirty_since_ms: u64,
    max_dirty_age_ms: u64,
    check_interval_ms: u64,
) -> bool {
    dirty_since_ms != 0 && since(now_ms, dirty_since_ms) >= since(
        max_dirty_age_ms,
        check_interval_ms,
    )
}

/// Whether a dump is due.
pub open spec fn dump_due(
    s: CacheMutationState,
    now_ms: u64,
    minimum_changes: u64,
    max_dirty_age_ms: u64,
    check_interval_ms: u64,
) -> bool {
    s.updated_keys >= minimum_changes || (s.dirty_generation != s.persisted_generation && age_due(
        now_ms,
        s.dirty_since_ms,
        max_dirty_age_ms,
        check_interval_ms,
    ))
}

/// The state once a dump has begun.
pub open spec fn dump_begun(s: CacheMutationState) -> CacheMutationState {
    CacheMutationState { updated_keys: 0, dirty_since_ms: 0, ..s }
}

/// The dump that begins in a state.
pub open spec fn handoff_of(s: CacheMutationState) -> CacheDumpHandoff {
    CacheDumpHandoff {
        changed: s.updated_keys,
        generation: s.dirty_generation,
        previous_dirty_since_ms: s.dirty_since_ms,
        resolved: false,
    }
}

/// The state once a dump is rolled back.
pub open spec fn rolled_back(s: CacheMutationState, h: CacheDumpHandoff) -> CacheMutationState {
    if h.resolved {
        s
    } else {
        CacheMutationState {
            updated_keys: s.updated_keys.wrapping_add(h.changed),
            dirty_since_ms: earlier(s.dirty_since_ms, h.previous_dirty_since_ms),
            ..s
        }
    }
}

impl CacheMutationState {
    /// Nothing has changed yet.
    pub fn new() -> (r: CacheMutationState)
        ensures
            r == (CacheMutationState {
                updated_keys: 0,
                dirty_since_ms: 0,
                dirty_generation: 0,
                persisted_generation: 0,
            }),
    {
        CacheMutationState {
            updated_keys: 0,
            dirty_since_ms: 0,
            dirty_generation: 0,
            persisted_generation: 0,
        }
    }

    /// The time to remember for a change: zero is reserved for no change.
    pub fn dirty_timestamp(now_ms: u64) -> (r: u64)
        ensures
            r == stamp(now_ms),
            r != 0,
    {
        if now_ms >= 1 {
            now_ms
        } else {
            1
        }
    }

    /// Records changes.
    pub fn mark_dirty(&mut self, changes: u64, now_ms: u64)
        ensures
            *final(self) == with_changes(*old(self), changes, now_ms),
    {
        if changes == 0 {
            return;
        }
        self.dirty_generation = self.dirty_generation.saturating_add(1);
        self.updated_keys = self.updated_keys.wrapping_add(changes);
        if self.dirty_since_ms == 0 {
            self.dirty_since_ms = Self::dirty_timestamp(now_ms);
        }
    }

    /// Brings back the time of an earlier unsaved change.
    pub fn restore_dirty_since(&mut self, timestamp_ms: u64)
        ensures
            *final(self) == (CacheMutationState {
                dirty_since_ms: earlier(old(self).dirty_since_ms, timestamp_ms),
                ..*old(self)
            }),
    {
        if timestamp_ms == 0 {
            return;
        }
        if self.dirty_since_ms == 0 || timestamp_ms < self.dirty_since_ms {
            self.dirty_since_ms = timestamp_ms;
        }
    }

    /// Whether unsaved changes are old enough for a dump.
    pub fn dump_age_due(
        now_ms: u64,
        dirty_since_ms: u64,
        max_dirty_age_ms: u64,
        check_interval_ms: u64,
    ) -> (r: bool)
        ensures
            r == age_due(now_ms, dirty_since_ms, max_dirty_age_ms, check_interval_ms),
    {
        dirty_since_ms != 0 && now_ms.saturating_sub(dirty_since_ms)
            >= max_dirty_age_ms.saturating_sub(check_interval_ms)
    }

    /// Begins a dump where enough changes have gathered or where unsaved changes
    /// are old enough.
    pub fn begin_dump_if_due(
        &mut self,
        now_ms: u64,
        minimum_changes: u64,
        max_dirty_age_ms: u64,
        check_interval_ms: u64,
    ) -> (r: Option<CacheDumpHandoff>)
        ensures
            ({
                let due = dump_due(
                    *old(self),
                    now_ms,
                    minimum_changes,
                    max_dirty_age_ms,
                    check_interval_ms,
                );
                &&& due ==> r == Some(handoff_of(*old(self))) && *final(self) == dump_begun(
                    *old(self),
                )
                &&& !due ==> r is None && *final(self) == *old(self)
            }),
    {
        let changed: u64 = self.updated_keys;
        let dirty = self.dirty_generation != self.persisted_generation;
        let age_due = dirty && Self::dump_age_due(
            now_ms,
            self.dirty_since_ms,
            max_dirty_age_ms,
            check_interval_ms,
        );
        if changed < minimum_changes && !age_due {
            return None;
        }
        let previous_dirty_since_ms: u64 = self.dirty_since_ms;
        self.updated_keys = 0;
        self.dirty_since_ms = 0;
        Some(
            CacheDumpHandoff {
                changed,
                generation: self.dirty_generation,
                previous_dirty_since_ms,
                resolved: false,
            },
        )
    }
}

impl CacheDumpHandoff {
    /// Ends a dump that succeeded. Returns whether nothing has changed since it
    /// began.
    pub fn complete(self, state: &mut CacheMutationState) -> (r: bool)
        ensures
            *final(state) == (CacheMutationState {
                persisted_generation: self.generation,
                ..*old(state)
            }),
            r == (old(state).dirty_generation == self.generation),
    {
        state.persisted_generation = self.generation;
        state.dirty_generation == self.generation
    }

    /// Ends a dump that failed.
    pub fn abort(self, state: &mut CacheMutationState)
        ensures
            *final(state) == rolled_back(*old(state), self),
    {
        let mut handoff = self;
        handoff.rollback(state);
    }

    /// Gives the changes of a dump back, once.
    pub fn rollback(&mut self, state: &mut CacheMutationState)
        ensures
            *final(state) == rolled_back(*old(state), *old(self)),
            *final(self) == (CacheDumpHandoff { resolved: true, ..*old(self) }),
    {
        if self.resolved {
            return;
        }
        state.updated_keys = state.updated_keys.wrapping_add(self.changed);
        state.restore_dirty_since(self.previous_dirty_since_ms);
        self.resolved = true;
    }
}

/// A dump that begins and fails leaves the bookkeeping as it was.
pub proof fn law_failed_dump_restores(s: CacheMutationState)
    ensures
        rolled_back(dump_begun(s), handoff_of(s)) == s,
{
}

/// A dump that fails after further changes leaves the bookkeeping of all of them.
pub proof fn law_failed_dump_keeps_later_changes(s: CacheMutationState, changes: u64, now_ms: u64)
    requires
        s.dirty_since_ms != 0,
        s.dirty_since_ms <= now_ms,
    ensures
        rolled_back(with_changes(dump_begun(s), changes, now_ms), handoff_of(s)) == with_changes(
            s,
            changes,
            now_ms,
        ),
{
}

/// Rolling back twice does no more than rolling back once.
pub proof fn law_rollback_once(s: CacheMutationState, h: CacheDumpHandoff)
    ensures
        rolled_back(rolled_back(s, h), (CacheDumpHandoff { resolved: true, ..h })) == rolled_back(
            s,
            h,
        ),
{
}

/// A dump that succeeds leaves nothing unsaved exactly where nothing changed while
/// it ran.
pub proof fn law_completed_dump_is_clean(s: CacheMutationState, changes: u64, now_ms: u64)
    requires
        s.dirty_generation < u64::MAX,
    ensures
        with_changes(dump_begun(s), changes, now_ms).dirty_generation == handoff_of(s).generation
            <==> changes == 0,
        changes != 0 ==> with_changes(dump_begun(s), changes, now_ms).dirty_since_ms != 0,
{
}

} // verus!
