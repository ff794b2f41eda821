//! The writer of records.

use vstd::prelude::*;

use std::collections::VecDeque;

verus! {

/// What the writer is told.
#[derive(Debug, PartialEq, Eq)]
pub enum WriterEvent<T> {
    /// A record to write.
    Insert(T),
    /// Old records are to be deleted.
    Cleanup,
    /// All records are to be deleted.
    ClearHistory,
    /// Write what waits.
    Flush,
    /// Nothing for a while. The flag tells whether the writer is to stop.
    Timeout(bool),
    /// Nothing will come any more.
    Disconnected,
}

/// What the writer does next.
#[derive(Debug, Clone, Copy, PartialEq, Eq, Structural)]
pub enum WriterAction {
    /// Wait for the next event.
    Wait,
    /// Write what waits.
    Flush,
    /// Write what waits, then delete old records.
    FlushThenCleanup,
    /// Write what waits, then delete all records.
    FlushThenClear,
    /// Write what waits, then stop.
    FlushThenStop,
}

/// The records that wait to be written.
#[derive(Debug, PartialEq, Eq)]
pub struct WriterState<T> {
    pending: Vec<T>,
    batch_size: usize,
}

/// What the writer does after an event, when so many records wait.
pub open spec fn action_for<T>(event: WriterEvent<T>, waiting: nat, batch_size: usize) -> WriterAction {
    match event {
        WriterEvent::Insert(_) => if waiting >= batch_size {
            WriterAction::Flush
        } else {
            WriterAction::Wait
        },
        WriterEvent::Cleanup => WriterAction::FlushThenCleanup,
        WriterEvent::ClearHistory => WriterAction::FlushThenClear,
        WriterEvent::Flush => WriterAction::Flush,
        WriterEvent::Timeout(stop) => if stop {
            WriterAction::FlushThenStop
        } else {
            WriterAction::Flush
        },
        WriterEvent::Disconnected => WriterAction::FlushThenStop,
    }
}

impl<T> WriterState<T> {
    pub closed spec fn pending(&self) -> Seq<T> {
        self.pending@
    }

    pub closed spec fn batch_size(&self) -> usize {
        self.batch_size
    }

    /// Nothing waits yet.
    pub fn new(batch_size: usize) -> (r: WriterState<T>)
        ensures
            r.pending() == Seq::<T>::empty(),
            r.batch_size() == batch_size,
    {
        WriterState { pending: Vec::new(), batch_size }
    }

    /// Takes an event in.
    pub fn handle(&mut self, event: WriterEvent<T>) -> (r: WriterAction)
        ensures
            final(self).batch_size() == old(self).batch_size(),
            final(self).pending() == (match event {
                WriterEvent::Insert(record) => old(self).pending().push(record),
                _ => old(self).pending(),
            }),
            r == action_for(event, final(self).pending().len(), old(self).batch_size()),
    {
        match event {
            WriterEvent::Insert(record) => {
                self.pending.push(record);
                if self.pending.len() >= self.batch_size {
                    WriterAction::Flush
                } else {
                    WriterAction::Wait
                }
            },
            WriterEvent::Cleanup => WriterAction::FlushThenCleanup,
            WriterEvent::ClearHistory => WriterAction::FlushThenClear,
            WriterEvent::Flush => WriterAction::Flush,
            WriterEvent::Timeout(stop) => {
                if stop {
                    WriterAction::FlushThenStop
                } else {
                    WriterAction::Flush
                }
            },
            WriterEvent::Disconnected => WriterAction::FlushThenStop,
        }
    }

    /// Whether nothing waits.
    pub fn is_empty(&self) -> (r: bool)
        ensures
            r == (self.pending().len() == 0),
    {
        self.pending.len() == 0
    }

    /// Takes out what waits, in order.
    pub fn take_pending(&mut self) -> (r: Vec<T>)
        ensures
            r@ == old(self).pending(),
            final(self).pending() == Seq::<T>::empty(),
            final(self).batch_size() == old(self).batch_size(),
    {
        let mut out: Vec<T> = Vec::new();
        std::mem::swap(&mut out, &mut self.pending);
        out
    }
}

/// The records in memory after one more: the oldest makes room.
pub open spec fn tail_with<T>(tail: Seq<T>, detail: T, memory_tail: usize) -> Seq<T> {
    let kept = if tail.len() >= memory_tail && tail.len() > 0 {
        tail.skip(1)
    } else {
        tail
    };
    kept.push(detail)
}

/// Keeps a record that has been written in memory.
pub fn push_tail<T>(tail: &mut VecDeque<T>, detail: T, memory_tail: usize)
    ensures
        final(tail)@ == tail_with(old(tail)@, detail, memory_tail),
{
    let ghost before = tail@;
    if tail.len() >= memory_tail {
        let _ = tail.pop_front();
        assert(tail@ =~= (if before.len() > 0 {
            before.skip(1)
        } else {
            before
        }));
    }
    tail.push_back(detail);
}

/// Forgets the records in memory.
pub fn clear_tail<T>(tail: &mut VecDeque<T>)
    ensures
        final(tail)@ == Seq::<T>::empty(),
{
    tail.clear();
}

/// Takes note of a batch that was deleted while the history is cleared: what is in
/// memory is forgotten before anything else can fail. Returns the number of records
/// that are gone, and whether there are more.
pub fn after_cleared_batch<T>(tail: &mut VecDeque<T>, cleared: usize, deleted: usize) -> (r: (
    usize,
    bool,
))
    ensures
        final(tail)@ == Seq::<T>::empty(),
        r.0 == (if cleared + deleted > usize::MAX {
            usize::MAX
        } else {
            (cleared + deleted) as usize
        }),
        r.1 == (deleted > 0),
{
    clear_tail(tail);
    (cleared.saturating_add(deleted), deleted > 0)
}

/// Records are written in the order in which they came, and a batch is written as soon
/// as it is full.
pub proof fn law_full_batch_is_written<T>(record: T, waiting: Seq<T>, batch_size: usize)
    requires
        waiting.len() + 1 >= batch_size,
    ensures
        action_for(WriterEvent::Insert(record), waiting.push(record).len(), batch_size)
            == WriterAction::Flush,
{
}

/// The writer stops where it is told to while nothing comes, and where nothing can come
/// any more; it writes what waits first. No other event stops it.
pub proof fn law_stop_after_flush<T>(event: WriterEvent<T>, waiting: nat, batch_size: usize)
    ensures
        event is Disconnected ==> action_for(event, waiting, batch_size)
            == WriterAction::FlushThenStop,
        event == WriterEvent::<T>::Timeout(true) ==> action_for(event, waiting, batch_size)
            == WriterAction::FlushThenStop,
        !(event is Disconnected) && event != WriterEvent::<T>::Timeout(true) ==> action_for(
            event,
            waiting,
            batch_size,
        ) != WriterAction::FlushThenStop,
{
}

/// The records in memory are the latest, and no more than there may be.
pub proof fn law_tail_is_bounded<T>(tail: Seq<T>, detail: T, memory_tail: usize)
    requires
        tail.len() <= memory_tail,
        memory_tail > 0,
    ensures
        tail_with(tail, detail, memory_tail).len() <= memory_tail,
        tail_with(tail, detail, memory_tail).last() == detail,
{
}

} // verus!
