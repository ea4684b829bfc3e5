//! The log segment store of one partition: an append-only, gap-free sequence
//! of messages with byte accounting and prefix eviction.

use crate::message::{Message, MessageView};
use vstd::prelude::*;

verus! {

/// Total number of bytes the messages account for.
pub open spec fn total_size(messages: Seq<MessageView>) -> nat
    decreases messages.len(),
{
    if messages.len() == 0 {
        0
    } else {
        total_size(messages.drop_last()) + messages.last().size()
    }
}

/// The views of a sequence of messages, in the same order.
pub open spec fn views_of(messages: Seq<Message>) -> Seq<MessageView> {
    Seq::new(messages.len(), |i: int| messages[i]@)
}

/// Why a store operation was refused.
#[derive(Clone, Copy, Debug, PartialEq, Eq, Structural)]
pub enum StoreError {
    /// The requested offset has been evicted: the data is no longer
    /// available. `horizon` is the oldest offset still retained.
    BelowRetainedHorizon { horizon: u64 },
    /// Every 64-bit offset of the partition has been assigned.
    OffsetsExhausted,
    /// The partition's byte count would no longer fit in 64 bits.
    SizeOverflow,
    /// The store holds no partition of that topic and index.
    UnknownPartition,
    /// The requested offset has not been assigned yet: there is no data
    /// there so far. `end` is the offset the next message will get.
    NotYetAppended { end: u64 },
}

/// Mathematical model of a partition log: the offset of its oldest retained
/// message and the retained messages, oldest first.
pub struct LogView {
    pub start: nat,
    pub messages: Seq<MessageView>,
}

/// One mutation of a partition log.
pub enum LogOp {
    Append { key: Seq<u8>, payload: Seq<u8>, timestamp: nat },
    EvictBefore { offset: nat },
}

impl LogView {
    /// The log of a fresh partition.
    pub open spec fn empty() -> LogView {
        LogView { start: 0, messages: Seq::empty() }
    }

    /// The offset the next appended message will get.
    pub open spec fn end(self) -> nat {
        self.start + self.messages.len()
    }

    /// Bytes currently retained.
    pub open spec fn size_bytes(self) -> nat {
        total_size(self.messages)
    }

    /// Whether a message with this offset is retained.
    pub open spec fn resident(self, offset: nat) -> bool {
        self.start <= offset < self.end()
    }

    /// The retained message with the given offset.
    pub open spec fn message_at(self, offset: nat) -> MessageView
        recommends
            self.resident(offset),
    {
        self.messages[offset - self.start]
    }

    /// The retained messages carry the offsets `start`, `start + 1`, ... in
    /// order: none is missing and none occurs twice.
    pub open spec fn contiguous(self) -> bool {
        forall|i: int|
            0 <= i < self.messages.len() ==> (#[trigger] self.messages[i]).offset == self.start + i
    }

    /// Contiguous, and small enough for 64-bit offsets and byte counts.
    pub open spec fn well_formed(self) -> bool {
        &&& self.contiguous()
        &&& self.end() <= u64::MAX
        &&& self.size_bytes() <= u64::MAX
    }

    /// Whether a message of `size` bytes can still be appended.
    pub open spec fn can_append(self, size: nat) -> bool {
        self.end() < u64::MAX && self.size_bytes() + size <= u64::MAX
    }

    /// The log after appending one message, which gets the offset `end()`.
    pub open spec fn append(self, key: Seq<u8>, payload: Seq<u8>, timestamp: nat) -> LogView {
        LogView {
            start: self.start,
            messages: self.messages.push(
                MessageView { offset: self.end(), key, payload, timestamp },
            ),
        }
    }

    /// The start offset after evicting below `offset`: `offset` itself, kept
    /// within `start ..= end`.
    pub open spec fn horizon_after(self, offset: nat) -> nat {
        if offset <= self.start {
            self.start
        } else if offset >= self.end() {
            self.end()
        } else {
            offset
        }
    }

    /// The log after removing every message whose offset is below `offset`.
    pub open spec fn evict_before(self, offset: nat) -> LogView {
        let horizon = self.horizon_after(offset);
        LogView { start: horizon, messages: self.messages.skip(horizon - self.start) }
    }

    /// Up to `limit` retained messages starting with the one at offset `from`,
    /// for `from` at or above the start offset.
    pub open spec fn read_range(self, from: nat, limit: nat) -> Seq<MessageView> {
        let first = if from >= self.end() {
            self.messages.len() as int
        } else {
            from - self.start
        };
        let last = if first + limit >= self.messages.len() {
            self.messages.len() as int
        } else {
            first + limit
        };
        self.messages.subrange(first, last)
    }

    /// The log after one mutation.
    pub open spec fn apply(self, op: LogOp) -> LogView {
        match op {
            LogOp::Append { key, payload, timestamp } => self.append(key, payload, timestamp),
            LogOp::EvictBefore { offset } => self.evict_before(offset),
        }
    }

    /// The log after a series of mutations, applied first to last.
    pub open spec fn apply_all(self, ops: Seq<LogOp>) -> LogView
        decreases ops.len(),
    {
        if ops.len() == 0 {
            self
        } else {
            self.apply_all(ops.drop_last()).apply(ops.last())
        }
    }
}

/// The size of a log splits at any point into the size of the part before it
/// and the size of the part from it on.
pub proof fn lemma_total_size_split(messages: Seq<MessageView>, at: int)
    requires
        0 <= at <= messages.len(),
    ensures
        total_size(messages) == total_size(messages.take(at)) + total_size(messages.skip(at)),
    decreases messages.len(),
{
    if at == messages.len() {
        assert(messages.take(at) == messages);
        assert(messages.skip(at).len() == 0);
    } else {
        let shorter = messages.drop_last();
        lemma_total_size_split(shorter, at);
        assert(shorter.take(at) == messages.take(at));
        assert(messages.skip(at).drop_last() == shorter.skip(at));
        assert(messages.skip(at).last() == messages.last());
    }
}

/// Appending one message adds its size.
pub proof fn lemma_total_size_push(messages: Seq<MessageView>, message: MessageView)
    ensures
        total_size(messages.push(message)) == total_size(messages) + message.size(),
{
    assert(messages.push(message).drop_last() == messages);
}

/// A prefix of one more message is larger by that message's size.
pub proof fn lemma_total_size_take_next(messages: Seq<MessageView>, i: int)
    requires
        0 <= i < messages.len(),
    ensures
        total_size(messages.take(i + 1)) == total_size(messages.take(i)) + messages[i].size(),
        total_size(messages.skip(i)) == messages[i].size() + total_size(messages.skip(i + 1)),
        total_size(messages.take(i + 1)) <= total_size(messages),
{
    assert(messages.take(i + 1).drop_last() == messages.take(i));
    lemma_total_size_split(messages, i);
    lemma_total_size_split(messages, i + 1);
}

/// No gap, no duplicate: in a contiguous log every offset from `start` up
/// to `end` is held by exactly one retained message, the one at position
/// `offset - start`, and no retained message has an offset outside that range.
pub proof fn lemma_no_gap(log: LogView)
    requires
        log.contiguous(),
    ensures
        forall|offset: nat|
            log.resident(offset) ==> (#[trigger] log.messages[offset - log.start]).offset == offset,
        forall|i: int, j: int|
            0 <= i < log.messages.len() && 0 <= j < log.messages.len() && (
            #[trigger] log.messages[i]).offset == (#[trigger] log.messages[j]).offset ==> i == j,
        forall|i: int|
            0 <= i < log.messages.len() ==> log.resident((#[trigger] log.messages[i]).offset),
{
}

/// Appending keeps a log contiguous.
pub proof fn lemma_append_contiguous(log: LogView, key: Seq<u8>, payload: Seq<u8>, timestamp: nat)
    requires
        log.contiguous(),
    ensures
        log.append(key, payload, timestamp).contiguous(),
        log.append(key, payload, timestamp).start == log.start,
        log.append(key, payload, timestamp).end() == log.end() + 1,
{
}

/// Evicting keeps a log contiguous and never moves its end.
pub proof fn lemma_evict_contiguous(log: LogView, offset: nat)
    requires
        log.contiguous(),
    ensures
        log.evict_before(offset).contiguous(),
        log.evict_before(offset).end() == log.end(),
        log.start <= log.evict_before(offset).start <= log.end(),
{
}

/// The no-gap invariant: whatever appends and evictions a contiguous log goes
/// through, in whatever order, it stays contiguous, its start offset never
/// moves back, and its end offset grows by one for each append.
pub proof fn lemma_contiguous_invariant(log: LogView, ops: Seq<LogOp>)
    requires
        log.contiguous(),
    ensures
        log.apply_all(ops).contiguous(),
        log.start <= log.apply_all(ops).start <= log.apply_all(ops).end(),
        log.end() <= log.apply_all(ops).end(),
    decreases ops.len(),
{
    if ops.len() > 0 {
        let before = log.apply_all(ops.drop_last());
        lemma_contiguous_invariant(log, ops.drop_last());
        match ops.last() {
            LogOp::Append { key, payload, timestamp } => {
                lemma_append_contiguous(before, key, payload, timestamp);
            },
            LogOp::EvictBefore { offset } => {
                lemma_evict_contiguous(before, offset);
            },
        }
    }
}

/// The log of one partition.
///
/// Offsets are assigned by [`PartitionLog::append`], the only way in, and
/// messages leave only through [`PartitionLog::evict_before`], oldest first
/// and whole. Mutation takes `&mut self`, so appends and evictions of one
/// partition never interleave.
pub struct PartitionLog {
    start_offset: u64,
    entries: Vec<Message>,
    size_bytes: u64,
}

impl View for PartitionLog {
    type V = LogView;

    closed spec fn view(&self) -> LogView {
        LogView { start: self.start_offset as nat, messages: views_of(self.entries@) }
    }
}

impl PartitionLog {
    /// The byte counter agrees with the retained messages.
    pub closed spec fn accounted(&self) -> bool {
        self.size_bytes == total_size(self@.messages)
    }

    /// The invariant of a partition log.
    pub open spec fn wf(&self) -> bool {
        self@.well_formed() && self.accounted()
    }

    /// An empty log whose first message will get offset 0.
    pub fn new() -> (log: PartitionLog)
        ensures
            log.wf(),
            log@ == LogView::empty(),
    {
        let log = PartitionLog { start_offset: 0, entries: Vec::new(), size_bytes: 0 };
        assert(log@.messages == Seq::<MessageView>::empty());
        log
    }

    /// The retained horizon: the offset of the oldest retained message, or
    /// the end offset when nothing is retained.
    pub fn start_offset(&self) -> (offset: u64)
        ensures
            offset == self@.start,
    {
        self.start_offset
    }

    /// The offset the next appended message will get.
    pub fn end_offset(&self) -> (offset: u64)
        requires
            self.wf(),
        ensures
            offset == self@.end(),
    {
        self.start_offset + self.entries.len() as u64
    }

    /// Number of retained messages.
    pub fn len(&self) -> (count: usize)
        ensures
            count == self@.messages.len(),
    {
        self.entries.len()
    }

    /// Whether no message is retained.
    pub fn is_empty(&self) -> (empty: bool)
        ensures
            empty == (self@.messages.len() == 0),
    {
        self.entries.len() == 0
    }

    /// Bytes currently retained.
    pub fn current_size_bytes(&self) -> (size: u64)
        requires
            self.wf(),
        ensures
            size == self@.size_bytes(),
    {
        self.size_bytes
    }

    /// The retained message with the given offset.
    ///
    /// An offset below the retained horizon is refused with
    /// [`StoreError::BelowRetainedHorizon`], one at or past the end offset with
    /// [`StoreError::NotYetAppended`].
    pub fn get(&self, offset: u64) -> (result: Result<&Message, StoreError>)
        requires
            self.wf(),
        ensures
            match result {
                Ok(message) => {
                    &&& self@.resident(offset as nat)
                    &&& message@ == self@.message_at(offset as nat)
                    &&& message@.offset == offset
                },
                Err(error) => {
                    &&& !self@.resident(offset as nat)
                    &&& error == if offset < self@.start {
                        StoreError::BelowRetainedHorizon { horizon: self@.start as u64 }
                    } else {
                        StoreError::NotYetAppended { end: self@.end() as u64 }
                    }
                },
            },
    {
        if offset < self.start_offset {
            return Err(StoreError::BelowRetainedHorizon { horizon: self.start_offset });
        }
        let position = offset - self.start_offset;
        if position >= self.entries.len() as u64 {
            return Err(
                StoreError::NotYetAppended { end: self.start_offset + self.entries.len() as u64 },
            );
        }
        let message = &self.entries[position as usize];
        assert(message@ == self@.messages[position as int]);
        Ok(message)
    }

    /// The retained message at a position counted from the oldest.
    pub(crate) fn entry(&self, index: usize) -> (message: &Message)
        requires
            index < self@.messages.len(),
        ensures
            message@ == self@.messages[index as int],
    {
        &self.entries[index]
    }

    /// Bytes the retained message at a position accounts for.
    pub(crate) fn entry_size(&self, index: usize) -> (size: u64)
        requires
            self.wf(),
            index < self@.messages.len(),
        ensures
            size == self@.messages[index as int].size(),
    {
        proof {
            lemma_total_size_take_next(self@.messages, index as int);
        }
        let entry = &self.entries[index];
        assert(entry@ == self@.messages[index as int]);
        entry.key.len() as u64 + entry.payload.len() as u64
    }

    /// Appends a message and returns the offset assigned to it, which is the
    /// end offset before the call.
    ///
    /// Fails, leaving the log as it was, when no offset is left or when the
    /// byte count would overflow.
    pub fn append(&mut self, key: Vec<u8>, payload: Vec<u8>, timestamp: u64) -> (result: Result<
        u64,
        StoreError,
    >)
        requires
            old(self).wf(),
        ensures
            final(self).wf(),
            match result {
                Ok(offset) => {
                    &&& old(self)@.can_append(key@.len() + payload@.len())
                    &&& offset == old(self)@.end()
                    &&& final(self)@ == old(self)@.append(key@, payload@, timestamp as nat)
                },
                Err(error) => {
                    &&& !old(self)@.can_append(key@.len() + payload@.len())
                    &&& final(self)@ == old(self)@
                    &&& error == if old(self)@.end() == u64::MAX {
                        StoreError::OffsetsExhausted
                    } else {
                        StoreError::SizeOverflow
                    }
                },
            },
    {
        let offset = self.start_offset + self.entries.len() as u64;
        if offset == u64::MAX {
            return Err(StoreError::OffsetsExhausted);
        }
        let message = Message { offset, key, payload, timestamp };
        let new_size = match message.size_bytes() {
            Some(size) => self.size_bytes.checked_add(size),
            None => None,
        };
        match new_size {
            None => Err(StoreError::SizeOverflow),
            Some(total) => {
                proof {
                    lemma_total_size_push(self@.messages, message@);
                    assert(views_of(self.entries@.push(message)) == views_of(self.entries@).push(
                        message@,
                    ));
                }
                self.entries.push(message);
                self.size_bytes = total;
                Ok(offset)
            },
        }
    }

    /// Reads up to `limit` retained messages starting at offset `from`.
    ///
    /// A start below the retained horizon is refused with
    /// [`StoreError::BelowRetainedHorizon`]: that data is gone. A start at or
    /// past the end offset gives an empty result: that data is not there yet.
    pub fn read_range(&self, from: u64, limit: usize) -> (result: Result<Vec<Message>, StoreError>)
        requires
            self.wf(),
        ensures
            match result {
                Ok(messages) => {
                    &&& from >= self@.start
                    &&& views_of(messages@) == self@.read_range(from as nat, limit as nat)
                },
                Err(error) => {
                    &&& from < self@.start
                    &&& error == StoreError::BelowRetainedHorizon { horizon: self@.start as u64 }
                },
            },
    {
        if from < self.start_offset {
            return Err(StoreError::BelowRetainedHorizon { horizon: self.start_offset });
        }
        let count = self.entries.len();
        let first: usize = if from - self.start_offset >= count as u64 {
            count
        } else {
            (from - self.start_offset) as usize
        };
        let last: usize = if limit >= count - first {
            count
        } else {
            first + limit
        };
        let mut messages: Vec<Message> = Vec::new();
        let mut i: usize = first;
        while i < last
            invariant
                first <= i <= last <= self.entries.len(),
                views_of(messages@) == views_of(self.entries@).subrange(first as int, i as int),
            decreases last - i,
        {
            let copy = self.entries[i].duplicate();
            let ghost copied = views_of(messages@);
            assert(copy@ == views_of(self.entries@)[i as int]);
            messages.push(copy);
            assert(views_of(messages@) == copied.push(views_of(self.entries@)[i as int]));
            i = i + 1;
        }
        Ok(messages)
    }

    /// Removes every message whose offset is below `offset` and returns the
    /// number of bytes freed.
    ///
    /// The start offset moves to `offset`, but never back and never past the
    /// end offset. A message is removed whole or kept whole.
    pub fn evict_before(&mut self, offset: u64) -> (freed: u64)
        requires
            old(self).wf(),
        ensures
            final(self).wf(),
            final(self)@ == old(self)@.evict_before(offset as nat),
            freed == old(self)@.size_bytes() - final(self)@.size_bytes(),
    {
        let count = self.entries.len();
        let evicted: usize = if offset <= self.start_offset {
            0
        } else if offset - self.start_offset >= count as u64 {
            count
        } else {
            (offset - self.start_offset) as usize
        };
        let ghost before = self@;
        let mut freed: u64 = 0;
        let mut i: usize = 0;
        while i < evicted
            invariant
                i <= evicted <= self.entries.len(),
                self@ == before,
                self.wf(),
                freed == total_size(before.messages.take(i as int)),
            decreases evicted - i,
        {
            proof {
                lemma_total_size_take_next(before.messages, i as int);
            }
            let entry = &self.entries[i];
            assert(entry@ == before.messages[i as int]);
            freed = freed + (entry.key.len() as u64 + entry.payload.len() as u64);
            i = i + 1;
        }
        proof {
            lemma_total_size_split(before.messages, evicted as int);
            assert(views_of(self.entries@.subrange(evicted as int, count as int))
                == before.messages.skip(evicted as int));
        }
        let kept = self.entries.split_off(evicted);
        self.entries = kept;
        self.start_offset = self.start_offset + evicted as u64;
        self.size_bytes = self.size_bytes - freed;
        freed
    }
}

} // verus!
