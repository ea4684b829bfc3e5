//! The log segment store: the partition logs a broker owns, each found by
//! its topic and partition index.
//!
//! Partitions are independent of one another: an operation on one leaves
//! every other exactly as it was.

use crate::log::{views_of, LogView, PartitionLog, StoreError};
use crate::message::Message;
use crate::retention::{lemma_sweep_within_bytes, RetentionPolicy};
use vstd::prelude::*;

verus! {

/// What identifies a partition: the name of its topic and its index.
pub type PartitionKey = (Seq<char>, u32);

/// Mathematical model of the store: the log of every partition it owns.
pub struct StoreView {
    pub logs: Map<PartitionKey, LogView>,
}

impl StoreView {
    /// A store that owns no partition.
    pub open spec fn empty() -> StoreView {
        StoreView { logs: Map::empty() }
    }

    /// Every log is well formed.
    pub open spec fn well_formed(self) -> bool {
        forall|key: PartitionKey| #[trigger] self.logs.contains_key(key) ==> self.logs[key].well_formed()
    }

    /// The store after making sure that it owns a partition: a partition it
    /// did not own starts with an empty log, one it owned keeps its log.
    pub open spec fn ensure_partition(self, key: PartitionKey) -> StoreView {
        if self.logs.contains_key(key) {
            self
        } else {
            StoreView { logs: self.logs.insert(key, LogView::empty()) }
        }
    }

    /// The store after a message was appended to a partition it owns.
    pub open spec fn append(
        self,
        key: PartitionKey,
        message_key: Seq<u8>,
        payload: Seq<u8>,
        timestamp: nat,
    ) -> StoreView {
        StoreView {
            logs: self.logs.insert(key, self.logs[key].append(message_key, payload, timestamp)),
        }
    }

    /// The store after evicting below `offset` in a partition it owns.
    pub open spec fn evict_before(self, key: PartitionKey, offset: nat) -> StoreView {
        StoreView { logs: self.logs.insert(key, self.logs[key].evict_before(offset)) }
    }

    /// The store after every partition was swept.
    pub open spec fn sweep(self, policy: RetentionPolicy, now: nat) -> StoreView {
        StoreView {
            logs: Map::new(
                |key: PartitionKey| self.logs.contains_key(key),
                |key: PartitionKey| self.logs[key].sweep(policy, now),
            ),
        }
    }
}

/// After a sweep of the store every partition retains at most `max_bytes`
/// bytes, the store owns the same partitions as before, and no end offset
/// has moved.
pub proof fn lemma_store_sweep_within_bytes(store: StoreView, policy: RetentionPolicy, now: nat)
    ensures
        store.sweep(policy, now).logs.dom() == store.logs.dom(),
        forall|key: PartitionKey| #[trigger]
            store.logs.contains_key(key) ==> {
                &&& store.sweep(policy, now).logs[key].size_bytes() <= policy.max_bytes
                &&& store.sweep(policy, now).logs[key].end() == store.logs[key].end()
            },
{
    assert(store.sweep(policy, now).logs.dom() =~= store.logs.dom());
    assert forall|key: PartitionKey| #[trigger] store.logs.contains_key(key) implies {
        &&& store.sweep(policy, now).logs[key].size_bytes() <= policy.max_bytes
        &&& store.sweep(policy, now).logs[key].end() == store.logs[key].end()
    } by {
        lemma_sweep_within_bytes(store.logs[key], policy, now);
    }
}

struct Partition {
    topic: String,
    index: u32,
    log: PartitionLog,
}

impl Partition {
    spec fn key(self) -> PartitionKey {
        (self.topic@, self.index)
    }
}

spec fn has_key(partitions: Seq<Partition>, key: PartitionKey) -> bool {
    exists|i: int| 0 <= i < partitions.len() && (#[trigger] partitions[i]).key() == key
}

spec fn slot_of(partitions: Seq<Partition>, key: PartitionKey) -> int {
    choose|i: int| 0 <= i < partitions.len() && (#[trigger] partitions[i]).key() == key
}

spec fn distinct(partitions: Seq<Partition>) -> bool {
    forall|i: int, j: int|
        0 <= i < j < partitions.len() ==> (#[trigger] partitions[i]).key() != (
        #[trigger] partitions[j]).key()
}

spec fn by_key(partitions: Seq<Partition>) -> Map<PartitionKey, LogView> {
    Map::new(
        |key: PartitionKey| has_key(partitions, key),
        |key: PartitionKey| partitions[slot_of(partitions, key)].log@,
    )
}

proof fn lemma_by_key_at(partitions: Seq<Partition>, i: int)
    requires
        distinct(partitions),
        0 <= i < partitions.len(),
    ensures
        has_key(partitions, partitions[i].key()),
        slot_of(partitions, partitions[i].key()) == i,
        by_key(partitions).contains_key(partitions[i].key()),
        by_key(partitions)[partitions[i].key()] == partitions[i].log@,
{
    let key = partitions[i].key();
    let found = slot_of(partitions, key);
    assert(0 <= found < partitions.len() && partitions[found].key() == key);
    if found < i {
        assert(partitions[found].key() != partitions[i].key());
    } else if i < found {
        assert(partitions[i].key() != partitions[found].key());
    }
}

proof fn lemma_by_key_push(partitions: Seq<Partition>, added: Partition)
    requires
        distinct(partitions),
        !has_key(partitions, added.key()),
    ensures
        distinct(partitions.push(added)),
        by_key(partitions.push(added)) == by_key(partitions).insert(added.key(), added.log@),
{
    let longer = partitions.push(added);
    assert forall|i: int, j: int| 0 <= i < j < longer.len() implies (#[trigger] longer[i]).key() != (
    #[trigger] longer[j]).key() by {
        if j < partitions.len() {
            assert(longer[i] == partitions[i] && longer[j] == partitions[j]);
        } else {
            assert(longer[i] == partitions[i]);
        }
    }
    let expected = by_key(partitions).insert(added.key(), added.log@);
    assert forall|key: PartitionKey| #[trigger]
        by_key(longer).contains_key(key) == expected.contains_key(key) by {
        if has_key(longer, key) {
            let i = slot_of(longer, key);
            if i < partitions.len() {
                assert(partitions[i].key() == key);
            }
        }
        if has_key(partitions, key) {
            let i = slot_of(partitions, key);
            assert(longer[i].key() == key);
        }
        if key == added.key() {
            assert(longer[partitions.len() as int].key() == key);
        }
    }
    assert forall|key: PartitionKey| #[trigger] by_key(longer).contains_key(key) implies by_key(
        longer,
    )[key] == expected[key] by {
        let i = slot_of(longer, key);
        lemma_by_key_at(longer, i);
        if i < partitions.len() {
            assert(partitions[i] == longer[i]);
            lemma_by_key_at(partitions, i);
        }
    }
    assert(by_key(longer) =~= expected);
}

proof fn lemma_by_key_same_keys(before: Seq<Partition>, after: Seq<Partition>)
    requires
        distinct(before),
        before.len() == after.len(),
        forall|i: int| 0 <= i < before.len() ==> (#[trigger] after[i]).key() == before[i].key(),
    ensures
        distinct(after),
        by_key(after).dom() == by_key(before).dom(),
        forall|key: PartitionKey| #[trigger]
            has_key(before, key) ==> has_key(after, key) && slot_of(before, key) == slot_of(
                after,
                key,
            ),
{
    assert forall|i: int, j: int| 0 <= i < j < after.len() implies (#[trigger] after[i]).key() != (
    #[trigger] after[j]).key() by {
        assert(before[i].key() != before[j].key());
    }
    assert forall|key: PartitionKey| has_key(before, key) == has_key(after, key) by {
        if has_key(before, key) {
            let i = slot_of(before, key);
            assert(after[i].key() == key);
        }
        if has_key(after, key) {
            let i = slot_of(after, key);
            assert(before[i].key() == key);
        }
    }
    assert(by_key(after).dom() =~= by_key(before).dom());
    assert forall|key: PartitionKey| #[trigger] has_key(before, key) implies slot_of(before, key)
        == slot_of(after, key) by {
        let i = slot_of(before, key);
        assert(after[i].key() == key);
        lemma_by_key_at(after, i);
    }
}

proof fn lemma_by_key_update(before: Seq<Partition>, after: Seq<Partition>, at: int)
    requires
        distinct(before),
        before.len() == after.len(),
        0 <= at < before.len(),
        after[at].key() == before[at].key(),
        forall|i: int| 0 <= i < before.len() && i != at ==> #[trigger] after[i] == before[i],
    ensures
        distinct(after),
        by_key(after) == by_key(before).insert(before[at].key(), after[at].log@),
{
    assert forall|i: int| 0 <= i < before.len() implies (#[trigger] after[i]).key()
        == before[i].key() by {
        if i != at {
            assert(after[i] == before[i]);
        }
    }
    lemma_by_key_same_keys(before, after);
    lemma_by_key_at(before, at);
    let expected = by_key(before).insert(before[at].key(), after[at].log@);
    assert(by_key(after).dom() =~= expected.dom());
    assert forall|key: PartitionKey| #[trigger] by_key(after).contains_key(key) implies by_key(
        after,
    )[key] == expected[key] by {
        let i = slot_of(after, key);
        lemma_by_key_at(after, i);
        lemma_by_key_at(before, i);
        if i != at {
            assert(after[i] == before[i]);
        }
    }
    assert(by_key(after) =~= expected);
}

/// The log segment store.
pub struct LogStore {
    partitions: Vec<Partition>,
}

impl View for LogStore {
    type V = StoreView;

    closed spec fn view(&self) -> StoreView {
        StoreView { logs: by_key(self.partitions@) }
    }
}

impl LogStore {
    /// No partition is held twice, and every log keeps its own invariant.
    pub closed spec fn consistent(&self) -> bool {
        &&& distinct(self.partitions@)
        &&& forall|i: int| 0 <= i < self.partitions.len() ==> (#[trigger] self.partitions[i]).log.wf()
    }

    /// The invariant of the store.
    pub open spec fn wf(&self) -> bool {
        self@.well_formed() && self.consistent()
    }

    /// A store that owns no partition.
    pub fn new() -> (store: LogStore)
        ensures
            store.wf(),
            store@ == StoreView::empty(),
    {
        let store = LogStore { partitions: Vec::new() };
        assert(store@.logs =~= Map::empty());
        store
    }

    fn find(&self, topic: &String, index: u32) -> (found: Option<usize>)
        requires
            self.wf(),
        ensures
            match found {
                Some(i) => {
                    &&& i < self.partitions.len()
                    &&& self.partitions[i as int].key() == (topic@, index)
                    &&& self@.logs.contains_key((topic@, index))
                    &&& self@.logs[(topic@, index)] == self.partitions[i as int].log@
                    &&& self.partitions[i as int].log.wf()
                },
                None => !self@.logs.contains_key((topic@, index)),
            },
    {
        let mut i: usize = 0;
        while i < self.partitions.len()
            invariant
                i <= self.partitions.len(),
                self.wf(),
                forall|k: int| 0 <= k < i ==> (#[trigger] self.partitions[k]).key() != (topic@, index),
            decreases self.partitions.len() - i,
        {
            if self.partitions[i].index == index && self.partitions[i].topic == *topic {
                proof {
                    lemma_by_key_at(self.partitions@, i as int);
                }
                return Some(i);
            }
            i = i + 1;
        }
        None
    }

    /// Whether the store owns this partition.
    pub fn has_partition(&self, topic: &str, index: u32) -> (owned: bool)
        requires
            self.wf(),
        ensures
            owned == self@.logs.contains_key((topic@, index)),
    {
        let name = topic.to_owned();
        self.find(&name, index).is_some()
    }

    /// Creates the partition, empty, if the store does not own it yet, and
    /// says whether it did so. Calling it again changes nothing.
    pub fn ensure_partition(&mut self, topic: &str, index: u32) -> (created: bool)
        requires
            old(self).wf(),
        ensures
            final(self).wf(),
            final(self)@ == old(self)@.ensure_partition((topic@, index)),
            created == !old(self)@.logs.contains_key((topic@, index)),
    {
        let name = topic.to_owned();
        match self.find(&name, index) {
            Some(_) => false,
            None => {
                let added = Partition { topic: name, index, log: PartitionLog::new() };
                proof {
                    lemma_by_key_push(self.partitions@, added);
                }
                self.partitions.push(added);
                true
            },
        }
    }

    /// The retained horizon of a partition: the oldest offset still held.
    pub fn start_offset(&self, topic: &str, index: u32) -> (result: Result<u64, StoreError>)
        requires
            self.wf(),
        ensures
            match result {
                Ok(offset) => self@.logs.contains_key((topic@, index)) && offset
                    == self@.logs[(topic@, index)].start,
                Err(error) => !self@.logs.contains_key((topic@, index)) && error
                    == StoreError::UnknownPartition,
            },
    {
        let name = topic.to_owned();
        match self.find(&name, index) {
            Some(i) => Ok(self.partitions[i].log.start_offset()),
            None => Err(StoreError::UnknownPartition),
        }
    }

    /// The offset the next message appended to a partition will get.
    pub fn end_offset(&self, topic: &str, index: u32) -> (result: Result<u64, StoreError>)
        requires
            self.wf(),
        ensures
            match result {
                Ok(offset) => self@.logs.contains_key((topic@, index)) && offset
                    == self@.logs[(topic@, index)].end(),
                Err(error) => !self@.logs.contains_key((topic@, index)) && error
                    == StoreError::UnknownPartition,
            },
    {
        let name = topic.to_owned();
        match self.find(&name, index) {
            Some(i) => Ok(self.partitions[i].log.end_offset()),
            None => Err(StoreError::UnknownPartition),
        }
    }

    /// Bytes a partition currently retains.
    pub fn current_size_bytes(&self, topic: &str, index: u32) -> (result: Result<u64, StoreError>)
        requires
            self.wf(),
        ensures
            match result {
                Ok(size) => self@.logs.contains_key((topic@, index)) && size
                    == self@.logs[(topic@, index)].size_bytes(),
                Err(error) => !self@.logs.contains_key((topic@, index)) && error
                    == StoreError::UnknownPartition,
            },
    {
        let name = topic.to_owned();
        match self.find(&name, index) {
            Some(i) => Ok(self.partitions[i].log.current_size_bytes()),
            None => Err(StoreError::UnknownPartition),
        }
    }

    /// Appends a message to a partition and returns the offset assigned to
    /// it: the partition's end offset before the call.
    ///
    /// Fails, changing nothing, when the store does not own the partition or
    /// the partition cannot take the message.
    pub fn append(
        &mut self,
        topic: &str,
        index: u32,
        key: Vec<u8>,
        payload: Vec<u8>,
        timestamp: u64,
    ) -> (result: Result<u64, StoreError>)
        requires
            old(self).wf(),
        ensures
            final(self).wf(),
            match result {
                Ok(offset) => {
                    let log = old(self)@.logs[(topic@, index)];
                    &&& old(self)@.logs.contains_key((topic@, index))
                    &&& log.can_append(key@.len() + payload@.len())
                    &&& offset == log.end()
                    &&& final(self)@ == old(self)@.append(
                        (topic@, index),
                        key@,
                        payload@,
                        timestamp as nat,
                    )
                },
                Err(error) => {
                    let log = old(self)@.logs[(topic@, index)];
                    &&& final(self)@ == old(self)@
                    &&& error == if !old(self)@.logs.contains_key((topic@, index)) {
                        StoreError::UnknownPartition
                    } else if log.end() == u64::MAX {
                        StoreError::OffsetsExhausted
                    } else {
                        StoreError::SizeOverflow
                    }
                    &&& !(old(self)@.logs.contains_key((topic@, index)) && log.can_append(
                        key@.len() + payload@.len(),
                    ))
                },
            },
    {
        let name = topic.to_owned();
        match self.find(&name, index) {
            None => Err(StoreError::UnknownPartition),
            Some(i) => {
                let ghost before = self.partitions@;
                let result = self.partitions[i].log.append(key, payload, timestamp);
                proof {
                    lemma_by_key_update(before, self.partitions@, i as int);
                    if result is Err {
                        assert(self@.logs =~= old(self)@.logs);
                    }
                }
                result
            },
        }
    }

    /// Reads up to `limit` retained messages of a partition, starting at
    /// offset `from`.
    ///
    /// A start below the retained horizon is refused: that data is no longer
    /// available. A start at or past the end offset gives an empty result:
    /// that data is not there yet.
    pub fn read_range(&self, topic: &str, index: u32, from: u64, limit: usize) -> (result: Result<
        Vec<Message>,
        StoreError,
    >)
        requires
            self.wf(),
        ensures
            match result {
                Ok(messages) => {
                    let log = self@.logs[(topic@, index)];
                    &&& self@.logs.contains_key((topic@, index))
                    &&& from >= log.start
                    &&& views_of(messages@) == log.read_range(from as nat, limit as nat)
                },
                Err(error) => {
                    let log = self@.logs[(topic@, index)];
                    error == if !self@.logs.contains_key((topic@, index)) {
                        StoreError::UnknownPartition
                    } else {
                        StoreError::BelowRetainedHorizon { horizon: log.start as u64 }
                    } && (self@.logs.contains_key((topic@, index)) ==> from < log.start)
                },
            },
    {
        let name = topic.to_owned();
        match self.find(&name, index) {
            None => Err(StoreError::UnknownPartition),
            Some(i) => self.partitions[i].log.read_range(from, limit),
        }
    }

    /// Removes every message of a partition whose offset is below `offset`
    /// and returns the number of bytes freed.
    pub fn evict_before(&mut self, topic: &str, index: u32, offset: u64) -> (result: Result<
        u64,
        StoreError,
    >)
        requires
            old(self).wf(),
        ensures
            final(self).wf(),
            match result {
                Ok(freed) => {
                    &&& old(self)@.logs.contains_key((topic@, index))
                    &&& final(self)@ == old(self)@.evict_before((topic@, index), offset as nat)
                    &&& freed == old(self)@.logs[(topic@, index)].size_bytes()
                        - final(self)@.logs[(topic@, index)].size_bytes()
                },
                Err(error) => {
                    &&& !old(self)@.logs.contains_key((topic@, index))
                    &&& error == StoreError::UnknownPartition
                    &&& final(self)@ == old(self)@
                },
            },
    {
        let name = topic.to_owned();
        match self.find(&name, index) {
            None => Err(StoreError::UnknownPartition),
            Some(i) => {
                let ghost before = self.partitions@;
                let freed = self.partitions[i].log.evict_before(offset);
                proof {
                    lemma_by_key_update(before, self.partitions@, i as int);
                }
                Ok(freed)
            },
        }
    }

    /// Sweeps every partition under one policy at time `now`.
    pub fn sweep(&mut self, policy: &RetentionPolicy, now: u64)
        requires
            old(self).wf(),
        ensures
            final(self).wf(),
            final(self)@ == old(self)@.sweep(*policy, now as nat),
    {
        let ghost before = self.partitions@;
        let mut i: usize = 0;
        while i < self.partitions.len()
            invariant
                i <= self.partitions.len(),
                self.partitions.len() == before.len(),
                distinct(before),
                forall|k: int| 0 <= k < before.len() ==> (#[trigger] self.partitions[k]).log.wf(),
                forall|k: int|
                    0 <= k < before.len() ==> (#[trigger] self.partitions[k]).key()
                        == before[k].key(),
                forall|k: int|
                    0 <= k < i ==> (#[trigger] self.partitions[k]).log@ == before[k].log@.sweep(
                        *policy,
                        now as nat,
                    ),
                forall|k: int| i <= k < before.len() ==> (#[trigger] self.partitions[k]) == before[k],
            decreases self.partitions.len() - i,
        {
            let _ = policy.sweep(&mut self.partitions[i].log, now);
            i = i + 1;
        }
        proof {
            let after = self.partitions@;
            let wanted = old(self)@.sweep(*policy, now as nat).logs;
            lemma_by_key_same_keys(before, after);
            assert(by_key(after).dom() =~= wanted.dom());
            assert forall|key: PartitionKey| #[trigger] by_key(after).contains_key(
                key,
            ) implies by_key(after)[key] == wanted[key] by {
                let k = slot_of(after, key);
                lemma_by_key_at(after, k);
                lemma_by_key_at(before, k);
            }
            assert(by_key(after) =~= wanted);
            assert forall|key: PartitionKey| #[trigger] by_key(after).contains_key(
                key,
            ) implies by_key(after)[key].well_formed() by {
                let k = slot_of(after, key);
                lemma_by_key_at(after, k);
            }
        }
    }
}

} // verus!
