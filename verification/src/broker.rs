//! The broker: one partition of every topic, the registry of topics and
//! subscriptions, and the publish path that ties them together.
//!
//! A broker is configured with the index of the partition it owns and the
//! number of partitions every topic is split into. It keeps the log of its
//! partition for each topic, rejects a publish whose key belongs to another
//! partition, and fans every appended message out to the live subscriptions
//! of the topic.

use crate::log::{lemma_total_size_push, views_of, LogView, StoreError};
use crate::message::{copy_bytes, Message, MessageView};
use crate::registry::{lemma_fanout_well_formed, RegistryView, TopicRegistry};
use crate::retention::RetentionPolicy;
use crate::router::{partition_of, route};
use crate::store::{lemma_store_sweep_within_bytes, LogStore, PartitionKey, StoreView};
use crate::subscriber::{
    lemma_deliver_all_keeps_order, newest, SubscriberHandle, SubscriberView,
};
use vstd::prelude::*;

verus! {

/// Capacity of a subscription's delivery queue unless the broker is built
/// with another.
pub const DEFAULT_QUEUE_CAPACITY: usize = 1024;

/// Why the broker refused a request.
#[derive(Clone, Copy, Debug, PartialEq, Eq, Structural)]
pub enum BrokerError {
    /// The configuration names no partition, a partition index outside the
    /// partition count, or a delivery queue without room for a message.
    InvalidConfiguration,
    /// The key routes to `partition`, which this broker does not own.
    NotOwned { partition: u32 },
    /// The log segment store refused the operation.
    Storage(StoreError),
    /// The registry has no handle left for a new subscription.
    SubscriptionsExhausted,
}

/// Mathematical model of a broker.
pub struct BrokerView {
    /// Index of the partition this broker owns, for every topic.
    pub partition_id: u32,
    /// Number of partitions every topic is split into.
    pub total_partitions: u32,
    /// The retention policy, if one is configured.
    pub retention: Option<RetentionPolicy>,
    /// The partition logs.
    pub store: StoreView,
    /// Topics and live subscriptions.
    pub registry: RegistryView,
}

impl BrokerView {
    /// A broker that has seen no topic and no subscription yet.
    pub open spec fn fresh(
        partition_id: u32,
        total_partitions: u32,
        retention: Option<RetentionPolicy>,
        queue_capacity: nat,
    ) -> BrokerView {
        BrokerView {
            partition_id,
            total_partitions,
            retention,
            store: StoreView::empty(),
            registry: RegistryView::empty(queue_capacity),
        }
    }

    /// What identifies this broker's partition of a topic.
    pub open spec fn partition(self, topic: Seq<char>) -> PartitionKey {
        (topic, self.partition_id)
    }

    /// The log of this broker's partition of a topic.
    pub open spec fn log(self, topic: Seq<char>) -> LogView {
        self.store.logs[self.partition(topic)]
    }

    /// The configuration is sound, the parts are well formed, and the store
    /// holds exactly one log for each topic: that of the owned partition.
    pub open spec fn well_formed(self) -> bool {
        &&& self.partition_id < self.total_partitions
        &&& self.store.well_formed()
        &&& self.registry.well_formed()
        &&& forall|topic: Seq<char>| #[trigger]
            self.registry.topics.contains(topic) ==> self.store.logs.contains_key(
                self.partition(topic),
            )
        &&& forall|key: PartitionKey| #[trigger]
            self.store.logs.contains_key(key) ==> key.1 == self.partition_id
                && self.registry.topics.contains(key.0)
    }

    /// Whether a key belongs to the partition this broker owns.
    pub open spec fn owns(self, key: Seq<u8>) -> bool {
        partition_of(key, self.total_partitions) == self.partition_id
    }

    /// The broker after making sure that a topic exists, with the log of the
    /// owned partition.
    pub open spec fn ensure_topic(self, topic: Seq<char>) -> BrokerView {
        BrokerView {
            store: self.store.ensure_partition(self.partition(topic)),
            registry: self.registry.ensure_topic(topic),
            ..self
        }
    }

    /// Whether a publish is accepted: the key belongs to the owned partition
    /// and the log can take the message.
    pub open spec fn accepts(self, topic: Seq<char>, key: Seq<u8>, payload: Seq<u8>) -> bool {
        self.owns(key) && self.ensure_topic(topic).log(topic).can_append(key.len() + payload.len())
    }

    /// The error a publish that is not accepted is refused with.
    pub open spec fn refusal(self, topic: Seq<char>, key: Seq<u8>) -> BrokerError {
        if !self.owns(key) {
            BrokerError::NotOwned { partition: partition_of(key, self.total_partitions) }
        } else if self.ensure_topic(topic).log(topic).end() == u64::MAX {
            BrokerError::Storage(StoreError::OffsetsExhausted)
        } else {
            BrokerError::Storage(StoreError::SizeOverflow)
        }
    }

    /// The offset an accepted publish to a topic is answered with.
    pub open spec fn next_offset(self, topic: Seq<char>) -> nat {
        self.ensure_topic(topic).log(topic).end()
    }

    /// The broker after an accepted publish: the topic exists, the message is
    /// at the end of the log with the next offset, and a copy of it is at the
    /// back of the queue of every subscription to the topic.
    pub open spec fn publish(self, topic: Seq<char>, key: Seq<u8>, payload: Seq<u8>, now: nat) -> BrokerView {
        let ready = self.ensure_topic(topic);
        let message = MessageView { offset: ready.log(topic).end(), key, payload, timestamp: now };
        BrokerView {
            store: ready.store.append(ready.partition(topic), key, payload, now),
            registry: ready.registry.fanout(topic, message),
            ..ready
        }
    }

    /// The broker after a new subscription to a topic.
    pub open spec fn subscribe(self, topic: Seq<char>) -> BrokerView {
        BrokerView {
            store: self.store.ensure_partition(self.partition(topic)),
            registry: self.registry.subscribe(topic),
            ..self
        }
    }

    /// The broker after a subscription was removed.
    pub open spec fn unsubscribe(self, handle: SubscriberHandle) -> BrokerView {
        BrokerView { registry: self.registry.unsubscribe(handle), ..self }
    }

    /// The broker after a consumer took the oldest message of its queue.
    pub open spec fn take(self, handle: SubscriberHandle) -> BrokerView {
        BrokerView { registry: self.registry.take(handle), ..self }
    }

    /// The broker after a sweep at time `now`: every log swept under the
    /// configured policy, or nothing changed when none is configured.
    pub open spec fn sweep(self, now: nat) -> BrokerView {
        match self.retention {
            Some(policy) => BrokerView { store: self.store.sweep(policy, now), ..self },
            None => self,
        }
    }
}

/// What a producer hands over in one publish.
pub struct Publication {
    pub key: Seq<u8>,
    pub payload: Seq<u8>,
    pub timestamp: nat,
}

/// The messages a series of publications becomes when the first of them gets
/// the offset `first`: each gets the offset after the one before it.
pub open spec fn stamped(batch: Seq<Publication>, first: nat) -> Seq<MessageView> {
    Seq::new(
        batch.len(),
        |i: int|
            MessageView {
                offset: (first + i) as nat,
                key: batch[i].key,
                payload: batch[i].payload,
                timestamp: batch[i].timestamp,
            },
    )
}

impl BrokerView {
    /// The broker after a series of accepted publishes to one topic, first to
    /// last.
    pub open spec fn publish_all(self, topic: Seq<char>, batch: Seq<Publication>) -> BrokerView
        decreases batch.len(),
    {
        if batch.len() == 0 {
            self
        } else {
            self.publish_all(topic, batch.drop_last()).publish(
                topic,
                batch.last().key,
                batch.last().payload,
                batch.last().timestamp,
            )
        }
    }

    /// Whether every publish of a series is accepted at its turn.
    pub open spec fn accepts_all(self, topic: Seq<char>, batch: Seq<Publication>) -> bool
        decreases batch.len(),
    {
        batch.len() == 0 || (self.accepts_all(topic, batch.drop_last()) && self.publish_all(
            topic,
            batch.drop_last(),
        ).accepts(topic, batch.last().key, batch.last().payload))
    }
}

/// An accepted publish keeps the broker well formed, appends exactly one
/// message to the log of the topic, moves the next offset on by one, and
/// leaves the topic in existence.
pub proof fn lemma_publish_well_formed(
    broker: BrokerView,
    topic: Seq<char>,
    key: Seq<u8>,
    payload: Seq<u8>,
    now: nat,
)
    requires
        broker.well_formed(),
        broker.accepts(topic, key, payload),
    ensures
        broker.ensure_topic(topic).well_formed(),
        broker.publish(topic, key, payload, now).well_formed(),
        broker.publish(topic, key, payload, now).registry.topics.contains(topic),
        broker.publish(topic, key, payload, now).log(topic) == broker.ensure_topic(topic).log(
            topic,
        ).append(key, payload, now),
        broker.publish(topic, key, payload, now).next_offset(topic) == broker.next_offset(topic)
            + 1,
        broker.registry.topics.contains(topic) ==> broker.ensure_topic(topic) == broker,
{
    let ready = broker.ensure_topic(topic);
    let after = broker.publish(topic, key, payload, now);
    let message = MessageView { offset: ready.log(topic).end(), key, payload, timestamp: now };
    lemma_total_size_push(ready.log(topic).messages, message);
    lemma_fanout_well_formed(ready.registry, topic, message);
    assert(after.registry.topics.contains(topic));
    assert(after.store.logs.contains_key(after.partition(topic)));
    assert(after.ensure_topic(topic).store == after.store);
    if broker.registry.topics.contains(topic) {
        assert(broker.registry.topics.insert(topic) =~= broker.registry.topics);
    }
}

/// Per-partition order: in a series of accepted publishes to one topic the
/// offsets answered grow by exactly one from each publish to the next, the
/// log gains the messages in publish order, and every subscription to the
/// topic that was live before the first of them holds afterwards what it held
/// before followed by those messages in that same order, cut down to the
/// newest `capacity` of them.
pub proof fn lemma_publish_all_in_order(
    broker: BrokerView,
    topic: Seq<char>,
    batch: Seq<Publication>,
)
    requires
        broker.well_formed(),
        broker.accepts_all(topic, batch),
    ensures
        broker.publish_all(topic, batch).well_formed(),
        forall|i: int|
            0 <= i <= batch.len() ==> (#[trigger] broker.publish_all(
                topic,
                batch.take(i),
            )).next_offset(topic) == broker.next_offset(topic) + i,
        batch.len() > 0 ==> {
            &&& broker.publish_all(topic, batch).registry.topics.contains(topic)
            &&& broker.publish_all(topic, batch).log(topic).start == broker.ensure_topic(
                topic,
            ).log(topic).start
            &&& broker.publish_all(topic, batch).log(topic).messages == broker.ensure_topic(
                topic,
            ).log(topic).messages + stamped(batch, broker.next_offset(topic))
        },
        broker.publish_all(topic, batch).registry.subscribers.dom()
            == broker.registry.subscribers.dom(),
        broker.publish_all(topic, batch).registry.next_handle == broker.registry.next_handle,
        broker.publish_all(topic, batch).registry.queue_capacity
            == broker.registry.queue_capacity,
        forall|handle: SubscriberHandle| #[trigger]
            broker.registry.subscribers.contains_key(handle)
                && broker.registry.subscribers[handle].topic == topic ==> {
                let before = broker.registry.subscribers[handle];
                let after = broker.publish_all(topic, batch).registry.subscribers[handle];
                &&& after == before.deliver_all(stamped(batch, broker.next_offset(topic)))
                &&& after.queue == newest(
                    before.queue + stamped(batch, broker.next_offset(topic)),
                    before.capacity,
                )
            },
    decreases batch.len(),
{
    let first = broker.next_offset(topic);
    if batch.len() == 0 {
        assert(batch.take(0) == batch);
        assert forall|handle: SubscriberHandle| #[trigger]
            broker.registry.subscribers.contains_key(handle) implies {
            let before = broker.registry.subscribers[handle];
            before.queue == newest(before.queue + stamped(batch, first), before.capacity)
        } by {
            let before = broker.registry.subscribers[handle];
            assert(before.queue + stamped(batch, first) == before.queue);
        }
    } else {
        let shorter = batch.drop_last();
        let last = batch.last();
        lemma_publish_all_in_order(broker, topic, shorter);
        let prev = broker.publish_all(topic, shorter);
        let after = broker.publish_all(topic, batch);
        lemma_publish_well_formed(prev, topic, last.key, last.payload, last.timestamp);
        assert(shorter.take(shorter.len() as int) == shorter);
        assert(prev.next_offset(topic) == first + shorter.len());
        assert forall|i: int| 0 <= i <= batch.len() implies (#[trigger] broker.publish_all(
            topic,
            batch.take(i),
        )).next_offset(topic) == first + i by {
            if i < batch.len() {
                assert(batch.take(i) == shorter.take(i));
            } else {
                assert(batch.take(i) == batch);
            }
        }
        let message = MessageView {
            offset: prev.next_offset(topic),
            key: last.key,
            payload: last.payload,
            timestamp: last.timestamp,
        };
        assert(stamped(batch, first).drop_last() == stamped(shorter, first));
        assert(stamped(batch, first).last() == message);
        if shorter.len() == 0 {
            assert(prev == broker);
            assert(stamped(batch, first) == Seq::<MessageView>::empty().push(message));
            assert(after.log(topic).messages == broker.ensure_topic(topic).log(topic).messages
                + stamped(batch, first));
        } else {
            assert(prev.ensure_topic(topic) == prev);
            assert(stamped(batch, first) == stamped(shorter, first).push(message));
            assert(after.log(topic).messages == broker.ensure_topic(topic).log(topic).messages
                + stamped(batch, first));
        }
        lemma_fanout_well_formed(prev.registry.ensure_topic(topic), topic, message);
        assert forall|handle: SubscriberHandle| #[trigger]
            broker.registry.subscribers.contains_key(handle)
                && broker.registry.subscribers[handle].topic == topic implies {
            let before = broker.registry.subscribers[handle];
            let now = after.registry.subscribers[handle];
            &&& now == before.deliver_all(stamped(batch, first))
            &&& now.queue == newest(before.queue + stamped(batch, first), before.capacity)
        } by {
            let before = broker.registry.subscribers[handle];
            assert(prev.registry.subscribers.contains_key(handle));
            lemma_deliver_all_keeps_order(before, stamped(shorter, first));
            lemma_deliver_all_keeps_order(before, stamped(batch, first));
        }
    }
}

/// Subscribing keeps the broker well formed, registers the subscription
/// with an empty queue under the next handle, and leaves every log, and so
/// the next offset of the topic, as it was.
pub proof fn lemma_subscribe_well_formed(broker: BrokerView, topic: Seq<char>)
    requires
        broker.well_formed(),
        broker.registry.next_handle < u64::MAX,
    ensures
        broker.subscribe(topic).well_formed(),
        broker.subscribe(topic).next_offset(topic) == broker.next_offset(topic),
        broker.subscribe(topic).registry.subscribers.contains_key(
            broker.registry.next_handle as SubscriberHandle,
        ),
        broker.subscribe(topic).registry.subscribers[broker.registry.next_handle as SubscriberHandle]
            == SubscriberView::fresh(topic, broker.registry.queue_capacity),
{
    let after = broker.subscribe(topic);
    assert(after.store.logs.contains_key(after.partition(topic)));
    assert(after.ensure_topic(topic).store == after.store);
}

/// Late-subscriber isolation: a subscription made after some messages were
/// published to a topic and before others holds, once the others are
/// published too, the newest `capacity` of the later messages, in publish
/// order and with their offsets, which all lie past those of the earlier
/// messages. It holds none of the earlier ones.
pub proof fn lemma_late_subscriber_isolation(
    broker: BrokerView,
    topic: Seq<char>,
    earlier: Seq<Publication>,
    later: Seq<Publication>,
)
    requires
        broker.well_formed(),
        broker.registry.next_handle < u64::MAX,
        broker.accepts_all(topic, earlier),
        broker.publish_all(topic, earlier).subscribe(topic).accepts_all(topic, later),
    ensures
        ({
            let handle = broker.registry.next_handle as SubscriberHandle;
            let first_later = broker.next_offset(topic) + earlier.len();
            let after = broker.publish_all(topic, earlier).subscribe(topic).publish_all(
                topic,
                later,
            );
            &&& !broker.publish_all(topic, earlier).registry.subscribers.contains_key(handle)
            &&& after.registry.subscribers.contains_key(handle)
            &&& after.registry.subscribers[handle].queue == newest(
                stamped(later, first_later as nat),
                broker.registry.queue_capacity,
            )
            &&& forall|i: int|
                0 <= i < after.registry.subscribers[handle].queue.len() ==> (
                #[trigger] after.registry.subscribers[handle].queue[i]).offset >= first_later
        }),
{
    let handle = broker.registry.next_handle as SubscriberHandle;
    let published = broker.publish_all(topic, earlier);
    lemma_publish_all_in_order(broker, topic, earlier);
    assert(earlier.take(earlier.len() as int) == earlier);
    let subscribed = published.subscribe(topic);
    lemma_subscribe_well_formed(published, topic);
    lemma_publish_all_in_order(subscribed, topic, later);
    let first_later = subscribed.next_offset(topic);
    assert(Seq::<MessageView>::empty() + stamped(later, first_later) == stamped(
        later,
        first_later,
    ));
}

/// A broker for one partition of every topic.
pub struct Broker {
    partition_id: u32,
    total_partitions: u32,
    retention: Option<RetentionPolicy>,
    store: LogStore,
    registry: TopicRegistry,
}

impl View for Broker {
    type V = BrokerView;

    closed spec fn view(&self) -> BrokerView {
        BrokerView {
            partition_id: self.partition_id,
            total_partitions: self.total_partitions,
            retention: self.retention,
            store: self.store@,
            registry: self.registry@,
        }
    }
}

impl Broker {
    /// The store and the registry keep their own invariants.
    pub closed spec fn parts_wf(&self) -> bool {
        self.store.wf() && self.registry.wf()
    }

    /// The invariant of a broker.
    pub open spec fn wf(&self) -> bool {
        self@.well_formed() && self.parts_wf()
    }

    /// A broker that owns partition `partition_id` of `total_partitions`,
    /// with delivery queues of [`DEFAULT_QUEUE_CAPACITY`] messages.
    ///
    /// Refused when there is no partition at all or the index is not below
    /// the partition count.
    pub fn new(partition_id: u32, total_partitions: u32, retention_policy: Option<RetentionPolicy>) -> (result: Result<
        Broker,
        BrokerError,
    >)
        ensures
            match result {
                Ok(broker) => {
                    &&& partition_id < total_partitions
                    &&& broker.wf()
                    &&& broker@ == BrokerView::fresh(
                        partition_id,
                        total_partitions,
                        retention_policy,
                        DEFAULT_QUEUE_CAPACITY as nat,
                    )
                },
                Err(error) => partition_id >= total_partitions && error
                    == BrokerError::InvalidConfiguration,
            },
    {
        Broker::with_queue_capacity(
            partition_id,
            total_partitions,
            retention_policy,
            DEFAULT_QUEUE_CAPACITY,
        )
    }

    /// A broker whose delivery queues hold up to `queue_capacity` messages.
    ///
    /// Refused like [`Broker::new`], and also when `queue_capacity` is zero:
    /// a queue must have room for the newest message.
    pub fn with_queue_capacity(
        partition_id: u32,
        total_partitions: u32,
        retention_policy: Option<RetentionPolicy>,
        queue_capacity: usize,
    ) -> (result: Result<Broker, BrokerError>)
        ensures
            match result {
                Ok(broker) => {
                    &&& partition_id < total_partitions
                    &&& queue_capacity >= 1
                    &&& broker.wf()
                    &&& broker@ == BrokerView::fresh(
                        partition_id,
                        total_partitions,
                        retention_policy,
                        queue_capacity as nat,
                    )
                },
                Err(error) => (partition_id >= total_partitions || queue_capacity == 0) && error
                    == BrokerError::InvalidConfiguration,
            },
    {
        if partition_id >= total_partitions || queue_capacity == 0 {
            return Err(BrokerError::InvalidConfiguration);
        }
        Ok(
            Broker {
                partition_id,
                total_partitions,
                retention: retention_policy,
                store: LogStore::new(),
                registry: TopicRegistry::new(queue_capacity),
            },
        )
    }

    /// Index of the partition this broker owns.
    pub fn partition_id(&self) -> (index: u32)
        ensures
            index == self@.partition_id,
    {
        self.partition_id
    }

    /// Number of partitions every topic is split into.
    pub fn total_partitions(&self) -> (count: u32)
        ensures
            count == self@.total_partitions,
    {
        self.total_partitions
    }

    /// The retention policy, if one is configured.
    pub fn retention_policy(&self) -> (policy: Option<RetentionPolicy>)
        ensures
            policy == self@.retention,
    {
        self.retention
    }

    /// Whether a topic of this name exists.
    pub fn has_topic(&self, topic: &str) -> (known: bool)
        requires
            self.wf(),
        ensures
            known == self@.registry.topics.contains(topic@),
    {
        self.registry.has_topic(topic)
    }

    /// Number of live subscriptions.
    pub fn subscriber_count(&self) -> (count: usize)
        requires
            self.wf(),
        ensures
            count == self@.registry.subscribers.dom().len(),
    {
        self.registry.subscriber_count()
    }

    /// Whether a subscription with this handle is live.
    pub fn is_subscribed(&self, handle: SubscriberHandle) -> (live: bool)
        requires
            self.wf(),
        ensures
            live == self@.registry.subscribers.contains_key(handle),
    {
        self.registry.is_subscribed(handle)
    }

    /// Number of messages waiting in a subscription's queue, or `None` when
    /// no subscription has this handle.
    pub fn pending(&self, handle: SubscriberHandle) -> (count: Option<usize>)
        requires
            self.wf(),
        ensures
            match count {
                Some(n) => self@.registry.subscribers.contains_key(handle) && n
                    == self@.registry.subscribers[handle].queue.len(),
                None => !self@.registry.subscribers.contains_key(handle),
            },
    {
        self.registry.pending(handle)
    }

    /// Number of messages a subscription lost to a full queue, or `None` when
    /// no subscription has this handle.
    pub fn dropped(&self, handle: SubscriberHandle) -> (count: Option<u64>)
        requires
            self.wf(),
        ensures
            match count {
                Some(n) => self@.registry.subscribers.contains_key(handle) && n
                    == self@.registry.subscribers[handle].dropped,
                None => !self@.registry.subscribers.contains_key(handle),
            },
    {
        self.registry.dropped(handle)
    }

    /// Makes sure that a topic exists, creating it with an empty log of the
    /// owned partition if need be, and says whether it did so.
    pub fn ensure_topic(&mut self, topic: &str) -> (created: bool)
        requires
            old(self).wf(),
        ensures
            final(self).wf(),
            final(self)@ == old(self)@.ensure_topic(topic@),
            created == !old(self)@.registry.topics.contains(topic@),
    {
        let created = self.registry.ensure_topic(topic);
        let _ = self.store.ensure_partition(topic, self.partition_id);
        created
    }

    /// Publishes a message: makes sure the topic exists, routes the key,
    /// appends to the log of the owned partition, fans the message out, and
    /// returns the offset assigned.
    ///
    /// A key that routes to another partition is refused with
    /// [`BrokerError::NotOwned`], a message the log cannot take with
    /// [`BrokerError::Storage`]. A refused publish leaves no trace but the
    /// topic, which exists afterwards.
    pub fn publish(&mut self, topic: &str, payload: Vec<u8>, key: Vec<u8>, now: u64) -> (result: Result<
        u64,
        BrokerError,
    >)
        requires
            old(self).wf(),
        ensures
            final(self).wf(),
            match result {
                Ok(offset) => {
                    &&& old(self)@.accepts(topic@, key@, payload@)
                    &&& offset == old(self)@.next_offset(topic@)
                    &&& final(self)@ == old(self)@.publish(topic@, key@, payload@, now as nat)
                },
                Err(error) => {
                    &&& !old(self)@.accepts(topic@, key@, payload@)
                    &&& error == old(self)@.refusal(topic@, key@)
                    &&& final(self)@ == old(self)@.ensure_topic(topic@)
                },
            },
    {
        let _ = self.ensure_topic(topic);
        let partition = route(topic, key.as_slice(), self.total_partitions);
        if partition != self.partition_id {
            return Err(BrokerError::NotOwned { partition });
        }
        let fanned_key = copy_bytes(&key);
        let fanned_payload = copy_bytes(&payload);
        match self.store.append(topic, partition, key, payload, now) {
            Err(error) => Err(BrokerError::Storage(error)),
            Ok(offset) => {
                let message = Message {
                    offset,
                    key: fanned_key,
                    payload: fanned_payload,
                    timestamp: now,
                };
                self.registry.fanout(topic, &message);
                Ok(offset)
            },
        }
    }

    /// Registers a new subscription to a topic, creating the topic if need
    /// be, and returns its handle. The subscription receives every message
    /// published to the topic from now on and none published before.
    pub fn subscribe(&mut self, topic: &str) -> (result: Result<SubscriberHandle, BrokerError>)
        requires
            old(self).wf(),
        ensures
            final(self).wf(),
            match result {
                Ok(handle) => {
                    &&& old(self)@.registry.next_handle < u64::MAX
                    &&& handle == old(self)@.registry.next_handle
                    &&& final(self)@ == old(self)@.subscribe(topic@)
                },
                Err(error) => {
                    &&& old(self)@.registry.next_handle == u64::MAX
                    &&& error == BrokerError::SubscriptionsExhausted
                    &&& final(self)@ == old(self)@
                },
            },
    {
        match self.registry.subscribe(topic) {
            Ok(handle) => {
                let _ = self.store.ensure_partition(topic, self.partition_id);
                Ok(handle)
            },
            Err(_) => Err(BrokerError::SubscriptionsExhausted),
        }
    }

    /// Removes a subscription and says whether there was one with this
    /// handle. Afterwards the handle is unknown to the broker for good.
    pub fn unsubscribe(&mut self, handle: SubscriberHandle) -> (removed: bool)
        requires
            old(self).wf(),
        ensures
            final(self).wf(),
            final(self)@ == old(self)@.unsubscribe(handle),
            removed == old(self)@.registry.subscribers.contains_key(handle),
    {
        self.registry.unsubscribe(handle)
    }

    /// Takes the oldest message waiting in a subscription's queue. Gives
    /// `None` when the queue is empty or no subscription has this handle.
    pub fn poll(&mut self, handle: SubscriberHandle) -> (next: Option<Message>)
        requires
            old(self).wf(),
        ensures
            final(self).wf(),
            final(self)@ == old(self)@.take(handle),
            match next {
                Some(message) => {
                    &&& old(self)@.registry.subscribers.contains_key(handle)
                    &&& old(self)@.registry.subscribers[handle].queue.len() > 0
                    &&& message@ == old(self)@.registry.subscribers[handle].queue[0]
                },
                None => !old(self)@.registry.subscribers.contains_key(handle)
                    || old(self)@.registry.subscribers[handle].queue.len() == 0,
            },
    {
        self.registry.poll(handle)
    }

    /// Reads up to `limit` retained messages of a topic's owned partition,
    /// starting at offset `from`.
    ///
    /// Refused with [`StoreError::UnknownPartition`] for a topic that does
    /// not exist, and with [`StoreError::BelowRetainedHorizon`] when `from`
    /// has been evicted. A start at or past the end offset gives an empty
    /// result.
    pub fn read_range(&self, topic: &str, from: u64, limit: usize) -> (result: Result<
        Vec<Message>,
        BrokerError,
    >)
        requires
            self.wf(),
        ensures
            match result {
                Ok(messages) => {
                    &&& self@.registry.topics.contains(topic@)
                    &&& from >= self@.log(topic@).start
                    &&& views_of(messages@) == self@.log(topic@).read_range(
                        from as nat,
                        limit as nat,
                    )
                },
                Err(error) => {
                    &&& self@.registry.topics.contains(topic@) ==> from < self@.log(topic@).start
                    &&& error == BrokerError::Storage(
                        if !self@.registry.topics.contains(topic@) {
                            StoreError::UnknownPartition
                        } else {
                            StoreError::BelowRetainedHorizon {
                                horizon: self@.log(topic@).start as u64,
                            }
                        },
                    )
                },
            },
    {
        match self.store.read_range(topic, self.partition_id, from, limit) {
            Ok(messages) => Ok(messages),
            Err(error) => Err(BrokerError::Storage(error)),
        }
    }

    /// The retained horizon of a topic's owned partition, or `None` for a
    /// topic that does not exist.
    pub fn start_offset(&self, topic: &str) -> (offset: Option<u64>)
        requires
            self.wf(),
        ensures
            match offset {
                Some(start) => self@.registry.topics.contains(topic@) && start
                    == self@.log(topic@).start,
                None => !self@.registry.topics.contains(topic@),
            },
    {
        match self.store.start_offset(topic, self.partition_id) {
            Ok(start) => Some(start),
            Err(_) => None,
        }
    }

    /// The offset the next message published to a topic will get, or `None`
    /// for a topic that does not exist.
    pub fn end_offset(&self, topic: &str) -> (offset: Option<u64>)
        requires
            self.wf(),
        ensures
            match offset {
                Some(end) => self@.registry.topics.contains(topic@) && end
                    == self@.log(topic@).end(),
                None => !self@.registry.topics.contains(topic@),
            },
    {
        match self.store.end_offset(topic, self.partition_id) {
            Ok(end) => Some(end),
            Err(_) => None,
        }
    }

    /// Bytes a topic's owned partition retains, or `None` for a topic that
    /// does not exist.
    pub fn current_size_bytes(&self, topic: &str) -> (size: Option<u64>)
        requires
            self.wf(),
        ensures
            match size {
                Some(bytes) => self@.registry.topics.contains(topic@) && bytes
                    == self@.log(topic@).size_bytes(),
                None => !self@.registry.topics.contains(topic@),
            },
    {
        match self.store.current_size_bytes(topic, self.partition_id) {
            Ok(bytes) => Some(bytes),
            Err(_) => None,
        }
    }

    /// One tick of the retention sweeper: sweeps every partition under the
    /// configured policy. Without a policy nothing is ever evicted.
    pub fn sweep(&mut self, now: u64)
        requires
            old(self).wf(),
        ensures
            final(self).wf(),
            final(self)@ == old(self)@.sweep(now as nat),
    {
        match self.retention {
            Some(policy) => {
                proof {
                    lemma_store_sweep_within_bytes(self@.store, policy, now as nat);
                }
                self.store.sweep(&policy, now);
            },
            None => {},
        }
    }
}

} // verus!
