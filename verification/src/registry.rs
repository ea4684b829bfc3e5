//! The topic registry: which topics exist and which subscriptions are live.
//!
//! The registry never touches a log. It owns the delivery queues of the live
//! subscriptions, and fan-out copies a freshly appended message into the
//! queue of every subscription to the message's topic.

use crate::message::{Message, MessageView};
use crate::subscriber::{
    lemma_deliver_all_keeps_order, newest, Subscriber, SubscriberHandle, SubscriberView,
};
use vstd::prelude::*;

verus! {

/// Why the registry refused a request.
#[derive(Clone, Copy, Debug, PartialEq, Eq, Structural)]
pub enum RegistryError {
    /// Every 64-bit handle has been handed out.
    HandlesExhausted,
}

/// Mathematical model of the registry.
pub struct RegistryView {
    /// Names of the topics that exist.
    pub topics: Set<Seq<char>>,
    /// The live subscriptions by handle.
    pub subscribers: Map<SubscriberHandle, SubscriberView>,
    /// The handle the next subscription will get.
    pub next_handle: nat,
    /// Capacity of every delivery queue.
    pub queue_capacity: nat,
}

impl RegistryView {
    /// A registry without topics or subscriptions.
    pub open spec fn empty(queue_capacity: nat) -> RegistryView {
        RegistryView {
            topics: Set::empty(),
            subscribers: Map::empty(),
            next_handle: 0,
            queue_capacity,
        }
    }

    /// Every subscription is to an existing topic, has a handle that was
    /// handed out, and a queue within the registry's capacity.
    pub open spec fn well_formed(self) -> bool {
        &&& 1 <= self.queue_capacity
        &&& self.next_handle <= u64::MAX
        &&& self.subscribers.dom().finite()
        &&& forall|handle: SubscriberHandle| #[trigger]
            self.subscribers.contains_key(handle) ==> {
                &&& handle < self.next_handle
                &&& self.subscribers[handle].well_formed()
                &&& self.subscribers[handle].capacity == self.queue_capacity
                &&& self.topics.contains(self.subscribers[handle].topic)
            }
    }

    /// The registry after making sure that a topic exists.
    pub open spec fn ensure_topic(self, name: Seq<char>) -> RegistryView {
        RegistryView { topics: self.topics.insert(name), ..self }
    }

    /// The registry after a new subscription to `topic`, which gets the
    /// handle `next_handle` and an empty queue. The topic exists afterwards.
    pub open spec fn subscribe(self, topic: Seq<char>) -> RegistryView {
        RegistryView {
            topics: self.topics.insert(topic),
            subscribers: self.subscribers.insert(
                self.next_handle as SubscriberHandle,
                SubscriberView::fresh(topic, self.queue_capacity),
            ),
            next_handle: self.next_handle + 1,
            ..self
        }
    }

    /// The registry after a subscription was removed.
    pub open spec fn unsubscribe(self, handle: SubscriberHandle) -> RegistryView {
        RegistryView { subscribers: self.subscribers.remove(handle), ..self }
    }

    /// The registry after a message of `topic` was fanned out: it has been
    /// delivered to every subscription to that topic and to no other.
    pub open spec fn fanout(self, topic: Seq<char>, message: MessageView) -> RegistryView {
        RegistryView {
            subscribers: Map::new(
                |handle: SubscriberHandle| self.subscribers.contains_key(handle),
                |handle: SubscriberHandle|
                    if self.subscribers[handle].topic == topic {
                        self.subscribers[handle].deliver(message)
                    } else {
                        self.subscribers[handle]
                    },
            ),
            ..self
        }
    }

    /// The registry after a series of messages of `topic` was fanned out,
    /// first to last.
    pub open spec fn fanout_all(self, topic: Seq<char>, messages: Seq<MessageView>) -> RegistryView
        decreases messages.len(),
    {
        if messages.len() == 0 {
            self
        } else {
            self.fanout_all(topic, messages.drop_last()).fanout(topic, messages.last())
        }
    }

    /// The registry after the consumer of a subscription took its oldest
    /// queued message.
    pub open spec fn take(self, handle: SubscriberHandle) -> RegistryView {
        if self.subscribers.contains_key(handle) {
            RegistryView {
                subscribers: self.subscribers.insert(handle, self.subscribers[handle].take()),
                ..self
            }
        } else {
            self
        }
    }
}

/// Subscribing keeps the registry well formed.
pub proof fn lemma_subscribe_well_formed(registry: RegistryView, topic: Seq<char>)
    requires
        registry.well_formed(),
        registry.next_handle < u64::MAX,
    ensures
        registry.subscribe(topic).well_formed(),
{
}

/// Unsubscribing and creating a topic keep the registry well formed.
pub proof fn lemma_unsubscribe_well_formed(registry: RegistryView, handle: SubscriberHandle)
    requires
        registry.well_formed(),
    ensures
        registry.unsubscribe(handle).well_formed(),
        forall|name: Seq<char>| (#[trigger] registry.ensure_topic(name)).well_formed(),
{
}

/// Fan-out keeps the registry well formed and neither adds nor removes a
/// subscription.
pub proof fn lemma_fanout_well_formed(registry: RegistryView, topic: Seq<char>, message: MessageView)
    requires
        registry.well_formed(),
    ensures
        registry.fanout(topic, message).well_formed(),
        registry.fanout(topic, message).subscribers.dom() == registry.subscribers.dom(),
{
    assert(registry.fanout(topic, message).subscribers.dom() =~= registry.subscribers.dom());
}

/// Taking a message keeps the registry well formed and neither adds nor
/// removes a subscription.
pub proof fn lemma_take_well_formed(registry: RegistryView, handle: SubscriberHandle)
    requires
        registry.well_formed(),
    ensures
        registry.take(handle).well_formed(),
        registry.take(handle).subscribers.dom() == registry.subscribers.dom(),
{
    assert(registry.take(handle).subscribers.dom() =~= registry.subscribers.dom());
}

/// A series of fan-outs is, for each subscription to the topic, the series of
/// deliveries of the same messages in the same order; it touches no other
/// subscription, no topic and no handle.
pub proof fn lemma_fanout_all(registry: RegistryView, topic: Seq<char>, messages: Seq<MessageView>)
    requires
        registry.well_formed(),
    ensures
        registry.fanout_all(topic, messages).well_formed(),
        registry.fanout_all(topic, messages).topics == registry.topics,
        registry.fanout_all(topic, messages).next_handle == registry.next_handle,
        registry.fanout_all(topic, messages).queue_capacity == registry.queue_capacity,
        registry.fanout_all(topic, messages).subscribers.dom() == registry.subscribers.dom(),
        forall|handle: SubscriberHandle| #[trigger]
            registry.subscribers.contains_key(handle) ==> registry.fanout_all(
                topic,
                messages,
            ).subscribers[handle] == if registry.subscribers[handle].topic == topic {
                registry.subscribers[handle].deliver_all(messages)
            } else {
                registry.subscribers[handle]
            },
    decreases messages.len(),
{
    if messages.len() > 0 {
        let earlier = registry.fanout_all(topic, messages.drop_last());
        lemma_fanout_all(registry, topic, messages.drop_last());
        lemma_fanout_well_formed(earlier, topic, messages.last());
        assert forall|handle: SubscriberHandle| #[trigger]
            registry.subscribers.contains_key(handle) implies registry.fanout_all(
            topic,
            messages,
        ).subscribers[handle] == if registry.subscribers[handle].topic == topic {
            registry.subscribers[handle].deliver_all(messages)
        } else {
            registry.subscribers[handle]
        } by {
            assert(earlier.subscribers.contains_key(handle));
            if registry.subscribers[handle].topic == topic {
                lemma_deliver_all_keeps_order(registry.subscribers[handle], messages.drop_last());
            }
        }
    }
}

/// Fan-out order is delivery order: after a series of messages of a topic
/// was fanned out, a subscription to that topic that was live throughout holds
/// what it held before followed by those messages, in the order in which they
/// were fanned out, cut down to the newest `capacity` of them. When they all
/// fit, none is missing.
pub proof fn lemma_subscriber_receives_in_order(
    registry: RegistryView,
    handle: SubscriberHandle,
    messages: Seq<MessageView>,
)
    requires
        registry.well_formed(),
        registry.subscribers.contains_key(handle),
    ensures
        ({
            let before = registry.subscribers[handle];
            let after = registry.fanout_all(before.topic, messages).subscribers[handle];
            &&& registry.fanout_all(before.topic, messages).subscribers.contains_key(handle)
            &&& after.queue == newest(before.queue + messages, before.capacity)
            &&& before.queue.len() + messages.len() <= before.capacity ==> after.queue
                == before.queue + messages && after.dropped == before.dropped
        }),
{
    let before = registry.subscribers[handle];
    lemma_fanout_all(registry, before.topic, messages);
    lemma_deliver_all_keeps_order(before, messages);
}

/// Late-subscriber isolation: a subscription made after some messages of a
/// topic were fanned out and before others holds, once the others were fanned
/// out too, the newest `capacity` of the later messages in their order, and
/// none of the earlier ones.
pub proof fn lemma_late_subscriber_isolation(
    registry: RegistryView,
    topic: Seq<char>,
    earlier: Seq<MessageView>,
    later: Seq<MessageView>,
)
    requires
        registry.well_formed(),
        registry.next_handle < u64::MAX,
    ensures
        ({
            let handle = registry.next_handle as SubscriberHandle;
            let after = registry.fanout_all(topic, earlier).subscribe(topic).fanout_all(
                topic,
                later,
            );
            &&& !registry.fanout_all(topic, earlier).subscribers.contains_key(handle)
            &&& after.subscribers.contains_key(handle)
            &&& after.subscribers[handle].queue == newest(later, registry.queue_capacity)
            &&& later.len() <= registry.queue_capacity ==> after.subscribers[handle].queue
                == later && after.subscribers[handle].dropped == 0
        }),
{
    let handle = registry.next_handle as SubscriberHandle;
    let published = registry.fanout_all(topic, earlier);
    lemma_fanout_all(registry, topic, earlier);
    let subscribed = published.subscribe(topic);
    lemma_subscribe_well_formed(published, topic);
    assert(subscribed.subscribers[handle] == SubscriberView::fresh(
        topic,
        registry.queue_capacity,
    ));
    lemma_subscriber_receives_in_order(subscribed, handle, later);
    assert(Seq::<MessageView>::empty() + later == later);
}

/// Unsubscribe cleanup: once a subscription is removed its handle is unknown
/// to the registry, the number of live subscriptions is one less, no later
/// fan-out or subscription brings the handle back, and every other
/// subscription goes on as if nothing had happened.
pub proof fn lemma_unsubscribe_cleanup(
    registry: RegistryView,
    handle: SubscriberHandle,
    topic: Seq<char>,
    messages: Seq<MessageView>,
)
    requires
        registry.well_formed(),
        registry.subscribers.contains_key(handle),
    ensures
        !registry.unsubscribe(handle).subscribers.contains_key(handle),
        registry.unsubscribe(handle).subscribers.dom().len() == registry.subscribers.dom().len()
            - 1,
        !registry.unsubscribe(handle).fanout_all(topic, messages).subscribers.contains_key(handle),
        !registry.unsubscribe(handle).fanout_all(topic, messages).subscribe(
            topic,
        ).subscribers.contains_key(handle),
        forall|other: SubscriberHandle|
            other != handle && #[trigger] registry.subscribers.contains_key(other)
                ==> registry.unsubscribe(handle).fanout_all(topic, messages).subscribers[other]
                == registry.fanout_all(topic, messages).subscribers[other],
{
    let removed = registry.unsubscribe(handle);
    lemma_unsubscribe_well_formed(registry, handle);
    lemma_fanout_all(removed, topic, messages);
    lemma_fanout_all(registry, topic, messages);
    assert forall|other: SubscriberHandle|
        other != handle && #[trigger] registry.subscribers.contains_key(other) implies removed.fanout_all(
        topic,
        messages,
    ).subscribers[other] == registry.fanout_all(topic, messages).subscribers[other] by {
        assert(removed.subscribers.contains_key(other));
    }
}

/// Whether some topic of the list has this name.
spec fn names_topic(topics: Seq<String>, name: Seq<char>) -> bool {
    exists|i: int| 0 <= i < topics.len() && (#[trigger] topics[i])@ == name
}

/// Whether some subscription of the list has this handle.
spec fn has_handle(subscribers: Seq<Subscriber>, handle: SubscriberHandle) -> bool {
    exists|i: int| 0 <= i < subscribers.len() && (#[trigger] subscribers[i]).spec_handle() == handle
}

/// A position in the list of a subscription with this handle.
spec fn position_of(subscribers: Seq<Subscriber>, handle: SubscriberHandle) -> int {
    choose|i: int| 0 <= i < subscribers.len() && (#[trigger] subscribers[i]).spec_handle() == handle
}

/// The handles grow strictly along the list, so no handle occurs twice.
spec fn ascending(subscribers: Seq<Subscriber>) -> bool {
    forall|i: int, j: int|
        0 <= i < j < subscribers.len() ==> (#[trigger] subscribers[i]).spec_handle() < (
        #[trigger] subscribers[j]).spec_handle()
}

/// The subscriptions of a list, by handle.
spec fn by_handle(subscribers: Seq<Subscriber>) -> Map<SubscriberHandle, SubscriberView> {
    Map::new(
        |handle: SubscriberHandle| has_handle(subscribers, handle),
        |handle: SubscriberHandle| subscribers[position_of(subscribers, handle)]@,
    )
}

proof fn lemma_by_handle_at(subscribers: Seq<Subscriber>, i: int)
    requires
        ascending(subscribers),
        0 <= i < subscribers.len(),
    ensures
        has_handle(subscribers, subscribers[i].spec_handle()),
        position_of(subscribers, subscribers[i].spec_handle()) == i,
        by_handle(subscribers).contains_key(subscribers[i].spec_handle()),
        by_handle(subscribers)[subscribers[i].spec_handle()] == subscribers[i]@,
{
    let handle = subscribers[i].spec_handle();
    let found = position_of(subscribers, handle);
    assert(0 <= found < subscribers.len() && subscribers[found].spec_handle() == handle);
    if found < i {
        assert(subscribers[found].spec_handle() < subscribers[i].spec_handle());
    } else if i < found {
        assert(subscribers[i].spec_handle() < subscribers[found].spec_handle());
    }
}

proof fn lemma_by_handle_push(subscribers: Seq<Subscriber>, added: Subscriber)
    requires
        ascending(subscribers.push(added)),
    ensures
        ascending(subscribers),
        by_handle(subscribers.push(added)) == by_handle(subscribers).insert(
            added.spec_handle(),
            added@,
        ),
        !has_handle(subscribers, added.spec_handle()),
{
    let longer = subscribers.push(added);
    assert forall|i: int, j: int| 0 <= i < j < subscribers.len() implies (
    #[trigger] subscribers[i]).spec_handle() < (#[trigger] subscribers[j]).spec_handle() by {
        assert(longer[i] == subscribers[i] && longer[j] == subscribers[j]);
    }
    if has_handle(subscribers, added.spec_handle()) {
        let i = position_of(subscribers, added.spec_handle());
        assert(longer[i].spec_handle() < longer[subscribers.len() as int].spec_handle());
    }
    let expected = by_handle(subscribers).insert(added.spec_handle(), added@);
    assert forall|handle: SubscriberHandle| #[trigger]
        by_handle(longer).contains_key(handle) == expected.contains_key(handle) by {
        if has_handle(longer, handle) {
            let i = position_of(longer, handle);
            if i < subscribers.len() {
                assert(subscribers[i].spec_handle() == handle);
            }
        }
        if has_handle(subscribers, handle) {
            let i = position_of(subscribers, handle);
            assert(longer[i].spec_handle() == handle);
        }
        if handle == added.spec_handle() {
            assert(longer[subscribers.len() as int].spec_handle() == handle);
        }
    }
    assert forall|handle: SubscriberHandle| #[trigger]
        by_handle(longer).contains_key(handle) implies by_handle(longer)[handle]
        == expected[handle] by {
        let i = position_of(longer, handle);
        lemma_by_handle_at(longer, i);
        if i < subscribers.len() {
            assert(subscribers[i] == longer[i]);
            lemma_by_handle_at(subscribers, i);
        }
    }
    assert(by_handle(longer) =~= expected);
}

proof fn lemma_by_handle_remove(subscribers: Seq<Subscriber>, at: int)
    requires
        ascending(subscribers),
        0 <= at < subscribers.len(),
    ensures
        ascending(subscribers.remove(at)),
        by_handle(subscribers.remove(at)) == by_handle(subscribers).remove(
            subscribers[at].spec_handle(),
        ),
{
    let shorter = subscribers.remove(at);
    let gone = subscribers[at].spec_handle();
    assert forall|i: int, j: int| 0 <= i < j < shorter.len() implies (
    #[trigger] shorter[i]).spec_handle() < (#[trigger] shorter[j]).spec_handle() by {
        let from_i = if i < at { i } else { i + 1 };
        let from_j = if j < at { j } else { j + 1 };
        assert(shorter[i] == subscribers[from_i] && shorter[j] == subscribers[from_j]);
    }
    let expected = by_handle(subscribers).remove(gone);
    assert forall|handle: SubscriberHandle| #[trigger]
        by_handle(shorter).contains_key(handle) == expected.contains_key(handle) by {
        if has_handle(shorter, handle) {
            let i = position_of(shorter, handle);
            let from = if i < at { i } else { i + 1 };
            assert(subscribers[from].spec_handle() == handle);
            if from < at {
                assert(subscribers[from].spec_handle() < subscribers[at].spec_handle());
            } else {
                assert(subscribers[at].spec_handle() < subscribers[from].spec_handle());
            }
        }
        if has_handle(subscribers, handle) && handle != gone {
            let i = position_of(subscribers, handle);
            let to = if i < at { i } else { i - 1 };
            assert(shorter[to].spec_handle() == handle);
        }
    }
    assert forall|handle: SubscriberHandle| #[trigger]
        by_handle(shorter).contains_key(handle) implies by_handle(shorter)[handle]
        == expected[handle] by {
        let i = position_of(shorter, handle);
        lemma_by_handle_at(shorter, i);
        let from = if i < at { i } else { i + 1 };
        assert(shorter[i] == subscribers[from]);
        lemma_by_handle_at(subscribers, from);
    }
    assert(by_handle(shorter) =~= expected);
}

proof fn lemma_by_handle_same_handles(before: Seq<Subscriber>, after: Seq<Subscriber>)
    requires
        ascending(before),
        before.len() == after.len(),
        forall|i: int|
            0 <= i < before.len() ==> (#[trigger] after[i]).spec_handle()
                == before[i].spec_handle(),
    ensures
        ascending(after),
        forall|handle: SubscriberHandle|
            has_handle(before, handle) == has_handle(after, handle),
        forall|handle: SubscriberHandle| #[trigger]
            has_handle(before, handle) ==> position_of(before, handle) == position_of(
                after,
                handle,
            ),
{
    assert forall|i: int, j: int| 0 <= i < j < after.len() implies (
    #[trigger] after[i]).spec_handle() < (#[trigger] after[j]).spec_handle() by {
        assert(before[i].spec_handle() < before[j].spec_handle());
    }
    assert forall|handle: SubscriberHandle|
        has_handle(before, handle) == has_handle(after, handle) by {
        if has_handle(before, handle) {
            let i = position_of(before, handle);
            assert(after[i].spec_handle() == handle);
        }
        if has_handle(after, handle) {
            let i = position_of(after, handle);
            assert(before[i].spec_handle() == handle);
        }
    }
    assert forall|handle: SubscriberHandle| #[trigger]
        has_handle(before, handle) implies position_of(before, handle) == position_of(
        after,
        handle,
    ) by {
        let i = position_of(before, handle);
        assert(after[i].spec_handle() == handle);
        lemma_by_handle_at(after, i);
    }
}

proof fn lemma_by_handle_count(subscribers: Seq<Subscriber>)
    requires
        ascending(subscribers),
    ensures
        by_handle(subscribers).dom().finite(),
        by_handle(subscribers).dom().len() == subscribers.len(),
    decreases subscribers.len(),
{
    if subscribers.len() == 0 {
        assert(by_handle(subscribers).dom() =~= Set::empty());
    } else {
        let shorter = subscribers.drop_last();
        assert(subscribers == shorter.push(subscribers.last()));
        lemma_by_handle_push(shorter, subscribers.last());
        lemma_by_handle_count(shorter);
        assert(by_handle(subscribers).dom() =~= by_handle(shorter).dom().insert(
            subscribers.last().spec_handle(),
        ));
    }
}

/// The topic registry.
pub struct TopicRegistry {
    topics: Vec<String>,
    subscribers: Vec<Subscriber>,
    next_handle: u64,
    queue_capacity: usize,
}

impl View for TopicRegistry {
    type V = RegistryView;

    closed spec fn view(&self) -> RegistryView {
        RegistryView {
            topics: Set::new(|name: Seq<char>| names_topic(self.topics@, name)),
            subscribers: by_handle(self.subscribers@),
            next_handle: self.next_handle as nat,
            queue_capacity: self.queue_capacity as nat,
        }
    }
}

impl TopicRegistry {
    /// The subscriptions are kept in the order in which they were made.
    pub closed spec fn ordered(&self) -> bool {
        ascending(self.subscribers@)
    }

    /// The invariant of the registry.
    pub open spec fn wf(&self) -> bool {
        self@.well_formed() && self.ordered()
    }

    /// A registry without topics or subscriptions, whose delivery queues will
    /// hold up to `queue_capacity` messages each.
    pub fn new(queue_capacity: usize) -> (registry: TopicRegistry)
        requires
            queue_capacity >= 1,
        ensures
            registry.wf(),
            registry@ == RegistryView::empty(queue_capacity as nat),
    {
        let registry = TopicRegistry {
            topics: Vec::new(),
            subscribers: Vec::new(),
            next_handle: 0,
            queue_capacity,
        };
        assert(registry@.topics =~= Set::empty());
        assert(registry@.subscribers =~= Map::empty());
        registry
    }

    /// Whether a topic of this name exists.
    pub fn has_topic(&self, name: &str) -> (known: bool)
        ensures
            known == self@.topics.contains(name@),
    {
        let wanted = name.to_owned();
        let mut i: usize = 0;
        while i < self.topics.len()
            invariant
                i <= self.topics.len(),
                wanted@ == name@,
                forall|k: int| 0 <= k < i ==> (#[trigger] self.topics[k])@ != name@,
            decreases self.topics.len() - i,
        {
            if self.topics[i] == wanted {
                return true;
            }
            i = i + 1;
        }
        false
    }

    /// Creates the topic if it does not exist yet, and says whether it did so.
    /// Calling it again changes nothing.
    pub fn ensure_topic(&mut self, name: &str) -> (created: bool)
        requires
            old(self).wf(),
        ensures
            final(self).wf(),
            final(self)@ == old(self)@.ensure_topic(name@),
            created == !old(self)@.topics.contains(name@),
    {
        if self.has_topic(name) {
            assert(self@.topics =~= self@.topics.insert(name@));
            false
        } else {
            let ghost before = self.topics@;
            let owned = name.to_owned();
            self.topics.push(owned);
            proof {
                let wanted = old(self)@.topics.insert(name@);
                assert forall|other: Seq<char>| self@.topics.contains(other) == wanted.contains(
                    other,
                ) by {
                    if names_topic(self.topics@, other) {
                        let i = choose|i: int|
                            0 <= i < self.topics.len() && (#[trigger] self.topics[i])@ == other;
                        if i < before.len() {
                            assert(before[i]@ == other);
                        }
                    }
                    if names_topic(before, other) {
                        let i = choose|i: int|
                            0 <= i < before.len() && (#[trigger] before[i])@ == other;
                        assert(self.topics[i]@ == other);
                    }
                    if other == name@ {
                        assert(self.topics[before.len() as int]@ == other);
                    }
                }
                assert(self@.topics =~= wanted);
            }
            true
        }
    }

    /// Number of live subscriptions.
    pub fn subscriber_count(&self) -> (count: usize)
        requires
            self.wf(),
        ensures
            count == self@.subscribers.dom().len(),
    {
        proof {
            lemma_by_handle_count(self.subscribers@);
        }
        self.subscribers.len()
    }

    fn find(&self, handle: SubscriberHandle) -> (found: Option<usize>)
        requires
            self.wf(),
        ensures
            match found {
                Some(i) => i < self.subscribers.len() && self.subscribers[i as int].spec_handle()
                    == handle && self@.subscribers.contains_key(handle)
                    && self@.subscribers[handle] == self.subscribers[i as int]@,
                None => !self@.subscribers.contains_key(handle),
            },
    {
        let mut i: usize = 0;
        while i < self.subscribers.len()
            invariant
                i <= self.subscribers.len(),
                ascending(self.subscribers@),
                forall|k: int| 0 <= k < i ==> (#[trigger] self.subscribers[k]).spec_handle() != handle,
            decreases self.subscribers.len() - i,
        {
            if self.subscribers[i].handle() == handle {
                proof {
                    lemma_by_handle_at(self.subscribers@, i as int);
                }
                return Some(i);
            }
            i = i + 1;
        }
        None
    }

    /// Whether a subscription with this handle is live.
    pub fn is_subscribed(&self, handle: SubscriberHandle) -> (live: bool)
        requires
            self.wf(),
        ensures
            live == self@.subscribers.contains_key(handle),
    {
        self.find(handle).is_some()
    }

    /// Number of messages waiting in a subscription's queue, or `None` when
    /// no subscription has this handle.
    pub fn pending(&self, handle: SubscriberHandle) -> (count: Option<usize>)
        requires
            self.wf(),
        ensures
            match count {
                Some(n) => self@.subscribers.contains_key(handle) && n
                    == self@.subscribers[handle].queue.len(),
                None => !self@.subscribers.contains_key(handle),
            },
    {
        match self.find(handle) {
            Some(i) => Some(self.subscribers[i].pending()),
            None => None,
        }
    }

    /// Number of messages a subscription lost to a full queue, or `None` when
    /// no subscription has this handle.
    pub fn dropped(&self, handle: SubscriberHandle) -> (count: Option<u64>)
        requires
            self.wf(),
        ensures
            match count {
                Some(n) => self@.subscribers.contains_key(handle) && n
                    == self@.subscribers[handle].dropped,
                None => !self@.subscribers.contains_key(handle),
            },
    {
        match self.find(handle) {
            Some(i) => Some(self.subscribers[i].dropped()),
            None => None,
        }
    }

    /// Registers a new subscription to `topic`, creating the topic if need
    /// be, and returns its handle.
    ///
    /// The subscription starts with an empty queue: it will receive every
    /// message fanned out to the topic from now on and none from before.
    pub fn subscribe(&mut self, topic: &str) -> (result: Result<SubscriberHandle, RegistryError>)
        requires
            old(self).wf(),
        ensures
            final(self).wf(),
            match result {
                Ok(handle) => {
                    &&& old(self)@.next_handle < u64::MAX
                    &&& handle == old(self)@.next_handle
                    &&& final(self)@ == old(self)@.subscribe(topic@)
                },
                Err(error) => {
                    &&& old(self)@.next_handle == u64::MAX
                    &&& error == RegistryError::HandlesExhausted
                    &&& final(self)@ == old(self)@
                },
            },
    {
        if self.next_handle == u64::MAX {
            return Err(RegistryError::HandlesExhausted);
        }
        self.ensure_topic(topic);
        let handle = self.next_handle;
        let subscriber = Subscriber::new(handle, topic.to_owned(), self.queue_capacity);
        proof {
            let longer = self.subscribers@.push(subscriber);
            assert forall|i: int, j: int| 0 <= i < j < longer.len() implies (
            #[trigger] longer[i]).spec_handle() < (#[trigger] longer[j]).spec_handle() by {
                if j < self.subscribers.len() {
                    assert(longer[i] == self.subscribers[i] && longer[j] == self.subscribers[j]);
                } else {
                    lemma_by_handle_at(self.subscribers@, i);
                }
            }
            lemma_by_handle_push(self.subscribers@, subscriber);
        }
        self.subscribers.push(subscriber);
        self.next_handle = handle + 1;
        Ok(handle)
    }

    /// Removes a subscription, with whatever is still in its queue, and says
    /// whether there was one with this handle. Safe to call at any time, also
    /// for a subscription that never received a message.
    pub fn unsubscribe(&mut self, handle: SubscriberHandle) -> (removed: bool)
        requires
            old(self).wf(),
        ensures
            final(self).wf(),
            final(self)@ == old(self)@.unsubscribe(handle),
            removed == old(self)@.subscribers.contains_key(handle),
    {
        match self.find(handle) {
            Some(i) => {
                proof {
                    lemma_by_handle_remove(self.subscribers@, i as int);
                }
                let _ = self.subscribers.remove(i);
                true
            },
            None => {
                assert(self@.subscribers.remove(handle) =~= self@.subscribers);
                false
            },
        }
    }

    /// Delivers a freshly appended message of `topic` to every live
    /// subscription to that topic, and to no other.
    ///
    /// Never waits for a consumer: a subscription whose queue is full loses
    /// its oldest queued message instead.
    pub fn fanout(&mut self, topic: &str, message: &Message)
        requires
            old(self).wf(),
        ensures
            final(self).wf(),
            final(self)@ == old(self)@.fanout(topic@, message@),
    {
        let ghost before = self.subscribers@;
        let name = topic.to_owned();
        proof {
            assert forall|k: int| 0 <= k < before.len() implies (#[trigger] before[k]).wf() by {
                lemma_by_handle_at(before, k);
            }
        }
        let mut i: usize = 0;
        while i < self.subscribers.len()
            invariant
                i <= self.subscribers.len(),
                self.subscribers.len() == before.len(),
                ascending(before),
                name@ == topic@,
                self.topics == old(self).topics,
                self.next_handle == old(self).next_handle,
                self.queue_capacity == old(self).queue_capacity,
                forall|k: int|
                    0 <= k < before.len() ==> (#[trigger] self.subscribers[k]).spec_handle()
                        == before[k].spec_handle(),
                forall|k: int| 0 <= k < before.len() ==> (#[trigger] before[k]).wf(),
                forall|k: int|
                    0 <= k < i ==> (#[trigger] self.subscribers[k])@ == if before[k]@.topic
                        == topic@ {
                        before[k]@.deliver(message@)
                    } else {
                        before[k]@
                    },
                forall|k: int|
                    i <= k < before.len() ==> (#[trigger] self.subscribers[k]) == before[k],
            decreases self.subscribers.len() - i,
        {
            if self.subscribers[i].listens_to(&name) {
                let copy = message.duplicate();
                self.subscribers[i].deliver(copy);
            }
            i = i + 1;
        }
        proof {
            let after = self.subscribers@;
            let wanted = old(self)@.fanout(topic@, message@).subscribers;
            lemma_by_handle_same_handles(before, after);
            assert forall|handle: SubscriberHandle| #[trigger]
                by_handle(after).contains_key(handle) implies by_handle(after)[handle]
                == wanted[handle] by {
                let k = position_of(after, handle);
                lemma_by_handle_at(after, k);
                lemma_by_handle_at(before, k);
            }
            assert(by_handle(after) =~= wanted);
            lemma_fanout_well_formed(old(self)@, topic@, message@);
        }
    }

    /// Takes the oldest message waiting in a subscription's queue. Gives
    /// `None` when the queue is empty or no subscription has this handle.
    pub fn poll(&mut self, handle: SubscriberHandle) -> (next: Option<Message>)
        requires
            old(self).wf(),
        ensures
            final(self).wf(),
            final(self)@ == old(self)@.take(handle),
            match next {
                Some(message) => {
                    &&& old(self)@.subscribers.contains_key(handle)
                    &&& old(self)@.subscribers[handle].queue.len() > 0
                    &&& message@ == old(self)@.subscribers[handle].queue[0]
                },
                None => !old(self)@.subscribers.contains_key(handle)
                    || old(self)@.subscribers[handle].queue.len() == 0,
            },
    {
        match self.find(handle) {
            Some(i) => {
                let ghost before = self.subscribers@;
                let next = self.subscribers[i].take();
                proof {
                    let after = self.subscribers@;
                    let wanted = old(self)@.take(handle).subscribers;
                    lemma_by_handle_same_handles(before, after);
                    assert forall|other: SubscriberHandle| #[trigger]
                        by_handle(after).contains_key(other) implies by_handle(after)[other]
                        == wanted[other] by {
                        let k = position_of(after, other);
                        lemma_by_handle_at(after, k);
                        lemma_by_handle_at(before, k);
                    }
                    assert(by_handle(after) =~= wanted);
                    lemma_take_well_formed(old(self)@, handle);
                }
                next
            },
            None => None,
        }
    }
}

} // verus!
