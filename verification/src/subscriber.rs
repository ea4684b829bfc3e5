//! One live subscription: a bounded delivery queue between the fan-out path
//! and a consumer.
//!
//! A full queue never refuses a new message and never makes the publisher
//! wait: the oldest undelivered message is dropped to make room, and the drop
//! is counted. What a consumer takes out is therefore always in append order,
//! possibly with messages missing, never reordered.

use crate::log::views_of;
use crate::message::{Message, MessageView};
use std::collections::VecDeque;
use vstd::prelude::*;

verus! {

/// Identifies a subscription for as long as the registry lives. Handles are
/// handed out in increasing order and never reused.
pub type SubscriberHandle = u64;

/// Mathematical model of a subscription.
pub struct SubscriberView {
    /// The topic subscribed to.
    pub topic: Seq<char>,
    /// Messages delivered by fan-out and not yet taken, oldest first.
    pub queue: Seq<MessageView>,
    /// The most messages the queue holds.
    pub capacity: nat,
    /// How many messages were dropped because the queue was full, counted up
    /// to `u64::MAX`.
    pub dropped: nat,
}

impl SubscriberView {
    /// A fresh subscription: nothing delivered, nothing dropped.
    pub open spec fn fresh(topic: Seq<char>, capacity: nat) -> SubscriberView {
        SubscriberView { topic, queue: Seq::empty(), capacity, dropped: 0 }
    }

    /// The queue is within its capacity, and the capacity admits a message.
    pub open spec fn well_formed(self) -> bool {
        1 <= self.capacity && self.queue.len() <= self.capacity && self.dropped <= u64::MAX
    }

    /// The subscription after one message was fanned out to it. The message
    /// always enters at the back; when the queue was full, the oldest leaves
    /// at the front.
    pub open spec fn deliver(self, message: MessageView) -> SubscriberView {
        if self.queue.len() < self.capacity {
            SubscriberView { queue: self.queue.push(message), ..self }
        } else {
            SubscriberView {
                queue: self.queue.drop_first().push(message),
                dropped: if self.dropped < u64::MAX {
                    self.dropped + 1
                } else {
                    self.dropped
                },
                ..self
            }
        }
    }

    /// The subscription after a series of messages was fanned out to it, first
    /// to last.
    pub open spec fn deliver_all(self, messages: Seq<MessageView>) -> SubscriberView
        decreases messages.len(),
    {
        if messages.len() == 0 {
            self
        } else {
            self.deliver_all(messages.drop_last()).deliver(messages.last())
        }
    }

    /// The subscription after the consumer took the oldest queued message.
    pub open spec fn take(self) -> SubscriberView {
        if self.queue.len() > 0 {
            SubscriberView { queue: self.queue.drop_first(), ..self }
        } else {
            self
        }
    }
}

/// The last `count` elements of a sequence, or all of it when it is shorter.
pub open spec fn newest<T>(items: Seq<T>, count: nat) -> Seq<T> {
    if items.len() <= count {
        items
    } else {
        items.skip(items.len() - count)
    }
}

/// Delivery keeps order: after any series of deliveries the queue holds the
/// newest `capacity` of the messages queued before followed by the messages
/// delivered, in that order. Nothing is reordered or duplicated, and when
/// everything fits nothing is missing.
pub proof fn lemma_deliver_all_keeps_order(subscriber: SubscriberView, messages: Seq<MessageView>)
    requires
        subscriber.well_formed(),
    ensures
        subscriber.deliver_all(messages).well_formed(),
        subscriber.deliver_all(messages).queue == newest(
            subscriber.queue + messages,
            subscriber.capacity,
        ),
        subscriber.deliver_all(messages).topic == subscriber.topic,
        subscriber.deliver_all(messages).capacity == subscriber.capacity,
        subscriber.queue.len() + messages.len() <= subscriber.capacity ==> subscriber.deliver_all(
            messages,
        ).queue == subscriber.queue + messages && subscriber.deliver_all(messages).dropped
            == subscriber.dropped,
    decreases messages.len(),
{
    if messages.len() == 0 {
        assert(subscriber.queue + messages == subscriber.queue);
    } else {
        let earlier = messages.drop_last();
        lemma_deliver_all_keeps_order(subscriber, earlier);
        let before = subscriber.deliver_all(earlier);
        let after = before.deliver(messages.last());
        assert(subscriber.queue + messages == (subscriber.queue + earlier).push(messages.last()));
        assert(after.queue == newest(subscriber.queue + messages, subscriber.capacity));
    }
}

/// A live subscription.
pub struct Subscriber {
    handle: SubscriberHandle,
    topic: String,
    queue: VecDeque<Message>,
    capacity: usize,
    dropped: u64,
}

impl View for Subscriber {
    type V = SubscriberView;

    closed spec fn view(&self) -> SubscriberView {
        SubscriberView {
            topic: self.topic@,
            queue: views_of(self.queue@),
            capacity: self.capacity as nat,
            dropped: self.dropped as nat,
        }
    }
}

impl Subscriber {
    /// The handle this subscription is known by.
    pub closed spec fn spec_handle(&self) -> SubscriberHandle {
        self.handle
    }

    /// The invariant of a subscription.
    pub open spec fn wf(&self) -> bool {
        self@.well_formed()
    }

    /// A subscription to `topic` with an empty queue of the given capacity.
    pub fn new(handle: SubscriberHandle, topic: String, capacity: usize) -> (subscriber: Subscriber)
        requires
            capacity >= 1,
        ensures
            subscriber.wf(),
            subscriber.spec_handle() == handle,
            subscriber@ == SubscriberView::fresh(topic@, capacity as nat),
    {
        let subscriber = Subscriber { handle, topic, queue: VecDeque::new(), capacity, dropped: 0 };
        assert(subscriber@.queue == Seq::<MessageView>::empty());
        subscriber
    }

    /// The handle this subscription is known by.
    pub fn handle(&self) -> (handle: SubscriberHandle)
        ensures
            handle == self.spec_handle(),
    {
        self.handle
    }

    /// Whether this subscription is to `topic`.
    pub fn listens_to(&self, topic: &String) -> (listening: bool)
        ensures
            listening == (self@.topic == topic@),
    {
        self.topic == *topic
    }

    /// Number of messages waiting to be taken.
    pub fn pending(&self) -> (count: usize)
        ensures
            count == self@.queue.len(),
    {
        self.queue.len()
    }

    /// Number of messages dropped so far because the queue was full.
    pub fn dropped(&self) -> (count: u64)
        ensures
            count == self@.dropped,
    {
        self.dropped
    }

    /// Queues a message for the consumer, dropping the oldest queued message
    /// first when the queue is full.
    pub fn deliver(&mut self, message: Message)
        requires
            old(self).wf(),
        ensures
            final(self).wf(),
            final(self).spec_handle() == old(self).spec_handle(),
            final(self)@ == old(self)@.deliver(message@),
    {
        let ghost queued = views_of(self.queue@);
        if self.queue.len() >= self.capacity {
            let _ = self.queue.pop_front();
            assert(views_of(self.queue@) == queued.drop_first());
            if self.dropped < u64::MAX {
                self.dropped = self.dropped + 1;
            }
        }
        let ghost kept = views_of(self.queue@);
        self.queue.push_back(message);
        assert(views_of(self.queue@) == kept.push(message@));
    }

    /// Takes the oldest queued message, if any.
    pub fn take(&mut self) -> (next: Option<Message>)
        requires
            old(self).wf(),
        ensures
            final(self).wf(),
            final(self).spec_handle() == old(self).spec_handle(),
            final(self)@ == old(self)@.take(),
            match next {
                Some(message) => old(self)@.queue.len() > 0 && message@ == old(self)@.queue[0],
                None => old(self)@.queue.len() == 0,
            },
    {
        let ghost queued = views_of(self.queue@);
        let next = self.queue.pop_front();
        proof {
            if queued.len() > 0 {
                assert(views_of(self.queue@) == queued.drop_first());
            }
        }
        next
    }
}

} // verus!
