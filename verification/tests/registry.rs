use rafka_core::message::Message;
use rafka_core::registry::TopicRegistry;

fn message(offset: u64, text: &str) -> Message {
    Message { offset, key: b"k".to_vec(), payload: text.as_bytes().to_vec(), timestamp: 0 }
}

#[test]
fn new_registry_is_empty() {
    let registry = TopicRegistry::new(8);
    assert_eq!(registry.subscriber_count(), 0);
    assert!(!registry.has_topic("orders"));
    assert!(!registry.is_subscribed(0));
    assert_eq!(registry.pending(0), None);
    assert_eq!(registry.dropped(0), None);
}

#[test]
fn ensure_topic_is_idempotent() {
    let mut registry = TopicRegistry::new(8);
    assert!(registry.ensure_topic("orders"));
    assert!(!registry.ensure_topic("orders"));
    assert!(registry.has_topic("orders"));
    assert!(!registry.has_topic("order"));
    assert!(registry.ensure_topic("payments"));
    assert!(registry.has_topic("payments"));
}

#[test]
fn subscribe_hands_out_increasing_handles_and_creates_the_topic() {
    let mut registry = TopicRegistry::new(8);
    assert_eq!(registry.subscribe("orders"), Ok(0));
    assert_eq!(registry.subscribe("orders"), Ok(1));
    assert_eq!(registry.subscribe("payments"), Ok(2));
    assert!(registry.has_topic("orders"));
    assert!(registry.has_topic("payments"));
    assert_eq!(registry.subscriber_count(), 3);
    assert_eq!(registry.pending(1), Some(0));
}

#[test]
fn fanout_reaches_every_subscriber_of_the_topic_and_no_other() {
    let mut registry = TopicRegistry::new(8);
    let first = registry.subscribe("orders").unwrap();
    let second = registry.subscribe("orders").unwrap();
    let other = registry.subscribe("payments").unwrap();
    registry.fanout("orders", &message(0, "A"));
    assert_eq!(registry.pending(first), Some(1));
    assert_eq!(registry.pending(second), Some(1));
    assert_eq!(registry.pending(other), Some(0));
    assert_eq!(registry.poll(first).unwrap().payload, b"A".to_vec());
    assert_eq!(registry.poll(second).unwrap().payload, b"A".to_vec());
    assert!(registry.poll(other).is_none());
    assert!(registry.poll(first).is_none());
}

#[test]
fn fanout_to_a_topic_without_subscribers_changes_nothing() {
    let mut registry = TopicRegistry::new(8);
    let handle = registry.subscribe("orders").unwrap();
    registry.fanout("nobody", &message(0, "A"));
    assert_eq!(registry.pending(handle), Some(0));
    assert!(!registry.has_topic("nobody"));
}

#[test]
fn subscriber_receives_messages_in_fanout_order() {
    let mut registry = TopicRegistry::new(8);
    let handle = registry.subscribe("orders").unwrap();
    for offset in 0..5u64 {
        registry.fanout("orders", &message(offset, "x"));
    }
    for offset in 0..5u64 {
        assert_eq!(registry.poll(handle).unwrap().offset, offset);
    }
    assert!(registry.poll(handle).is_none());
}

#[test]
fn late_subscriber_isolation() {
    let mut registry = TopicRegistry::new(8);
    let early = registry.subscribe("orders").unwrap();
    registry.fanout("orders", &message(0, "A"));
    registry.fanout("orders", &message(1, "B"));
    let late = registry.subscribe("orders").unwrap();
    assert_eq!(registry.pending(late), Some(0));
    registry.fanout("orders", &message(2, "C"));

    let received = registry.poll(late).unwrap();
    assert_eq!(received.payload, b"C".to_vec());
    assert_eq!(received.offset, 2);
    assert!(registry.poll(late).is_none());

    assert_eq!(registry.poll(early).unwrap().payload, b"A".to_vec());
    assert_eq!(registry.poll(early).unwrap().payload, b"B".to_vec());
    assert_eq!(registry.poll(early).unwrap().payload, b"C".to_vec());
}

#[test]
fn unsubscribe_cleanup() {
    let mut registry = TopicRegistry::new(8);
    let leaving = registry.subscribe("orders").unwrap();
    let staying = registry.subscribe("orders").unwrap();
    registry.fanout("orders", &message(0, "A"));
    assert_eq!(registry.subscriber_count(), 2);

    assert!(registry.unsubscribe(leaving));
    assert_eq!(registry.subscriber_count(), 1);
    assert!(!registry.is_subscribed(leaving));
    assert_eq!(registry.pending(leaving), None);

    registry.fanout("orders", &message(1, "B"));
    assert_eq!(registry.pending(leaving), None);
    assert!(registry.poll(leaving).is_none());
    assert_eq!(registry.pending(staying), Some(2));
    assert!(!registry.unsubscribe(leaving));
    assert_eq!(registry.subscriber_count(), 1);
}

#[test]
fn unsubscribe_before_any_message_is_safe() {
    let mut registry = TopicRegistry::new(8);
    let handle = registry.subscribe("orders").unwrap();
    assert!(registry.unsubscribe(handle));
    assert_eq!(registry.subscriber_count(), 0);
    assert!(registry.has_topic("orders"));
    assert!(!registry.unsubscribe(99));
}

#[test]
fn handles_are_not_reused_after_unsubscribe() {
    let mut registry = TopicRegistry::new(8);
    let first = registry.subscribe("orders").unwrap();
    registry.unsubscribe(first);
    let second = registry.subscribe("orders").unwrap();
    assert_eq!(first, 0);
    assert_eq!(second, 1);
    assert!(!registry.is_subscribed(first));
}

#[test]
fn slow_subscriber_loses_its_oldest_messages_only() {
    let mut registry = TopicRegistry::new(2);
    let slow = registry.subscribe("orders").unwrap();
    let fast = registry.subscribe("orders").unwrap();
    registry.fanout("orders", &message(0, "A"));
    assert_eq!(registry.poll(fast).unwrap().offset, 0);
    registry.fanout("orders", &message(1, "B"));
    assert_eq!(registry.poll(fast).unwrap().offset, 1);
    registry.fanout("orders", &message(2, "C"));
    assert_eq!(registry.poll(fast).unwrap().offset, 2);

    assert_eq!(registry.dropped(fast), Some(0));
    assert_eq!(registry.dropped(slow), Some(1));
    assert_eq!(registry.pending(slow), Some(2));
    assert_eq!(registry.poll(slow).unwrap().offset, 1);
    assert_eq!(registry.poll(slow).unwrap().offset, 2);
}
