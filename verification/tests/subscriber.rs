use rafka_core::message::Message;
use rafka_core::subscriber::Subscriber;

fn message(offset: u64) -> Message {
    Message { offset, key: vec![1], payload: vec![offset as u8], timestamp: 100 + offset }
}

#[test]
fn new_subscriber_has_nothing_pending() {
    let subscriber = Subscriber::new(7, "orders".to_string(), 4);
    assert_eq!(subscriber.handle(), 7);
    assert_eq!(subscriber.pending(), 0);
    assert_eq!(subscriber.dropped(), 0);
    assert!(subscriber.listens_to(&"orders".to_string()));
    assert!(!subscriber.listens_to(&"payments".to_string()));
}

#[test]
fn deliveries_are_taken_in_delivery_order() {
    let mut subscriber = Subscriber::new(0, "orders".to_string(), 4);
    subscriber.deliver(message(0));
    subscriber.deliver(message(1));
    subscriber.deliver(message(2));
    assert_eq!(subscriber.pending(), 3);
    assert_eq!(subscriber.take().unwrap().offset, 0);
    assert_eq!(subscriber.take().unwrap().offset, 1);
    assert_eq!(subscriber.take().unwrap().offset, 2);
    assert!(subscriber.take().is_none());
    assert_eq!(subscriber.dropped(), 0);
}

#[test]
fn full_queue_drops_the_oldest_and_keeps_the_newest() {
    let mut subscriber = Subscriber::new(0, "orders".to_string(), 3);
    for offset in 0..5 {
        subscriber.deliver(message(offset));
    }
    assert_eq!(subscriber.pending(), 3);
    assert_eq!(subscriber.dropped(), 2);
    assert_eq!(subscriber.take().unwrap().offset, 2);
    assert_eq!(subscriber.take().unwrap().offset, 3);
    assert_eq!(subscriber.take().unwrap().offset, 4);
    assert!(subscriber.take().is_none());
}

#[test]
fn queue_of_one_always_holds_the_latest_message() {
    let mut subscriber = Subscriber::new(0, "orders".to_string(), 1);
    subscriber.deliver(message(10));
    subscriber.deliver(message(11));
    assert_eq!(subscriber.pending(), 1);
    assert_eq!(subscriber.dropped(), 1);
    let latest = subscriber.take().unwrap();
    assert_eq!(latest.offset, 11);
    assert_eq!(latest.payload, vec![11]);
    assert_eq!(latest.timestamp, 111);
}

#[test]
fn taking_makes_room_again() {
    let mut subscriber = Subscriber::new(0, "orders".to_string(), 2);
    subscriber.deliver(message(0));
    subscriber.deliver(message(1));
    assert_eq!(subscriber.take().unwrap().offset, 0);
    subscriber.deliver(message(2));
    assert_eq!(subscriber.dropped(), 0);
    assert_eq!(subscriber.take().unwrap().offset, 1);
    assert_eq!(subscriber.take().unwrap().offset, 2);
}

#[test]
fn duplicate_is_an_equal_independent_message() {
    let original = message(3);
    let copy = original.duplicate();
    assert_eq!(copy.offset, 3);
    assert_eq!(copy.key, original.key);
    assert_eq!(copy.payload, original.payload);
    assert_eq!(copy.timestamp, original.timestamp);
    assert_eq!(original.size_bytes(), Some(2));
}
