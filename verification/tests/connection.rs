use rafka_core::broker::{Broker, BrokerError};
use rafka_core::connection::{
    CloseReason, Connection, Event, Phase, ProtocolError, Rejection, Request, Response, Role,
};

fn bytes(text: &str) -> Vec<u8> {
    text.as_bytes().to_vec()
}

fn rejected(error: ProtocolError) -> Response {
    Response::Rejected { rejection: Rejection::Protocol(error) }
}

fn request(request: Request) -> Event {
    Event::Request { request }
}

fn publish(topic: &str, payload: &str, key: &str) -> Event {
    request(Request::Publish { topic: topic.to_string(), payload: bytes(payload), key: bytes(key) })
}

fn subscribe(topic: &str) -> Event {
    request(Request::Subscribe { topic: topic.to_string() })
}

fn consume(topic: &str) -> Event {
    request(Request::Consume { topic: topic.to_string() })
}

fn unsubscribe(topic: &str) -> Event {
    request(Request::Unsubscribe { topic: topic.to_string() })
}

fn identify(role: Role) -> Event {
    request(Request::Identify { role })
}

#[test]
fn new_connection_is_connected_without_a_role() {
    let connection = Connection::new(0, 5000);
    assert_eq!(connection.phase(), Phase::Connected);
    assert_eq!(connection.role(), None);
    assert_eq!(connection.subscription_handle(), None);
    assert!(!connection.is_closed());
    assert!(!connection.is_streaming());
}

#[test]
fn producer_walks_through_the_phases() {
    let mut broker = Broker::new(0, 1, None).unwrap();
    let mut connection = Connection::new(0, 5000);
    assert_eq!(
        connection.handle(&mut broker, identify(Role::Producer), 1),
        Response::Identified { role: Role::Producer }
    );
    assert_eq!(connection.phase(), Phase::Identified);
    assert_eq!(connection.role(), Some(Role::Producer));
    assert_eq!(
        connection.handle(&mut broker, publish("orders", "P1", "k1"), 2),
        Response::Published { offset: 0 }
    );
    assert_eq!(connection.phase(), Phase::Active);
    assert_eq!(
        connection.handle(&mut broker, publish("orders", "P2", "k1"), 3),
        Response::Published { offset: 1 }
    );
    assert_eq!(
        connection.handle(&mut broker, Event::Disconnected, 4),
        Response::Closed { reason: CloseReason::PeerDisconnected }
    );
    assert_eq!(connection.phase(), Phase::Closed);
    assert!(connection.is_closed());
    assert_eq!(broker.end_offset("orders"), Some(2));
}

#[test]
fn consumer_subscribes_consumes_and_receives_in_order() {
    let mut broker = Broker::new(0, 1, None).unwrap();
    let mut consumer = Connection::new(0, 5000);
    let mut producer = Connection::new(0, 5000);
    consumer.handle(&mut broker, identify(Role::Consumer), 1);
    producer.handle(&mut broker, identify(Role::Producer), 1);

    assert_eq!(consumer.handle(&mut broker, subscribe("orders"), 2), Response::Subscribed { handle: 0 });
    assert_eq!(consumer.phase(), Phase::Active);
    assert_eq!(consumer.subscription_handle(), Some(0));
    assert!(!consumer.is_streaming());
    assert!(consumer.next_delivery(&mut broker).is_none());

    producer.handle(&mut broker, publish("orders", "P1", "k1"), 3);
    assert!(consumer.next_delivery(&mut broker).is_none());
    assert_eq!(broker.pending(0), Some(1));

    assert_eq!(consumer.handle(&mut broker, consume("orders"), 4), Response::Consuming);
    assert!(consumer.is_streaming());
    producer.handle(&mut broker, publish("orders", "P2", "k1"), 5);

    let first = consumer.next_delivery(&mut broker).unwrap();
    let second = consumer.next_delivery(&mut broker).unwrap();
    assert_eq!(first.payload, bytes("P1"));
    assert_eq!(second.payload, bytes("P2"));
    assert_eq!((first.offset, second.offset), (0, 1));
    assert_eq!((first.timestamp, second.timestamp), (3, 5));
    assert!(consumer.next_delivery(&mut broker).is_none());
}

#[test]
fn requests_before_identifying_are_reported_and_change_nothing() {
    let mut broker = Broker::new(0, 1, None).unwrap();
    let mut connection = Connection::new(0, 5000);
    assert_eq!(
        connection.handle(&mut broker, publish("orders", "P1", "k1"), 1),
        rejected(ProtocolError::NotIdentified)
    );
    assert_eq!(
        connection.handle(&mut broker, subscribe("orders"), 1),
        rejected(ProtocolError::NotIdentified)
    );
    assert_eq!(
        connection.handle(&mut broker, consume("orders"), 1),
        rejected(ProtocolError::NotIdentified)
    );
    assert_eq!(
        connection.handle(&mut broker, unsubscribe("orders"), 1),
        rejected(ProtocolError::NotIdentified)
    );
    assert_eq!(connection.phase(), Phase::Connected);
    assert!(!broker.has_topic("orders"));
    assert_eq!(broker.subscriber_count(), 0);
}

#[test]
fn the_role_is_declared_once() {
    let mut broker = Broker::new(0, 1, None).unwrap();
    let mut connection = Connection::new(0, 5000);
    connection.handle(&mut broker, identify(Role::Consumer), 1);
    assert_eq!(
        connection.handle(&mut broker, identify(Role::Producer), 2),
        rejected(ProtocolError::AlreadyIdentified)
    );
    assert_eq!(connection.role(), Some(Role::Consumer));
    assert_eq!(connection.phase(), Phase::Identified);
}

#[test]
fn requests_of_the_other_role_are_role_violations() {
    let mut broker = Broker::new(0, 1, None).unwrap();
    let mut producer = Connection::new(0, 5000);
    let mut consumer = Connection::new(0, 5000);
    producer.handle(&mut broker, identify(Role::Producer), 1);
    consumer.handle(&mut broker, identify(Role::Consumer), 1);
    assert_eq!(
        producer.handle(&mut broker, subscribe("orders"), 2),
        rejected(ProtocolError::RoleViolation)
    );
    assert_eq!(
        producer.handle(&mut broker, consume("orders"), 2),
        rejected(ProtocolError::RoleViolation)
    );
    assert_eq!(
        producer.handle(&mut broker, unsubscribe("orders"), 2),
        rejected(ProtocolError::RoleViolation)
    );
    assert_eq!(
        consumer.handle(&mut broker, publish("orders", "P1", "k1"), 2),
        rejected(ProtocolError::RoleViolation)
    );
    assert!(!producer.is_closed());
    assert!(!consumer.is_closed());
    assert_eq!(broker.subscriber_count(), 0);
    assert!(!broker.has_topic("orders"));
}

#[test]
fn a_connection_holds_one_subscription() {
    let mut broker = Broker::new(0, 1, None).unwrap();
    let mut consumer = Connection::new(0, 5000);
    consumer.handle(&mut broker, identify(Role::Consumer), 1);
    consumer.handle(&mut broker, subscribe("orders"), 2);
    assert_eq!(
        consumer.handle(&mut broker, subscribe("payments"), 3),
        rejected(ProtocolError::AlreadySubscribed)
    );
    assert_eq!(
        consumer.handle(&mut broker, subscribe("orders"), 3),
        rejected(ProtocolError::AlreadySubscribed)
    );
    assert_eq!(broker.subscriber_count(), 1);
    assert_eq!(
        consumer.handle(&mut broker, consume("payments"), 4),
        rejected(ProtocolError::NotSubscribed)
    );
    assert_eq!(
        consumer.handle(&mut broker, unsubscribe("payments"), 4),
        rejected(ProtocolError::NotSubscribed)
    );
    assert_eq!(consumer.subscription_handle(), Some(0));
}

#[test]
fn consume_without_a_subscription_is_reported() {
    let mut broker = Broker::new(0, 1, None).unwrap();
    let mut consumer = Connection::new(0, 5000);
    consumer.handle(&mut broker, identify(Role::Consumer), 1);
    assert_eq!(
        consumer.handle(&mut broker, consume("orders"), 2),
        rejected(ProtocolError::NotSubscribed)
    );
    assert_eq!(consumer.phase(), Phase::Identified);
}

#[test]
fn explicit_unsubscribe_releases_the_subscription_and_keeps_the_connection() {
    let mut broker = Broker::new(0, 1, None).unwrap();
    let mut consumer = Connection::new(0, 5000);
    consumer.handle(&mut broker, identify(Role::Consumer), 1);
    consumer.handle(&mut broker, subscribe("orders"), 2);
    consumer.handle(&mut broker, consume("orders"), 3);
    assert_eq!(consumer.handle(&mut broker, unsubscribe("orders"), 4), Response::Unsubscribed);
    assert_eq!(consumer.subscription_handle(), None);
    assert_eq!(consumer.phase(), Phase::Active);
    assert!(!consumer.is_streaming());
    assert_eq!(broker.subscriber_count(), 0);
    assert!(!broker.is_subscribed(0));
    assert_eq!(consumer.handle(&mut broker, subscribe("payments"), 5), Response::Subscribed { handle: 1 });
}

#[test]
fn disconnect_releases_the_subscription() {
    let mut broker = Broker::new(0, 1, None).unwrap();
    let mut consumer = Connection::new(0, 5000);
    let mut producer = Connection::new(0, 5000);
    consumer.handle(&mut broker, identify(Role::Consumer), 1);
    producer.handle(&mut broker, identify(Role::Producer), 1);
    consumer.handle(&mut broker, subscribe("orders"), 2);
    consumer.handle(&mut broker, consume("orders"), 2);
    assert_eq!(broker.subscriber_count(), 1);

    assert_eq!(
        consumer.handle(&mut broker, Event::Disconnected, 3),
        Response::Closed { reason: CloseReason::PeerDisconnected }
    );
    assert_eq!(broker.subscriber_count(), 0);
    assert!(!broker.is_subscribed(0));
    assert_eq!(consumer.subscription_handle(), None);

    assert_eq!(
        producer.handle(&mut broker, publish("orders", "P1", "k1"), 4),
        Response::Published { offset: 0 }
    );
    assert_eq!(broker.pending(0), None);
    assert!(consumer.next_delivery(&mut broker).is_none());
}

#[test]
fn grace_period_closes_a_connection_that_never_identifies() {
    let mut broker = Broker::new(0, 1, None).unwrap();
    let mut connection = Connection::new(1000, 5000);
    assert_eq!(connection.handle(&mut broker, Event::Tick, 3000), Response::Ignored);
    assert_eq!(connection.handle(&mut broker, Event::Tick, 6000), Response::Ignored);
    assert_eq!(connection.handle(&mut broker, Event::Tick, 500), Response::Ignored);
    assert_eq!(connection.phase(), Phase::Connected);
    assert_eq!(
        connection.handle(&mut broker, Event::Tick, 6001),
        Response::Closed { reason: CloseReason::GraceExpired }
    );
    assert!(connection.is_closed());
}

#[test]
fn grace_period_does_not_apply_once_identified() {
    let mut broker = Broker::new(0, 1, None).unwrap();
    let mut connection = Connection::new(1000, 5000);
    connection.handle(&mut broker, identify(Role::Producer), 2000);
    assert_eq!(connection.handle(&mut broker, Event::Tick, 1_000_000), Response::Ignored);
    assert_eq!(connection.phase(), Phase::Identified);
}

#[test]
fn framing_violation_closes_and_releases() {
    let mut broker = Broker::new(0, 1, None).unwrap();
    let mut consumer = Connection::new(0, 5000);
    consumer.handle(&mut broker, identify(Role::Consumer), 1);
    consumer.handle(&mut broker, subscribe("orders"), 2);
    assert_eq!(
        consumer.handle(&mut broker, Event::FramingError, 3),
        Response::Closed { reason: CloseReason::FramingViolation }
    );
    assert!(consumer.is_closed());
    assert_eq!(broker.subscriber_count(), 0);

    let mut fresh = Connection::new(0, 5000);
    assert_eq!(
        fresh.handle(&mut broker, Event::FramingError, 1),
        Response::Closed { reason: CloseReason::FramingViolation }
    );
}

#[test]
fn malformed_request_is_reported_and_the_connection_stays_open() {
    let mut broker = Broker::new(0, 1, None).unwrap();
    let mut connection = Connection::new(0, 5000);
    assert_eq!(connection.handle(&mut broker, Event::Malformed, 1), rejected(ProtocolError::Malformed));
    assert_eq!(connection.phase(), Phase::Connected);
    connection.handle(&mut broker, identify(Role::Producer), 2);
    assert_eq!(connection.handle(&mut broker, Event::Malformed, 3), rejected(ProtocolError::Malformed));
    assert_eq!(
        connection.handle(&mut broker, publish("orders", "P1", "k1"), 4),
        Response::Published { offset: 0 }
    );
}

#[test]
fn routing_error_is_reported_and_the_connection_stays_open() {
    let mut broker = Broker::new(1, 2, None).unwrap();
    let mut producer = Connection::new(0, 5000);
    producer.handle(&mut broker, identify(Role::Producer), 1);
    assert_eq!(
        producer.handle(&mut broker, publish("orders", "P1", ""), 2),
        Response::Rejected { rejection: Rejection::Broker(BrokerError::NotOwned { partition: 0 }) }
    );
    assert_eq!(producer.phase(), Phase::Identified);
    assert!(!producer.is_closed());
}

#[test]
fn closed_is_final() {
    let mut broker = Broker::new(0, 1, None).unwrap();
    let mut connection = Connection::new(0, 5000);
    connection.handle(&mut broker, identify(Role::Producer), 1);
    connection.handle(&mut broker, Event::Disconnected, 2);
    assert_eq!(
        connection.handle(&mut broker, publish("orders", "P1", "k1"), 3),
        rejected(ProtocolError::ConnectionClosed)
    );
    assert_eq!(
        connection.handle(&mut broker, identify(Role::Consumer), 3),
        rejected(ProtocolError::ConnectionClosed)
    );
    assert_eq!(
        connection.handle(&mut broker, Event::Malformed, 3),
        rejected(ProtocolError::ConnectionClosed)
    );
    assert_eq!(connection.handle(&mut broker, Event::Tick, 1_000_000), Response::Ignored);
    assert_eq!(connection.handle(&mut broker, Event::Disconnected, 4), Response::Ignored);
    assert_eq!(connection.handle(&mut broker, Event::FramingError, 4), Response::Ignored);
    assert!(connection.is_closed());
    assert!(!broker.has_topic("orders"));
}
