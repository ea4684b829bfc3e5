use rafka_core::broker::BrokerError;
use rafka_core::connection::{
    CloseReason, Event, ProtocolError, Rejection, Request, Response, Role,
};
use rafka_core::frame::{read_frame, write_frame, Frame, MAX_BODY_LEN};
use rafka_core::log::StoreError;
use rafka_core::message::Message;
use rafka_core::wire::{
    decode_reply, decode_request, encode_delivery, encode_request, encode_response, next_event,
    next_reply, Reply, WireError, TAG_CONSUME, TAG_DELIVERY, TAG_IDENTIFIED, TAG_IDENTIFY,
    TAG_PUBLISH, TAG_PUBLISHED, TAG_REJECTED, TAG_SUBSCRIBE, TAG_UNSUBSCRIBE,
};

fn assert_same_request(event: Event, expected: &Request) {
    match (event, expected) {
        (Event::Request { request: Request::Identify { role } }, Request::Identify { role: wanted }) => {
            assert_eq!(role, *wanted)
        }
        (
            Event::Request { request: Request::Publish { topic, payload, key } },
            Request::Publish { topic: t, payload: p, key: k },
        ) => {
            assert_eq!(&topic, t);
            assert_eq!(&payload, p);
            assert_eq!(&key, k);
        }
        (Event::Request { request: Request::Subscribe { topic } }, Request::Subscribe { topic: t }) => {
            assert_eq!(&topic, t)
        }
        (Event::Request { request: Request::Consume { topic } }, Request::Consume { topic: t }) => {
            assert_eq!(&topic, t)
        }
        (
            Event::Request { request: Request::Unsubscribe { topic } },
            Request::Unsubscribe { topic: t },
        ) => assert_eq!(&topic, t),
        (other, wanted) => panic!("read {:?}, sent {:?}", other, wanted),
    }
}

fn response_of(reply: Option<Reply>) -> Response {
    match reply {
        Some(Reply::Response { response }) => response,
        other => panic!("no response: {:?}", other),
    }
}

#[test]
fn identify_is_one_role_byte() {
    let producer = encode_request(&Request::Identify { role: Role::Producer }).unwrap();
    assert_eq!(producer, vec![TAG_IDENTIFY, 1, 0, 0, 0, 0]);
    let consumer = encode_request(&Request::Identify { role: Role::Consumer }).unwrap();
    assert_eq!(consumer, vec![TAG_IDENTIFY, 1, 0, 0, 0, 1]);
}

#[test]
fn publish_is_topic_field_key_field_payload() {
    let request = Request::Publish {
        topic: "orders".to_string(),
        payload: b"P1".to_vec(),
        key: b"k1".to_vec(),
    };
    let framed = encode_request(&request).unwrap();
    let mut expected = vec![TAG_PUBLISH, 18, 0, 0, 0];
    expected.extend_from_slice(&[6, 0, 0, 0]);
    expected.extend_from_slice(b"orders");
    expected.extend_from_slice(&[2, 0, 0, 0]);
    expected.extend_from_slice(b"k1");
    expected.extend_from_slice(b"P1");
    assert_eq!(framed, expected);
}

#[test]
fn topic_requests_carry_the_topic_as_utf8() {
    let framed = encode_request(&Request::Subscribe { topic: "caf\u{e9}".to_string() }).unwrap();
    assert_eq!(framed, vec![TAG_SUBSCRIBE, 5, 0, 0, 0, b'c', b'a', b'f', 0xc3, 0xa9]);
    let framed = encode_request(&Request::Consume { topic: "a".to_string() }).unwrap();
    assert_eq!(framed, vec![TAG_CONSUME, 1, 0, 0, 0, b'a']);
    let framed = encode_request(&Request::Unsubscribe { topic: "".to_string() }).unwrap();
    assert_eq!(framed, vec![TAG_UNSUBSCRIBE, 0, 0, 0, 0]);
}

#[test]
fn every_request_round_trips() {
    let requests = vec![
        Request::Identify { role: Role::Producer },
        Request::Identify { role: Role::Consumer },
        Request::Publish { topic: "orders".to_string(), payload: b"P1".to_vec(), key: b"k1".to_vec() },
        Request::Publish { topic: "".to_string(), payload: vec![], key: vec![] },
        Request::Publish { topic: "\u{1f980}".to_string(), payload: vec![0; 300], key: vec![255; 3] },
        Request::Subscribe { topic: "orders".to_string() },
        Request::Consume { topic: "orders".to_string() },
        Request::Unsubscribe { topic: "orders".to_string() },
    ];
    for request in &requests {
        let mut stream = encode_request(request).unwrap();
        let len = stream.len();
        stream.extend_from_slice(&[9, 9, 9]);
        let (event, consumed) = next_event(&stream).unwrap();
        assert_eq!(consumed, len);
        assert_same_request(event, request);
    }
}

#[test]
fn next_event_waits_for_a_whole_frame() {
    let framed = encode_request(&Request::Subscribe { topic: "orders".to_string() }).unwrap();
    for len in 0..framed.len() {
        assert!(next_event(&framed[..len]).is_none());
    }
    assert!(next_event(&framed).is_some());
}

#[test]
fn unknown_tag_and_oversized_frame_are_framing_errors() {
    let unknown = write_frame(0x42, b"x").unwrap();
    let (event, consumed) = next_event(&unknown).unwrap();
    assert!(matches!(event, Event::FramingError));
    assert_eq!(consumed, unknown.len());

    let (event, consumed) = next_event(&[TAG_PUBLISH, 0xff, 0xff, 0xff, 0xff]).unwrap();
    assert!(matches!(event, Event::FramingError));
    assert_eq!(consumed, 0);

    assert!(matches!(decode_request(0, b""), Event::FramingError));
    assert!(matches!(decode_request(TAG_IDENTIFIED, &[0]), Event::FramingError));
}

#[test]
fn well_framed_nonsense_is_malformed() {
    assert!(matches!(decode_request(TAG_IDENTIFY, &[]), Event::Malformed));
    assert!(matches!(decode_request(TAG_IDENTIFY, &[2]), Event::Malformed));
    assert!(matches!(decode_request(TAG_IDENTIFY, &[0, 0]), Event::Malformed));
    assert!(matches!(decode_request(TAG_SUBSCRIBE, &[0xff]), Event::Malformed));
    assert!(matches!(decode_request(TAG_CONSUME, &[0xc3]), Event::Malformed));
    assert!(matches!(decode_request(TAG_UNSUBSCRIBE, &[0xed, 0xa0, 0x80]), Event::Malformed));
    assert!(matches!(decode_request(TAG_PUBLISH, &[]), Event::Malformed));
    assert!(matches!(decode_request(TAG_PUBLISH, &[1, 0, 0, 0, b'a']), Event::Malformed));
    assert!(matches!(
        decode_request(TAG_PUBLISH, &[1, 0, 0, 0, b'a', 5, 0, 0, 0, b'k']),
        Event::Malformed
    ));
    assert!(matches!(
        decode_request(TAG_PUBLISH, &[1, 0, 0, 0, 0xff, 0, 0, 0, 0]),
        Event::Malformed
    ));
}

#[test]
fn oversized_request_is_not_encoded() {
    let request = Request::Publish {
        topic: "orders".to_string(),
        payload: vec![0; MAX_BODY_LEN],
        key: vec![],
    };
    assert!(encode_request(&request).is_none());
    let fits = Request::Publish {
        topic: "orders".to_string(),
        payload: vec![0; MAX_BODY_LEN - 14],
        key: vec![],
    };
    assert_eq!(encode_request(&fits).unwrap().len(), 5 + MAX_BODY_LEN);
    let long_key = Request::Publish {
        topic: "orders".to_string(),
        payload: vec![],
        key: vec![0; MAX_BODY_LEN + 1],
    };
    assert!(encode_request(&long_key).is_none());
}

#[test]
fn response_layouts() {
    assert_eq!(
        encode_response(Response::Identified { role: Role::Consumer }).unwrap(),
        vec![TAG_IDENTIFIED, 1, 0, 0, 0, 1]
    );
    assert_eq!(
        encode_response(Response::Published { offset: 0x0102 }).unwrap(),
        vec![TAG_PUBLISHED, 8, 0, 0, 0, 2, 1, 0, 0, 0, 0, 0, 0]
    );
    assert_eq!(
        encode_response(Response::Rejected {
            rejection: Rejection::Broker(BrokerError::NotOwned { partition: 3 })
        })
        .unwrap(),
        vec![TAG_REJECTED, 9, 0, 0, 0, 17, 3, 0, 0, 0, 0, 0, 0, 0]
    );
    assert!(encode_response(Response::Ignored).is_none());
}

#[test]
fn every_response_round_trips() {
    let rejections = vec![
        Rejection::Protocol(ProtocolError::ConnectionClosed),
        Rejection::Protocol(ProtocolError::NotIdentified),
        Rejection::Protocol(ProtocolError::AlreadyIdentified),
        Rejection::Protocol(ProtocolError::RoleViolation),
        Rejection::Protocol(ProtocolError::AlreadySubscribed),
        Rejection::Protocol(ProtocolError::NotSubscribed),
        Rejection::Protocol(ProtocolError::Malformed),
        Rejection::Broker(BrokerError::InvalidConfiguration),
        Rejection::Broker(BrokerError::NotOwned { partition: 0 }),
        Rejection::Broker(BrokerError::NotOwned { partition: u32::MAX }),
        Rejection::Broker(BrokerError::SubscriptionsExhausted),
        Rejection::Broker(BrokerError::Storage(StoreError::BelowRetainedHorizon { horizon: u64::MAX })),
        Rejection::Broker(BrokerError::Storage(StoreError::OffsetsExhausted)),
        Rejection::Broker(BrokerError::Storage(StoreError::SizeOverflow)),
        Rejection::Broker(BrokerError::Storage(StoreError::UnknownPartition)),
        Rejection::Broker(BrokerError::Storage(StoreError::NotYetAppended { end: 12 })),
    ];
    let mut responses = vec![
        Response::Identified { role: Role::Producer },
        Response::Identified { role: Role::Consumer },
        Response::Published { offset: 0 },
        Response::Published { offset: u64::MAX },
        Response::Subscribed { handle: 42 },
        Response::Consuming,
        Response::Unsubscribed,
        Response::Closed { reason: CloseReason::GraceExpired },
        Response::Closed { reason: CloseReason::FramingViolation },
        Response::Closed { reason: CloseReason::PeerDisconnected },
    ];
    for rejection in rejections {
        responses.push(Response::Rejected { rejection });
    }
    for response in responses {
        let framed = encode_response(response).unwrap();
        match next_reply(&framed) {
            Ok(Some((Reply::Response { response: read }, consumed))) => {
                assert_eq!(read, response);
                assert_eq!(consumed, framed.len());
            }
            other => panic!("sent {:?}, read {:?}", response, other),
        }
    }
}

#[test]
fn delivery_round_trips() {
    let message = Message {
        offset: 77,
        key: b"k1".to_vec(),
        payload: b"P1".to_vec(),
        timestamp: 1_700_000_000_000,
    };
    let framed = encode_delivery(&message).unwrap();
    assert_eq!(framed[0], TAG_DELIVERY);
    assert_eq!(framed.len(), 5 + 8 + 8 + 4 + 2 + 2);
    match next_reply(&framed) {
        Ok(Some((Reply::Delivery { message: read }, consumed))) => {
            assert_eq!(consumed, framed.len());
            assert_eq!(read.offset, 77);
            assert_eq!(read.key, b"k1".to_vec());
            assert_eq!(read.payload, b"P1".to_vec());
            assert_eq!(read.timestamp, 1_700_000_000_000);
        }
        other => panic!("read {:?}", other),
    }
}

#[test]
fn oversized_delivery_is_not_encoded() {
    let message = Message { offset: 0, key: vec![], payload: vec![0; MAX_BODY_LEN], timestamp: 0 };
    assert!(encode_delivery(&message).is_none());
    let fits = Message { offset: 0, key: vec![], payload: vec![0; MAX_BODY_LEN - 20], timestamp: 0 };
    assert_eq!(encode_delivery(&fits).unwrap().len(), 5 + MAX_BODY_LEN);
}

#[test]
fn bad_replies_are_told_apart() {
    assert_eq!(next_reply(&[TAG_PUBLISHED, 8, 0]).ok().map(|r| r.is_none()), Some(true));
    assert_eq!(next_reply(&[TAG_PUBLISHED, 0xff, 0xff, 0xff, 0xff]).err(), Some(WireError::FramingViolation));
    assert_eq!(next_reply(&[TAG_PUBLISHED, 1, 0, 0, 0, 7]).err(), Some(WireError::MalformedReply));
    assert_eq!(next_reply(&[0x42, 0, 0, 0, 0]).err(), Some(WireError::MalformedReply));
    assert!(decode_reply(TAG_IDENTIFIED, &[2]).is_none());
    assert!(decode_reply(TAG_REJECTED, &[99, 0, 0, 0, 0, 0, 0, 0, 0]).is_none());
    assert!(decode_reply(TAG_REJECTED, &[17, 0, 0, 0, 0, 1, 0, 0, 0]).is_none());
    assert!(decode_reply(TAG_REJECTED, &[1, 0]).is_none());
    assert!(decode_reply(TAG_DELIVERY, &[0; 19]).is_none());
    assert_eq!(
        response_of(decode_reply(TAG_REJECTED, &[17, 9, 0, 0, 0, 0, 0, 0, 0])),
        Response::Rejected { rejection: Rejection::Broker(BrokerError::NotOwned { partition: 9 }) }
    );
}

#[test]
fn invalid_utf8_topic_is_malformed_not_lossy() {
    let body = [b'o', b'k', 0x80];
    let framed = write_frame(TAG_SUBSCRIBE, &body).unwrap();
    let (event, consumed) = next_event(&framed).unwrap();
    assert!(matches!(event, Event::Malformed));
    assert_eq!(consumed, framed.len());
    assert!(matches!(read_frame(&framed), Frame::Complete { .. }));
}
