//! The wire protocol: how requests, responses and deliveries are laid out in
//! the body of a frame.
//!
//! A peer sends request frames. The broker answers each request with one
//! response frame and, to a streaming consumer, sends delivery frames. Text
//! travels as UTF-8. A request whose body does not fit its tag is malformed
//! and is reported; a tag that names no request is a framing violation.

use crate::broker::BrokerError;
use crate::connection::{
    CloseReason, Event, EventView, ProtocolError, Rejection, Request, RequestView, Response, Role,
};
use crate::frame::{
    field, frame, lemma_field_round_trip, lemma_frame_round_trip, lemma_u64_round_trip,
    parse_frame, put_bytes, put_field, put_u64, read_frame, split_field, split_u64, take_field,
    take_u64, write_frame, Frame, FrameView, HEADER_LEN, MAX_BODY_LEN,
};
use crate::log::StoreError;
use crate::message::{Message, MessageView};
use vstd::bytes::{lemma_auto_spec_u32_to_from_le_bytes, spec_u64_to_le_bytes};
use vstd::prelude::*;
use vstd::slice::slice_to_vec;
use vstd::utf8::{
    decode_utf8, encode_utf8, encode_utf8_decode_utf8, encode_utf8_valid_utf8, valid_utf8,
};

verus! {

pub const TAG_IDENTIFY: u8 = 1;

pub const TAG_PUBLISH: u8 = 2;

pub const TAG_SUBSCRIBE: u8 = 3;

pub const TAG_CONSUME: u8 = 4;

pub const TAG_UNSUBSCRIBE: u8 = 5;

pub const TAG_IDENTIFIED: u8 = 0x81;

pub const TAG_PUBLISHED: u8 = 0x82;

pub const TAG_SUBSCRIBED: u8 = 0x83;

pub const TAG_CONSUMING: u8 = 0x84;

pub const TAG_UNSUBSCRIBED: u8 = 0x85;

pub const TAG_REJECTED: u8 = 0x86;

pub const TAG_CLOSED: u8 = 0x87;

pub const TAG_DELIVERY: u8 = 0x88;

/// Why bytes received from the broker could not be taken as a reply.
#[derive(Clone, Copy, Debug, PartialEq, Eq, Structural)]
pub enum WireError {
    /// The stream no longer frames replies.
    FramingViolation,
    /// A whole frame arrived that holds no reply.
    MalformedReply,
}

/// What the broker sends: the response to a request, or a delivery.
#[derive(Debug)]
pub enum Reply {
    Response { response: Response },
    Delivery { message: Message },
}

/// Mathematical model of a [`Reply`].
pub enum ReplyView {
    Response { response: Response },
    Delivery { message: MessageView },
}

impl View for Reply {
    type V = ReplyView;

    open spec fn view(&self) -> ReplyView {
        match self {
            Reply::Response { response } => ReplyView::Response { response: *response },
            Reply::Delivery { message } => ReplyView::Delivery { message: message@ },
        }
    }
}

/// The byte a role travels as.
pub open spec fn role_code(role: Role) -> u8 {
    match role {
        Role::Producer => 0,
        Role::Consumer => 1,
    }
}

/// The role a byte stands for, if any.
pub open spec fn role_of(code: u8) -> Option<Role> {
    if code == 0 {
        Some(Role::Producer)
    } else if code == 1 {
        Some(Role::Consumer)
    } else {
        None
    }
}

/// The byte a close reason travels as.
pub open spec fn reason_code(reason: CloseReason) -> u8 {
    match reason {
        CloseReason::GraceExpired => 1,
        CloseReason::FramingViolation => 2,
        CloseReason::PeerDisconnected => 3,
    }
}

/// The close reason a byte stands for, if any.
pub open spec fn reason_of(code: u8) -> Option<CloseReason> {
    if code == 1 {
        Some(CloseReason::GraceExpired)
    } else if code == 2 {
        Some(CloseReason::FramingViolation)
    } else if code == 3 {
        Some(CloseReason::PeerDisconnected)
    } else {
        None
    }
}

/// The byte that says which rejection it is.
pub open spec fn rejection_code(rejection: Rejection) -> u8 {
    match rejection {
        Rejection::Protocol(ProtocolError::ConnectionClosed) => 1,
        Rejection::Protocol(ProtocolError::NotIdentified) => 2,
        Rejection::Protocol(ProtocolError::AlreadyIdentified) => 3,
        Rejection::Protocol(ProtocolError::RoleViolation) => 4,
        Rejection::Protocol(ProtocolError::AlreadySubscribed) => 5,
        Rejection::Protocol(ProtocolError::NotSubscribed) => 6,
        Rejection::Protocol(ProtocolError::Malformed) => 7,
        Rejection::Broker(BrokerError::InvalidConfiguration) => 16,
        Rejection::Broker(BrokerError::NotOwned { .. }) => 17,
        Rejection::Broker(BrokerError::SubscriptionsExhausted) => 18,
        Rejection::Broker(BrokerError::Storage(StoreError::BelowRetainedHorizon { .. })) => 32,
        Rejection::Broker(BrokerError::Storage(StoreError::OffsetsExhausted)) => 33,
        Rejection::Broker(BrokerError::Storage(StoreError::SizeOverflow)) => 34,
        Rejection::Broker(BrokerError::Storage(StoreError::UnknownPartition)) => 35,
        Rejection::Broker(BrokerError::Storage(StoreError::NotYetAppended { .. })) => 36,
    }
}

/// The number a rejection carries: the partition the key routes to, the
/// retained horizon, the end offset, or zero.
pub open spec fn rejection_argument(rejection: Rejection) -> u64 {
    match rejection {
        Rejection::Broker(BrokerError::NotOwned { partition }) => partition as u64,
        Rejection::Broker(BrokerError::Storage(StoreError::BelowRetainedHorizon { horizon })) => horizon,
        Rejection::Broker(BrokerError::Storage(StoreError::NotYetAppended { end })) => end,
        _ => 0,
    }
}

/// The rejection a code and a number stand for, if any.
pub open spec fn rejection_of(code: u8, argument: u64) -> Option<Rejection> {
    if code == 1 {
        Some(Rejection::Protocol(ProtocolError::ConnectionClosed))
    } else if code == 2 {
        Some(Rejection::Protocol(ProtocolError::NotIdentified))
    } else if code == 3 {
        Some(Rejection::Protocol(ProtocolError::AlreadyIdentified))
    } else if code == 4 {
        Some(Rejection::Protocol(ProtocolError::RoleViolation))
    } else if code == 5 {
        Some(Rejection::Protocol(ProtocolError::AlreadySubscribed))
    } else if code == 6 {
        Some(Rejection::Protocol(ProtocolError::NotSubscribed))
    } else if code == 7 {
        Some(Rejection::Protocol(ProtocolError::Malformed))
    } else if code == 16 {
        Some(Rejection::Broker(BrokerError::InvalidConfiguration))
    } else if code == 17 {
        if argument <= u32::MAX {
            Some(Rejection::Broker(BrokerError::NotOwned { partition: argument as u32 }))
        } else {
            None
        }
    } else if code == 18 {
        Some(Rejection::Broker(BrokerError::SubscriptionsExhausted))
    } else if code == 32 {
        Some(
            Rejection::Broker(
                BrokerError::Storage(StoreError::BelowRetainedHorizon { horizon: argument }),
            ),
        )
    } else if code == 33 {
        Some(Rejection::Broker(BrokerError::Storage(StoreError::OffsetsExhausted)))
    } else if code == 34 {
        Some(Rejection::Broker(BrokerError::Storage(StoreError::SizeOverflow)))
    } else if code == 35 {
        Some(Rejection::Broker(BrokerError::Storage(StoreError::UnknownPartition)))
    } else if code == 36 {
        Some(Rejection::Broker(BrokerError::Storage(StoreError::NotYetAppended { end: argument })))
    } else {
        None
    }
}

/// The text some bytes spell, if they are UTF-8.
pub open spec fn parse_text(bytes: Seq<u8>) -> Option<Seq<char>> {
    if valid_utf8(bytes) {
        Some(decode_utf8(bytes))
    } else {
        None
    }
}

/// The tag of the frame a request travels in.
pub open spec fn request_tag(request: RequestView) -> u8 {
    match request {
        RequestView::Identify { .. } => TAG_IDENTIFY,
        RequestView::Publish { .. } => TAG_PUBLISH,
        RequestView::Subscribe { .. } => TAG_SUBSCRIBE,
        RequestView::Consume { .. } => TAG_CONSUME,
        RequestView::Unsubscribe { .. } => TAG_UNSUBSCRIBE,
    }
}

/// The body of the frame a request travels in.
pub open spec fn request_body(request: RequestView) -> Seq<u8> {
    match request {
        RequestView::Identify { role } => seq![role_code(role)],
        RequestView::Publish { topic, payload, key } => field(encode_utf8(topic)) + field(key)
            + payload,
        RequestView::Subscribe { topic } => encode_utf8(topic),
        RequestView::Consume { topic } => encode_utf8(topic),
        RequestView::Unsubscribe { topic } => encode_utf8(topic),
    }
}

/// The event a frame received from a peer amounts to.
pub open spec fn parse_request(tag: u8, body: Seq<u8>) -> EventView {
    if tag == TAG_IDENTIFY {
        if body.len() == 1 && role_of(body[0]) is Some {
            EventView::Request { request: RequestView::Identify { role: role_of(body[0])->0 } }
        } else {
            EventView::Malformed
        }
    } else if tag == TAG_PUBLISH {
        match split_field(body) {
            Some((topic, after_topic)) => match split_field(after_topic) {
                Some((key, payload)) => match parse_text(topic) {
                    Some(topic) => EventView::Request {
                        request: RequestView::Publish { topic, payload, key },
                    },
                    None => EventView::Malformed,
                },
                None => EventView::Malformed,
            },
            None => EventView::Malformed,
        }
    } else if tag == TAG_SUBSCRIBE {
        match parse_text(body) {
            Some(topic) => EventView::Request { request: RequestView::Subscribe { topic } },
            None => EventView::Malformed,
        }
    } else if tag == TAG_CONSUME {
        match parse_text(body) {
            Some(topic) => EventView::Request { request: RequestView::Consume { topic } },
            None => EventView::Malformed,
        }
    } else if tag == TAG_UNSUBSCRIBE {
        match parse_text(body) {
            Some(topic) => EventView::Request { request: RequestView::Unsubscribe { topic } },
            None => EventView::Malformed,
        }
    } else {
        EventView::FramingError
    }
}

/// The next event the bytes received from a peer amount to, with the number
/// of bytes it takes up, if they hold one yet.
pub open spec fn parse_event(stream: Seq<u8>) -> Option<(EventView, nat)> {
    match parse_frame(stream) {
        FrameView::Incomplete => None,
        FrameView::Violation => Some((EventView::FramingError, 0nat)),
        FrameView::Complete { tag, body, consumed } => Some((parse_request(tag, body), consumed)),
    }
}

/// The tag of the frame a response travels in.
pub open spec fn response_tag(response: Response) -> u8 {
    match response {
        Response::Identified { .. } => TAG_IDENTIFIED,
        Response::Published { .. } => TAG_PUBLISHED,
        Response::Subscribed { .. } => TAG_SUBSCRIBED,
        Response::Consuming => TAG_CONSUMING,
        Response::Unsubscribed => TAG_UNSUBSCRIBED,
        Response::Rejected { .. } => TAG_REJECTED,
        Response::Closed { .. } => TAG_CLOSED,
        Response::Ignored => 0,
    }
}

/// The body of the frame a response travels in.
pub open spec fn response_body(response: Response) -> Seq<u8> {
    match response {
        Response::Identified { role } => seq![role_code(role)],
        Response::Published { offset } => spec_u64_to_le_bytes(offset),
        Response::Subscribed { handle } => spec_u64_to_le_bytes(handle),
        Response::Consuming => Seq::empty(),
        Response::Unsubscribed => Seq::empty(),
        Response::Rejected { rejection } => seq![rejection_code(rejection)] + spec_u64_to_le_bytes(
            rejection_argument(rejection),
        ),
        Response::Closed { reason } => seq![reason_code(reason)],
        Response::Ignored => Seq::empty(),
    }
}

/// The frame a response travels in, if it is sent at all: `Ignored` is not.
pub open spec fn response_frame(response: Response) -> Option<Seq<u8>> {
    if response is Ignored {
        None
    } else {
        Some(frame(response_tag(response), response_body(response)))
    }
}

/// The body of the frame a delivery travels in.
pub open spec fn delivery_body(message: MessageView) -> Seq<u8> {
    spec_u64_to_le_bytes(message.offset as u64) + spec_u64_to_le_bytes(message.timestamp as u64)
        + field(message.key) + message.payload
}

/// The reply a frame received from the broker amounts to, if any.
pub open spec fn parse_reply(tag: u8, body: Seq<u8>) -> Option<ReplyView> {
    if tag == TAG_IDENTIFIED {
        if body.len() == 1 && role_of(body[0]) is Some {
            Some(ReplyView::Response { response: Response::Identified { role: role_of(body[0])->0 } })
        } else {
            None
        }
    } else if tag == TAG_PUBLISHED {
        match split_u64(body) {
            Some((offset, rest)) => if rest.len() == 0 {
                Some(ReplyView::Response { response: Response::Published { offset } })
            } else {
                None
            },
            None => None,
        }
    } else if tag == TAG_SUBSCRIBED {
        match split_u64(body) {
            Some((handle, rest)) => if rest.len() == 0 {
                Some(ReplyView::Response { response: Response::Subscribed { handle } })
            } else {
                None
            },
            None => None,
        }
    } else if tag == TAG_CONSUMING {
        if body.len() == 0 {
            Some(ReplyView::Response { response: Response::Consuming })
        } else {
            None
        }
    } else if tag == TAG_UNSUBSCRIBED {
        if body.len() == 0 {
            Some(ReplyView::Response { response: Response::Unsubscribed })
        } else {
            None
        }
    } else if tag == TAG_REJECTED {
        if body.len() == 9 {
            match split_u64(body.subrange(1, 9)) {
                Some((argument, _)) => match rejection_of(body[0], argument) {
                    Some(rejection) => Some(
                        ReplyView::Response { response: Response::Rejected { rejection } },
                    ),
                    None => None,
                },
                None => None,
            }
        } else {
            None
        }
    } else if tag == TAG_CLOSED {
        if body.len() == 1 && reason_of(body[0]) is Some {
            Some(ReplyView::Response { response: Response::Closed { reason: reason_of(body[0])->0 } })
        } else {
            None
        }
    } else if tag == TAG_DELIVERY {
        match split_u64(body) {
            Some((offset, after_offset)) => match split_u64(after_offset) {
                Some((timestamp, after_timestamp)) => match split_field(after_timestamp) {
                    Some((key, payload)) => Some(
                        ReplyView::Delivery {
                            message: MessageView {
                                offset: offset as nat,
                                key,
                                payload,
                                timestamp: timestamp as nat,
                            },
                        },
                    ),
                    None => None,
                },
                None => None,
            },
            None => None,
        }
    } else {
        None
    }
}

/// Every request that fits in a frame is read back as itself.
pub proof fn lemma_request_round_trip(request: RequestView, rest: Seq<u8>)
    requires
        request_body(request).len() <= MAX_BODY_LEN,
    ensures
        parse_request(request_tag(request), request_body(request)) == (EventView::Request {
            request,
        }),
        parse_event(frame(request_tag(request), request_body(request)) + rest) == Some(
            (
                EventView::Request { request },
                (HEADER_LEN + request_body(request).len()) as nat,
            ),
        ),
{
    lemma_frame_round_trip(request_tag(request), request_body(request), rest);
    lemma_auto_spec_u32_to_from_le_bytes();
    match request {
        RequestView::Identify { role } => {},
        RequestView::Publish { topic, payload, key } => {
            let text = encode_utf8(topic);
            encode_utf8_valid_utf8(topic);
            encode_utf8_decode_utf8(topic);
            assert(request_body(request) == field(text) + (field(key) + payload));
            lemma_field_round_trip(text, field(key) + payload);
            lemma_field_round_trip(key, payload);
        },
        RequestView::Subscribe { topic } => {
            encode_utf8_valid_utf8(topic);
            encode_utf8_decode_utf8(topic);
        },
        RequestView::Consume { topic } => {
            encode_utf8_valid_utf8(topic);
            encode_utf8_decode_utf8(topic);
        },
        RequestView::Unsubscribe { topic } => {
            encode_utf8_valid_utf8(topic);
            encode_utf8_decode_utf8(topic);
        },
    }
}

/// Every response that is sent is read back as itself.
pub proof fn lemma_response_round_trip(response: Response)
    requires
        !(response is Ignored),
    ensures
        response_body(response).len() <= 9,
        parse_reply(response_tag(response), response_body(response)) == Some(
            ReplyView::Response { response },
        ),
{
    match response {
        Response::Published { offset } => {
            lemma_u64_round_trip(offset, Seq::empty());
            assert(spec_u64_to_le_bytes(offset) + Seq::<u8>::empty() == spec_u64_to_le_bytes(
                offset,
            ));
        },
        Response::Subscribed { handle } => {
            lemma_u64_round_trip(handle, Seq::empty());
            assert(spec_u64_to_le_bytes(handle) + Seq::<u8>::empty() == spec_u64_to_le_bytes(
                handle,
            ));
        },
        Response::Rejected { rejection } => {
            let argument = spec_u64_to_le_bytes(rejection_argument(rejection));
            lemma_u64_round_trip(rejection_argument(rejection), Seq::empty());
            assert(response_body(response).subrange(1, 9) == argument + Seq::<u8>::empty());
        },
        _ => {},
    }
}

/// Every delivery is read back as the message delivered.
pub proof fn lemma_delivery_round_trip(message: MessageView)
    requires
        message.offset <= u64::MAX,
        message.timestamp <= u64::MAX,
        message.key.len() <= u32::MAX,
    ensures
        parse_reply(TAG_DELIVERY, delivery_body(message)) == Some(ReplyView::Delivery { message }),
{
    let offset = spec_u64_to_le_bytes(message.offset as u64);
    let timestamp = spec_u64_to_le_bytes(message.timestamp as u64);
    let tail = field(message.key) + message.payload;
    assert(delivery_body(message) == offset + (timestamp + tail));
    lemma_u64_round_trip(message.offset as u64, timestamp + tail);
    lemma_u64_round_trip(message.timestamp as u64, tail);
    lemma_field_round_trip(message.key, message.payload);
}

/// `String::from_utf8` of the standard library: gives the text the bytes
/// spell when they are valid UTF-8, and nothing otherwise.
#[verifier::external_body]
fn text_from_utf8(bytes: Vec<u8>) -> (text: Option<String>)
    ensures
        match text {
            Some(decoded) => valid_utf8(bytes@) && decoded@ == decode_utf8(bytes@),
            None => !valid_utf8(bytes@),
        },
{
    match String::from_utf8(bytes) {
        Ok(decoded) => Some(decoded),
        Err(_) => None,
    }
}

fn read_text(bytes: &[u8]) -> (text: Option<String>)
    ensures
        match text {
            Some(decoded) => parse_text(bytes@) == Some(decoded@),
            None => parse_text(bytes@) is None,
        },
{
    text_from_utf8(slice_to_vec(bytes))
}

fn read_role(code: u8) -> (role: Option<Role>)
    ensures
        role == role_of(code),
{
    if code == 0 {
        Some(Role::Producer)
    } else if code == 1 {
        Some(Role::Consumer)
    } else {
        None
    }
}

fn write_role(role: Role) -> (code: u8)
    ensures
        code == role_code(role),
{
    match role {
        Role::Producer => 0,
        Role::Consumer => 1,
    }
}

fn read_reason(code: u8) -> (reason: Option<CloseReason>)
    ensures
        reason == reason_of(code),
{
    if code == 1 {
        Some(CloseReason::GraceExpired)
    } else if code == 2 {
        Some(CloseReason::FramingViolation)
    } else if code == 3 {
        Some(CloseReason::PeerDisconnected)
    } else {
        None
    }
}

fn write_reason(reason: CloseReason) -> (code: u8)
    ensures
        code == reason_code(reason),
{
    match reason {
        CloseReason::GraceExpired => 1,
        CloseReason::FramingViolation => 2,
        CloseReason::PeerDisconnected => 3,
    }
}

fn read_rejection(code: u8, argument: u64) -> (rejection: Option<Rejection>)
    ensures
        rejection == rejection_of(code, argument),
{
    if code == 1 {
        Some(Rejection::Protocol(ProtocolError::ConnectionClosed))
    } else if code == 2 {
        Some(Rejection::Protocol(ProtocolError::NotIdentified))
    } else if code == 3 {
        Some(Rejection::Protocol(ProtocolError::AlreadyIdentified))
    } else if code == 4 {
        Some(Rejection::Protocol(ProtocolError::RoleViolation))
    } else if code == 5 {
        Some(Rejection::Protocol(ProtocolError::AlreadySubscribed))
    } else if code == 6 {
        Some(Rejection::Protocol(ProtocolError::NotSubscribed))
    } else if code == 7 {
        Some(Rejection::Protocol(ProtocolError::Malformed))
    } else if code == 16 {
        Some(Rejection::Broker(BrokerError::InvalidConfiguration))
    } else if code == 17 {
        if argument <= 0xffff_ffff {
            Some(Rejection::Broker(BrokerError::NotOwned { partition: argument as u32 }))
        } else {
            None
        }
    } else if code == 18 {
        Some(Rejection::Broker(BrokerError::SubscriptionsExhausted))
    } else if code == 32 {
        Some(
            Rejection::Broker(
                BrokerError::Storage(StoreError::BelowRetainedHorizon { horizon: argument }),
            ),
        )
    } else if code == 33 {
        Some(Rejection::Broker(BrokerError::Storage(StoreError::OffsetsExhausted)))
    } else if code == 34 {
        Some(Rejection::Broker(BrokerError::Storage(StoreError::SizeOverflow)))
    } else if code == 35 {
        Some(Rejection::Broker(BrokerError::Storage(StoreError::UnknownPartition)))
    } else if code == 36 {
        Some(Rejection::Broker(BrokerError::Storage(StoreError::NotYetAppended { end: argument })))
    } else {
        None
    }
}

fn write_rejection(rejection: Rejection) -> (coded: (u8, u64))
    ensures
        coded.0 == rejection_code(rejection),
        coded.1 == rejection_argument(rejection),
{
    match rejection {
        Rejection::Protocol(error) => match error {
            ProtocolError::ConnectionClosed => (1, 0),
            ProtocolError::NotIdentified => (2, 0),
            ProtocolError::AlreadyIdentified => (3, 0),
            ProtocolError::RoleViolation => (4, 0),
            ProtocolError::AlreadySubscribed => (5, 0),
            ProtocolError::NotSubscribed => (6, 0),
            ProtocolError::Malformed => (7, 0),
        },
        Rejection::Broker(error) => match error {
            BrokerError::InvalidConfiguration => (16, 0),
            BrokerError::NotOwned { partition } => (17, partition as u64),
            BrokerError::SubscriptionsExhausted => (18, 0),
            BrokerError::Storage(inner) => match inner {
                StoreError::BelowRetainedHorizon { horizon } => (32, horizon),
                StoreError::OffsetsExhausted => (33, 0),
                StoreError::SizeOverflow => (34, 0),
                StoreError::UnknownPartition => (35, 0),
                StoreError::NotYetAppended { end } => (36, end),
            },
        },
    }
}

/// Lays a request out as a frame, or gives `None` when its body would be
/// longer than [`MAX_BODY_LEN`].
pub fn encode_request(request: &Request) -> (bytes: Option<Vec<u8>>)
    ensures
        match bytes {
            Some(framed) => request_body(request@).len() <= MAX_BODY_LEN && framed@ == frame(
                request_tag(request@),
                request_body(request@),
            ),
            None => request_body(request@).len() > MAX_BODY_LEN,
        },
{
    proof {
        lemma_auto_spec_u32_to_from_le_bytes();
    }
    match request {
        Request::Identify { role } => {
            let mut body: Vec<u8> = Vec::new();
            body.push(write_role(*role));
            assert(body@ == request_body(request@));
            write_frame(TAG_IDENTIFY, body.as_slice())
        },
        Request::Publish { topic, payload, key } => {
            let text = topic.as_str().as_bytes();
            if text.len() > MAX_BODY_LEN || key.len() > MAX_BODY_LEN {
                return None;
            }
            let mut body: Vec<u8> = Vec::new();
            put_field(&mut body, text);
            put_field(&mut body, key.as_slice());
            put_bytes(&mut body, payload.as_slice());
            assert(body@ == request_body(request@));
            write_frame(TAG_PUBLISH, body.as_slice())
        },
        Request::Subscribe { topic } => write_frame(TAG_SUBSCRIBE, topic.as_str().as_bytes()),
        Request::Consume { topic } => write_frame(TAG_CONSUME, topic.as_str().as_bytes()),
        Request::Unsubscribe { topic } => write_frame(TAG_UNSUBSCRIBE, topic.as_str().as_bytes()),
    }
}

/// Reads the body of a frame received from a peer as the request its tag
/// announces.
pub fn decode_request(tag: u8, body: &[u8]) -> (event: Event)
    ensures
        event@ == parse_request(tag, body@),
{
    if tag == TAG_IDENTIFY {
        if body.len() != 1 {
            return Event::Malformed;
        }
        match read_role(body[0]) {
            Some(role) => Event::Request { request: Request::Identify { role } },
            None => Event::Malformed,
        }
    } else if tag == TAG_PUBLISH {
        match take_field(body) {
            Some((topic, after_topic)) => match take_field(after_topic) {
                Some((key, payload)) => match read_text(topic) {
                    Some(topic) => Event::Request {
                        request: Request::Publish {
                            topic,
                            payload: slice_to_vec(payload),
                            key: slice_to_vec(key),
                        },
                    },
                    None => Event::Malformed,
                },
                None => Event::Malformed,
            },
            None => Event::Malformed,
        }
    } else if tag == TAG_SUBSCRIBE {
        match read_text(body) {
            Some(topic) => Event::Request { request: Request::Subscribe { topic } },
            None => Event::Malformed,
        }
    } else if tag == TAG_CONSUME {
        match read_text(body) {
            Some(topic) => Event::Request { request: Request::Consume { topic } },
            None => Event::Malformed,
        }
    } else if tag == TAG_UNSUBSCRIBE {
        match read_text(body) {
            Some(topic) => Event::Request { request: Request::Unsubscribe { topic } },
            None => Event::Malformed,
        }
    } else {
        Event::FramingError
    }
}

/// Looks for the next event in the bytes received from a peer so far, and
/// says how many of them it takes up. Gives `None` while the bytes hold no
/// whole frame. A framing violation takes up nothing: the connection is over.
pub fn next_event(stream: &[u8]) -> (next: Option<(Event, usize)>)
    ensures
        match next {
            Some((event, consumed)) => parse_event(stream@) == Some((event@, consumed as nat)),
            None => parse_event(stream@) is None,
        },
{
    match read_frame(stream) {
        Frame::Incomplete => None,
        Frame::Violation => Some((Event::FramingError, 0)),
        Frame::Complete { tag, body, consumed } => Some(
            (decode_request(tag, body.as_slice()), consumed),
        ),
    }
}

/// Lays a response out as a frame. `Ignored` is not sent and gives `None`.
pub fn encode_response(response: Response) -> (bytes: Option<Vec<u8>>)
    ensures
        match bytes {
            Some(framed) => response_frame(response) == Some(framed@),
            None => response_frame(response) is None,
        },
{
    let mut body: Vec<u8> = Vec::new();
    let tag = match response {
        Response::Identified { role } => {
            body.push(write_role(role));
            assert(body@ == response_body(response));
            TAG_IDENTIFIED
        },
        Response::Published { offset } => {
            put_u64(&mut body, offset);
            assert(body@ == response_body(response));
            TAG_PUBLISHED
        },
        Response::Subscribed { handle } => {
            put_u64(&mut body, handle);
            assert(body@ == response_body(response));
            TAG_SUBSCRIBED
        },
        Response::Consuming => TAG_CONSUMING,
        Response::Unsubscribed => TAG_UNSUBSCRIBED,
        Response::Rejected { rejection } => {
            let (code, argument) = write_rejection(rejection);
            body.push(code);
            put_u64(&mut body, argument);
            assert(body@ == response_body(response));
            TAG_REJECTED
        },
        Response::Closed { reason } => {
            body.push(write_reason(reason));
            assert(body@ == response_body(response));
            TAG_CLOSED
        },
        Response::Ignored => {
            return None;
        },
    };
    proof {
        vstd::bytes::lemma_auto_spec_u64_to_from_le_bytes();
    }
    write_frame(tag, body.as_slice())
}

/// Lays a delivery out as a frame, or gives `None` when its body would be
/// longer than [`MAX_BODY_LEN`].
pub fn encode_delivery(message: &Message) -> (bytes: Option<Vec<u8>>)
    ensures
        match bytes {
            Some(framed) => delivery_body(message@).len() <= MAX_BODY_LEN && framed@ == frame(
                TAG_DELIVERY,
                delivery_body(message@),
            ),
            None => delivery_body(message@).len() > MAX_BODY_LEN,
        },
{
    proof {
        lemma_auto_spec_u32_to_from_le_bytes();
        vstd::bytes::lemma_auto_spec_u64_to_from_le_bytes();
    }
    if message.key.len() > MAX_BODY_LEN {
        return None;
    }
    let mut body: Vec<u8> = Vec::new();
    put_u64(&mut body, message.offset);
    put_u64(&mut body, message.timestamp);
    put_field(&mut body, message.key.as_slice());
    put_bytes(&mut body, message.payload.as_slice());
    assert(body@ == delivery_body(message@));
    write_frame(TAG_DELIVERY, body.as_slice())
}

/// Reads the body of a frame received from the broker as the reply its tag
/// announces, or gives `None` when it holds none.
pub fn decode_reply(tag: u8, body: &[u8]) -> (reply: Option<Reply>)
    ensures
        match reply {
            Some(read) => parse_reply(tag, body@) == Some(read@),
            None => parse_reply(tag, body@) is None,
        },
{
    if tag == TAG_IDENTIFIED {
        if body.len() != 1 {
            return None;
        }
        match read_role(body[0]) {
            Some(role) => Some(Reply::Response { response: Response::Identified { role } }),
            None => None,
        }
    } else if tag == TAG_PUBLISHED {
        match take_u64(body) {
            Some((offset, rest)) => if rest.len() == 0 {
                Some(Reply::Response { response: Response::Published { offset } })
            } else {
                None
            },
            None => None,
        }
    } else if tag == TAG_SUBSCRIBED {
        match take_u64(body) {
            Some((handle, rest)) => if rest.len() == 0 {
                Some(Reply::Response { response: Response::Subscribed { handle } })
            } else {
                None
            },
            None => None,
        }
    } else if tag == TAG_CONSUMING {
        if body.len() == 0 {
            Some(Reply::Response { response: Response::Consuming })
        } else {
            None
        }
    } else if tag == TAG_UNSUBSCRIBED {
        if body.len() == 0 {
            Some(Reply::Response { response: Response::Unsubscribed })
        } else {
            None
        }
    } else if tag == TAG_REJECTED {
        if body.len() != 9 {
            return None;
        }
        match take_u64(vstd::slice::slice_subrange(body, 1, 9)) {
            Some((argument, _)) => match read_rejection(body[0], argument) {
                Some(rejection) => Some(
                    Reply::Response { response: Response::Rejected { rejection } },
                ),
                None => None,
            },
            None => None,
        }
    } else if tag == TAG_CLOSED {
        if body.len() != 1 {
            return None;
        }
        match read_reason(body[0]) {
            Some(reason) => Some(Reply::Response { response: Response::Closed { reason } }),
            None => None,
        }
    } else if tag == TAG_DELIVERY {
        match take_u64(body) {
            Some((offset, after_offset)) => match take_u64(after_offset) {
                Some((timestamp, after_timestamp)) => match take_field(after_timestamp) {
                    Some((key, payload)) => Some(
                        Reply::Delivery {
                            message: Message {
                                offset,
                                key: slice_to_vec(key),
                                payload: slice_to_vec(payload),
                                timestamp,
                            },
                        },
                    ),
                    None => None,
                },
                None => None,
            },
            None => None,
        }
    } else {
        None
    }
}

/// Looks for the next reply in the bytes received from the broker so far,
/// and says how many of them it takes up. Gives `Ok(None)` while the bytes
/// hold no whole frame.
pub fn next_reply(stream: &[u8]) -> (next: Result<Option<(Reply, usize)>, WireError>)
    ensures
        match next {
            Ok(Some((reply, consumed))) => parse_frame(stream@) is Complete && parse_reply(
                parse_frame(stream@)->tag,
                parse_frame(stream@)->body,
            ) == Some(reply@) && consumed == parse_frame(stream@)->consumed,
            Ok(None) => parse_frame(stream@) is Incomplete,
            Err(error) => if parse_frame(stream@) is Violation {
                error == WireError::FramingViolation
            } else {
                &&& error == WireError::MalformedReply
                &&& parse_frame(stream@) is Complete
                &&& parse_reply(parse_frame(stream@)->tag, parse_frame(stream@)->body) is None
            },
        },
{
    match read_frame(stream) {
        Frame::Incomplete => Ok(None),
        Frame::Violation => Err(WireError::FramingViolation),
        Frame::Complete { tag, body, consumed } => match decode_reply(tag, body.as_slice()) {
            Some(reply) => Ok(Some((reply, consumed))),
            None => Err(WireError::MalformedReply),
        },
    }
}

} // verus!
