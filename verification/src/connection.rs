//! The protocol handler of one connection: an explicit state machine that
//! takes the events of the connection one at a time, acts on the broker, and
//! says what to answer.
//!
//! A connection starts `Connected`, becomes `Identified` when the peer
//! declares its role, `Active` with the first operation of that role that
//! succeeds, and `Closed` when the peer leaves, breaks the framing, or fails
//! to identify itself within the grace period. A phase is never gone back to,
//! and `Closed` is final. Closing releases the connection's subscription.

use crate::broker::{Broker, BrokerError, BrokerView};
use crate::message::Message;
use crate::registry::lemma_unsubscribe_well_formed;
use crate::subscriber::SubscriberHandle;
use vstd::prelude::*;

verus! {

/// What a peer connected to do.
#[derive(Clone, Copy, Debug, PartialEq, Eq, Structural)]
pub enum Role {
    Producer,
    Consumer,
}

/// Where a connection stands in its life.
#[derive(Clone, Copy, Debug, PartialEq, Eq, Structural)]
pub enum Phase {
    /// Accepted; the peer has not said what it is.
    Connected,
    /// The role is known; no operation has succeeded yet.
    Identified,
    /// At least one operation of the role has succeeded.
    Active,
    /// Over. Nothing is accepted any more.
    Closed,
}

/// A request that breaks the protocol. It is reported to the peer and the
/// connection stays open.
#[derive(Clone, Copy, Debug, PartialEq, Eq, Structural)]
pub enum ProtocolError {
    /// The connection is closed.
    ConnectionClosed,
    /// The peer has not declared its role yet.
    NotIdentified,
    /// The peer has declared its role before.
    AlreadyIdentified,
    /// The request belongs to the other role.
    RoleViolation,
    /// The connection holds a subscription already.
    AlreadySubscribed,
    /// The connection holds no subscription to that topic.
    NotSubscribed,
    /// The request was framed correctly but could not be understood.
    Malformed,
}

/// Why a request was refused.
#[derive(Clone, Copy, Debug, PartialEq, Eq, Structural)]
pub enum Rejection {
    Protocol(ProtocolError),
    Broker(BrokerError),
}

/// Why a connection was closed.
#[derive(Clone, Copy, Debug, PartialEq, Eq, Structural)]
pub enum CloseReason {
    /// Protocol error: no role was declared within the grace period.
    GraceExpired,
    /// Protocol error: the byte stream no longer frames requests.
    FramingViolation,
    /// The peer went away.
    PeerDisconnected,
}

/// What the handler answers to an event.
#[derive(Clone, Copy, Debug, PartialEq, Eq, Structural)]
pub enum Response {
    /// The role was taken note of.
    Identified { role: Role },
    /// The message was appended at `offset`.
    Published { offset: u64 },
    /// The subscription is registered under `handle`.
    Subscribed { handle: SubscriberHandle },
    /// Deliveries may be taken from now on.
    Consuming,
    /// The subscription is released.
    Unsubscribed,
    /// The request was refused; the connection stays open.
    Rejected { rejection: Rejection },
    /// The connection is closed now.
    Closed { reason: CloseReason },
    /// The event called for nothing.
    Ignored,
}

/// A request of a peer.
#[derive(Debug)]
pub enum Request {
    Identify { role: Role },
    Publish { topic: String, payload: Vec<u8>, key: Vec<u8> },
    Subscribe { topic: String },
    Consume { topic: String },
    Unsubscribe { topic: String },
}

/// Something that happened on a connection.
#[derive(Debug)]
pub enum Event {
    /// A well-framed request arrived.
    Request { request: Request },
    /// A well-framed request arrived that could not be understood.
    Malformed,
    /// The byte stream stopped making sense.
    FramingError,
    /// Time has passed.
    Tick,
    /// The peer closed the connection.
    Disconnected,
}

/// Mathematical model of a [`Request`].
pub enum RequestView {
    Identify { role: Role },
    Publish { topic: Seq<char>, payload: Seq<u8>, key: Seq<u8> },
    Subscribe { topic: Seq<char> },
    Consume { topic: Seq<char> },
    Unsubscribe { topic: Seq<char> },
}

/// Mathematical model of an [`Event`].
pub enum EventView {
    Request { request: RequestView },
    Malformed,
    FramingError,
    Tick,
    Disconnected,
}

impl View for Request {
    type V = RequestView;

    open spec fn view(&self) -> RequestView {
        match self {
            Request::Identify { role } => RequestView::Identify { role: *role },
            Request::Publish { topic, payload, key } => RequestView::Publish {
                topic: topic@,
                payload: payload@,
                key: key@,
            },
            Request::Subscribe { topic } => RequestView::Subscribe { topic: topic@ },
            Request::Consume { topic } => RequestView::Consume { topic: topic@ },
            Request::Unsubscribe { topic } => RequestView::Unsubscribe { topic: topic@ },
        }
    }
}

impl View for Event {
    type V = EventView;

    open spec fn view(&self) -> EventView {
        match self {
            Event::Request { request } => EventView::Request { request: request@ },
            Event::Malformed => EventView::Malformed,
            Event::FramingError => EventView::FramingError,
            Event::Tick => EventView::Tick,
            Event::Disconnected => EventView::Disconnected,
        }
    }
}

/// Mathematical model of the subscription a consumer connection holds.
pub struct SubscriptionView {
    pub topic: Seq<char>,
    pub handle: SubscriberHandle,
    /// Whether the peer has asked for the deliveries.
    pub consuming: bool,
}

/// Mathematical model of a connection.
pub struct ConnectionView {
    pub phase: Phase,
    pub role: Option<Role>,
    pub subscription: Option<SubscriptionView>,
    /// When the connection was accepted, in milliseconds.
    pub connected_at: nat,
    /// How long the peer has to declare its role, in milliseconds.
    pub grace_period: nat,
}

/// What an event that does not concern the broker leads to: the connection
/// after it, and the answer.
pub struct Reaction {
    pub connection: ConnectionView,
    pub response: Response,
}

/// What an event leads to: the connection and the broker after it, and the
/// answer.
pub struct Outcome {
    pub connection: ConnectionView,
    pub broker: BrokerView,
    pub response: Response,
}

impl Reaction {
    /// The outcome for a broker that the event left alone.
    pub open spec fn with(self, broker: BrokerView) -> Outcome {
        Outcome { connection: self.connection, broker, response: self.response }
    }
}

/// The rank of a phase in the life of a connection.
pub open spec fn phase_rank(phase: Phase) -> nat {
    match phase {
        Phase::Connected => 0,
        Phase::Identified => 1,
        Phase::Active => 2,
        Phase::Closed => 3,
    }
}

impl ConnectionView {
    /// A connection just accepted.
    pub open spec fn accepted(connected_at: nat, grace_period: nat) -> ConnectionView {
        ConnectionView {
            phase: Phase::Connected,
            role: None,
            subscription: None,
            connected_at,
            grace_period,
        }
    }

    /// The role is known exactly from `Identified` on, only a consumer holds
    /// a subscription, and a closed connection holds none.
    pub open spec fn well_formed(self) -> bool {
        match self.phase {
            Phase::Connected => self.role is None && self.subscription is None,
            Phase::Identified => self.role is Some && self.subscription is None,
            Phase::Active => self.role is Some && (self.subscription is Some ==> self.role == Some(
                Role::Consumer,
            )),
            Phase::Closed => self.subscription is None,
        }
    }

    /// Whether the grace period for declaring a role has run out at `now`.
    pub open spec fn grace_expired(self, now: nat) -> bool {
        self.phase == Phase::Connected && now - self.connected_at > self.grace_period
    }

    /// Why a request of the given role cannot even be looked at, if so.
    pub open spec fn gate(self, needed: Role) -> Option<ProtocolError> {
        if self.phase == Phase::Closed {
            Some(ProtocolError::ConnectionClosed)
        } else if self.role is None {
            Some(ProtocolError::NotIdentified)
        } else if self.role != Some(needed) {
            Some(ProtocolError::RoleViolation)
        } else {
            None
        }
    }

    /// A protocol error is reported and the connection stays as it is.
    pub open spec fn refuse(self, error: ProtocolError) -> Reaction {
        Reaction {
            connection: self,
            response: Response::Rejected { rejection: Rejection::Protocol(error) },
        }
    }

    /// A protocol error is reported and nothing changes.
    pub open spec fn reject(self, broker: BrokerView, error: ProtocolError) -> Outcome {
        self.refuse(error).with(broker)
    }

    /// The peer declares its role: accepted once, straight after connecting.
    pub open spec fn identify(self, role: Role) -> Reaction {
        if self.phase == Phase::Closed {
            self.refuse(ProtocolError::ConnectionClosed)
        } else if self.phase == Phase::Connected {
            Reaction {
                connection: ConnectionView { phase: Phase::Identified, role: Some(role), ..self },
                response: Response::Identified { role },
            }
        } else {
            self.refuse(ProtocolError::AlreadyIdentified)
        }
    }

    /// A producer publishes: the broker's publish decides, and its refusal is
    /// reported without closing the connection.
    pub open spec fn publish(
        self,
        broker: BrokerView,
        topic: Seq<char>,
        payload: Seq<u8>,
        key: Seq<u8>,
        now: nat,
    ) -> Outcome {
        match self.gate(Role::Producer) {
            Some(error) => self.reject(broker, error),
            None => if broker.accepts(topic, key, payload) {
                Outcome {
                    connection: ConnectionView { phase: Phase::Active, ..self },
                    broker: broker.publish(topic, key, payload, now),
                    response: Response::Published { offset: broker.next_offset(topic) as u64 },
                }
            } else {
                Outcome {
                    connection: self,
                    broker: broker.ensure_topic(topic),
                    response: Response::Rejected {
                        rejection: Rejection::Broker(broker.refusal(topic, key)),
                    },
                }
            },
        }
    }

    /// A consumer subscribes: accepted while it holds no subscription.
    pub open spec fn subscribe(self, broker: BrokerView, topic: Seq<char>) -> Outcome {
        match self.gate(Role::Consumer) {
            Some(error) => self.reject(broker, error),
            None => if self.subscription is Some {
                self.reject(broker, ProtocolError::AlreadySubscribed)
            } else if broker.registry.next_handle < u64::MAX {
                let handle = broker.registry.next_handle as SubscriberHandle;
                Outcome {
                    connection: ConnectionView {
                        phase: Phase::Active,
                        subscription: Some(SubscriptionView { topic, handle, consuming: false }),
                        ..self
                    },
                    broker: broker.subscribe(topic),
                    response: Response::Subscribed { handle },
                }
            } else {
                Outcome {
                    connection: self,
                    broker,
                    response: Response::Rejected {
                        rejection: Rejection::Broker(BrokerError::SubscriptionsExhausted),
                    },
                }
            },
        }
    }

    /// Whether the connection holds a subscription to `topic`.
    pub open spec fn subscribed_to(self, topic: Seq<char>) -> bool {
        self.subscription is Some && self.subscription->0.topic == topic
    }

    /// A consumer asks for the deliveries of the topic it is subscribed to.
    pub open spec fn consume(self, topic: Seq<char>) -> Reaction {
        match self.gate(Role::Consumer) {
            Some(error) => self.refuse(error),
            None => if self.subscribed_to(topic) {
                Reaction {
                    connection: ConnectionView {
                        subscription: Some(
                            SubscriptionView { consuming: true, ..self.subscription->0 },
                        ),
                        ..self
                    },
                    response: Response::Consuming,
                }
            } else {
                self.refuse(ProtocolError::NotSubscribed)
            },
        }
    }

    /// A consumer gives up the subscription to the topic it is subscribed to.
    pub open spec fn unsubscribe(self, broker: BrokerView, topic: Seq<char>) -> Outcome {
        match self.gate(Role::Consumer) {
            Some(error) => self.reject(broker, error),
            None => if self.subscribed_to(topic) {
                Outcome {
                    connection: ConnectionView { subscription: None, ..self },
                    broker: broker.unsubscribe(self.subscription->0.handle),
                    response: Response::Unsubscribed,
                }
            } else {
                self.reject(broker, ProtocolError::NotSubscribed)
            },
        }
    }

    /// What a request leads to.
    pub open spec fn request(self, broker: BrokerView, request: RequestView, now: nat) -> Outcome {
        match request {
            RequestView::Identify { role } => self.identify(role).with(broker),
            RequestView::Publish { topic, payload, key } => self.publish(
                broker,
                topic,
                payload,
                key,
                now,
            ),
            RequestView::Subscribe { topic } => self.subscribe(broker, topic),
            RequestView::Consume { topic } => self.consume(topic).with(broker),
            RequestView::Unsubscribe { topic } => self.unsubscribe(broker, topic),
        }
    }

    /// A request that could not be understood is reported; nothing changes.
    pub open spec fn malformed(self) -> Reaction {
        if self.phase == Phase::Closed {
            self.refuse(ProtocolError::ConnectionClosed)
        } else {
            self.refuse(ProtocolError::Malformed)
        }
    }

    /// The connection is closed and its subscription, if it holds one, is
    /// released. Closing a closed connection does nothing.
    pub open spec fn close(self, broker: BrokerView, reason: CloseReason) -> Outcome {
        if self.phase == Phase::Closed {
            Outcome { connection: self, broker, response: Response::Ignored }
        } else {
            Outcome {
                connection: ConnectionView { phase: Phase::Closed, subscription: None, ..self },
                broker: match self.subscription {
                    Some(subscription) => broker.unsubscribe(subscription.handle),
                    None => broker,
                },
                response: Response::Closed { reason },
            }
        }
    }

    /// Time has passed: a connection that has not declared its role within
    /// the grace period is closed.
    pub open spec fn tick(self, broker: BrokerView, now: nat) -> Outcome {
        if self.grace_expired(now) {
            self.close(broker, CloseReason::GraceExpired)
        } else {
            Outcome { connection: self, broker, response: Response::Ignored }
        }
    }

    /// What an event at time `now` leads to.
    pub open spec fn step(self, broker: BrokerView, event: EventView, now: nat) -> Outcome {
        match event {
            EventView::Request { request } => self.request(broker, request, now),
            EventView::Malformed => self.malformed().with(broker),
            EventView::FramingError => self.close(broker, CloseReason::FramingViolation),
            EventView::Tick => self.tick(broker, now),
            EventView::Disconnected => self.close(broker, CloseReason::PeerDisconnected),
        }
    }

    /// Whether deliveries may be taken: the connection is an active consumer
    /// that has asked for them.
    pub open spec fn streaming(self) -> bool {
        self.phase == Phase::Active && self.subscription is Some && self.subscription->0.consuming
    }
}

/// Whatever the event, a well-formed connection stays well formed, its phase
/// never goes back, the times it was made with stay, and a declared role is
/// never changed.
pub proof fn lemma_step_advances(
    connection: ConnectionView,
    broker: BrokerView,
    event: EventView,
    now: nat,
)
    requires
        connection.well_formed(),
    ensures
        connection.step(broker, event, now).connection.well_formed(),
        phase_rank(connection.phase) <= phase_rank(
            connection.step(broker, event, now).connection.phase,
        ),
        connection.step(broker, event, now).connection.connected_at == connection.connected_at,
        connection.step(broker, event, now).connection.grace_period == connection.grace_period,
        connection.role is Some ==> connection.step(broker, event, now).connection.role
            == connection.role,
{
}

/// `Closed` is final: a closed connection takes no event, changes nothing in
/// the broker, and answers a request with `ConnectionClosed`.
pub proof fn lemma_closed_is_final(
    connection: ConnectionView,
    broker: BrokerView,
    event: EventView,
    now: nat,
)
    requires
        connection.phase == Phase::Closed,
    ensures
        connection.step(broker, event, now).connection == connection,
        connection.step(broker, event, now).broker == broker,
        connection.step(broker, event, now).response == match event {
            EventView::Request { .. } | EventView::Malformed => Response::Rejected {
                rejection: Rejection::Protocol(ProtocolError::ConnectionClosed),
            },
            _ => Response::Ignored,
        },
{
}

/// Closing leaks nothing: after a disconnect, a framing violation, or an
/// expired grace period the connection holds no subscription, and the handle
/// it held is unknown to the broker, whose live subscriptions are one fewer.
pub proof fn lemma_close_releases_subscription(
    connection: ConnectionView,
    broker: BrokerView,
    reason: CloseReason,
)
    requires
        connection.well_formed(),
        broker.well_formed(),
        connection.phase != Phase::Closed,
    ensures
        connection.close(broker, reason).connection.phase == Phase::Closed,
        connection.close(broker, reason).connection.subscription is None,
        connection.close(broker, reason).broker.well_formed(),
        connection.subscription is Some ==> !connection.close(
            broker,
            reason,
        ).broker.registry.subscribers.contains_key(connection.subscription->0.handle),
        connection.subscription is Some && broker.registry.subscribers.contains_key(
            connection.subscription->0.handle,
        ) ==> connection.close(broker, reason).broker.registry.subscribers.dom().len()
            == broker.registry.subscribers.dom().len() - 1,
        connection.subscription is None ==> connection.close(broker, reason).broker == broker,
{
    if connection.subscription is Some {
        lemma_unsubscribe_well_formed(broker.registry, connection.subscription->0.handle);
    }
}

struct Subscription {
    topic: String,
    handle: SubscriberHandle,
    consuming: bool,
}

impl View for Subscription {
    type V = SubscriptionView;

    closed spec fn view(&self) -> SubscriptionView {
        SubscriptionView { topic: self.topic@, handle: self.handle, consuming: self.consuming }
    }
}

/// The handler of one connection.
pub struct Connection {
    phase: Phase,
    role: Option<Role>,
    subscription: Option<Subscription>,
    connected_at: u64,
    grace_period: u64,
}

impl View for Connection {
    type V = ConnectionView;

    closed spec fn view(&self) -> ConnectionView {
        ConnectionView {
            phase: self.phase,
            role: self.role,
            subscription: match self.subscription {
                Some(subscription) => Some(subscription@),
                None => None,
            },
            connected_at: self.connected_at as nat,
            grace_period: self.grace_period as nat,
        }
    }
}

impl Connection {
    /// The invariant of a connection.
    pub open spec fn wf(&self) -> bool {
        self@.well_formed()
    }

    /// The handler of a connection accepted at `connected_at`, whose peer has
    /// `grace_period` milliseconds to declare its role.
    pub fn new(connected_at: u64, grace_period: u64) -> (connection: Connection)
        ensures
            connection.wf(),
            connection@ == ConnectionView::accepted(connected_at as nat, grace_period as nat),
    {
        Connection {
            phase: Phase::Connected,
            role: None,
            subscription: None,
            connected_at,
            grace_period,
        }
    }

    /// Where the connection stands.
    pub fn phase(&self) -> (phase: Phase)
        ensures
            phase == self@.phase,
    {
        self.phase
    }

    /// The role the peer declared, if it has.
    pub fn role(&self) -> (role: Option<Role>)
        ensures
            role == self@.role,
    {
        self.role
    }

    /// Whether the connection is over.
    pub fn is_closed(&self) -> (closed: bool)
        ensures
            closed == (self@.phase == Phase::Closed),
    {
        match self.phase {
            Phase::Closed => true,
            _ => false,
        }
    }

    /// The handle of the subscription the connection holds, if it holds one.
    pub fn subscription_handle(&self) -> (handle: Option<SubscriberHandle>)
        ensures
            match handle {
                Some(h) => self@.subscription is Some && self@.subscription->0.handle == h,
                None => self@.subscription is None,
            },
    {
        match &self.subscription {
            Some(subscription) => Some(subscription.handle),
            None => None,
        }
    }

    /// Whether deliveries may be taken.
    pub fn is_streaming(&self) -> (streaming: bool)
        ensures
            streaming == self@.streaming(),
    {
        match self.phase {
            Phase::Active => match &self.subscription {
                Some(subscription) => subscription.consuming,
                None => false,
            },
            _ => false,
        }
    }

    fn gate(&self, needed: Role) -> (refusal: Option<ProtocolError>)
        ensures
            refusal == self@.gate(needed),
    {
        match self.phase {
            Phase::Closed => Some(ProtocolError::ConnectionClosed),
            _ => match self.role {
                None => Some(ProtocolError::NotIdentified),
                Some(role) => if role == needed {
                    None
                } else {
                    Some(ProtocolError::RoleViolation)
                },
            },
        }
    }

    fn reject(error: ProtocolError) -> (response: Response)
        ensures
            response == (Response::Rejected { rejection: Rejection::Protocol(error) }),
    {
        Response::Rejected { rejection: Rejection::Protocol(error) }
    }

    fn subscribed_to(&self, topic: &String) -> (held: bool)
        ensures
            held == self@.subscribed_to(topic@),
    {
        match &self.subscription {
            Some(subscription) => subscription.topic == *topic,
            None => false,
        }
    }

    /// Takes note of the role the peer declares.
    pub fn identify(&mut self, role: Role) -> (response: Response)
        requires
            old(self).wf(),
        ensures
            final(self).wf(),
            final(self)@ == old(self)@.identify(role).connection,
            response == old(self)@.identify(role).response,
    {
        match self.phase {
            Phase::Closed => Connection::reject(ProtocolError::ConnectionClosed),
            Phase::Connected => {
                self.phase = Phase::Identified;
                self.role = Some(role);
                Response::Identified { role }
            },
            _ => Connection::reject(ProtocolError::AlreadyIdentified),
        }
    }

    /// Reports a request that could not be understood.
    pub fn malformed(&self) -> (response: Response)
        ensures
            response == self@.malformed().response,
    {
        match self.phase {
            Phase::Closed => Connection::reject(ProtocolError::ConnectionClosed),
            _ => Connection::reject(ProtocolError::Malformed),
        }
    }

    /// Publishes for a producer.
    pub fn publish(
        &mut self,
        broker: &mut Broker,
        topic: &str,
        payload: Vec<u8>,
        key: Vec<u8>,
        now: u64,
    ) -> (response: Response)
        requires
            old(self).wf(),
            old(broker).wf(),
        ensures
            final(self).wf(),
            final(broker).wf(),
            final(self)@ == old(self)@.publish(
                old(broker)@,
                topic@,
                payload@,
                key@,
                now as nat,
            ).connection,
            final(broker)@ == old(self)@.publish(
                old(broker)@,
                topic@,
                payload@,
                key@,
                now as nat,
            ).broker,
            response == old(self)@.publish(
                old(broker)@,
                topic@,
                payload@,
                key@,
                now as nat,
            ).response,
    {
        match self.gate(Role::Producer) {
            Some(error) => Connection::reject(error),
            None => match broker.publish(topic, payload, key, now) {
                Ok(offset) => {
                    self.phase = Phase::Active;
                    Response::Published { offset }
                },
                Err(error) => Response::Rejected { rejection: Rejection::Broker(error) },
            },
        }
    }

    /// Subscribes for a consumer.
    pub fn subscribe(&mut self, broker: &mut Broker, topic: String) -> (response: Response)
        requires
            old(self).wf(),
            old(broker).wf(),
        ensures
            final(self).wf(),
            final(broker).wf(),
            final(self)@ == old(self)@.subscribe(old(broker)@, topic@).connection,
            final(broker)@ == old(self)@.subscribe(old(broker)@, topic@).broker,
            response == old(self)@.subscribe(old(broker)@, topic@).response,
    {
        match self.gate(Role::Consumer) {
            Some(error) => Connection::reject(error),
            None => {
                if self.subscription.is_some() {
                    return Connection::reject(ProtocolError::AlreadySubscribed);
                }
                match broker.subscribe(topic.as_str()) {
                    Ok(handle) => {
                        self.phase = Phase::Active;
                        self.subscription = Some(Subscription { topic, handle, consuming: false });
                        Response::Subscribed { handle }
                    },
                    Err(error) => Response::Rejected { rejection: Rejection::Broker(error) },
                }
            },
        }
    }

    /// Opens the stream of deliveries for a consumer.
    pub fn consume(&mut self, topic: String) -> (response: Response)
        requires
            old(self).wf(),
        ensures
            final(self).wf(),
            final(self)@ == old(self)@.consume(topic@).connection,
            response == old(self)@.consume(topic@).response,
    {
        match self.gate(Role::Consumer) {
            Some(error) => Connection::reject(error),
            None => {
                if !self.subscribed_to(&topic) {
                    return Connection::reject(ProtocolError::NotSubscribed);
                }
                let handle = match &self.subscription {
                    Some(subscription) => subscription.handle,
                    None => 0,
                };
                self.subscription = Some(Subscription { topic, handle, consuming: true });
                Response::Consuming
            },
        }
    }

    /// Releases the subscription of a consumer.
    pub fn unsubscribe(&mut self, broker: &mut Broker, topic: String) -> (response: Response)
        requires
            old(self).wf(),
            old(broker).wf(),
        ensures
            final(self).wf(),
            final(broker).wf(),
            final(self)@ == old(self)@.unsubscribe(old(broker)@, topic@).connection,
            final(broker)@ == old(self)@.unsubscribe(old(broker)@, topic@).broker,
            response == old(self)@.unsubscribe(old(broker)@, topic@).response,
    {
        match self.gate(Role::Consumer) {
            Some(error) => Connection::reject(error),
            None => {
                if !self.subscribed_to(&topic) {
                    return Connection::reject(ProtocolError::NotSubscribed);
                }
                let handle = match &self.subscription {
                    Some(subscription) => subscription.handle,
                    None => 0,
                };
                let _ = broker.unsubscribe(handle);
                self.subscription = None;
                Response::Unsubscribed
            },
        }
    }

    /// Closes the connection and releases its subscription, if it holds one.
    pub fn close(&mut self, broker: &mut Broker, reason: CloseReason) -> (response: Response)
        requires
            old(self).wf(),
            old(broker).wf(),
        ensures
            final(self).wf(),
            final(broker).wf(),
            final(self)@ == old(self)@.close(old(broker)@, reason).connection,
            final(broker)@ == old(self)@.close(old(broker)@, reason).broker,
            response == old(self)@.close(old(broker)@, reason).response,
    {
        match self.phase {
            Phase::Closed => Response::Ignored,
            _ => {
                match &self.subscription {
                    Some(subscription) => {
                        let _ = broker.unsubscribe(subscription.handle);
                    },
                    None => {},
                }
                self.subscription = None;
                self.phase = Phase::Closed;
                Response::Closed { reason }
            },
        }
    }

    /// Lets time pass: closes the connection when the peer has not declared
    /// its role within the grace period.
    pub fn tick(&mut self, broker: &mut Broker, now: u64) -> (response: Response)
        requires
            old(self).wf(),
            old(broker).wf(),
        ensures
            final(self).wf(),
            final(broker).wf(),
            final(self)@ == old(self)@.tick(old(broker)@, now as nat).connection,
            final(broker)@ == old(self)@.tick(old(broker)@, now as nat).broker,
            response == old(self)@.tick(old(broker)@, now as nat).response,
    {
        let waiting = match self.phase {
            Phase::Connected => true,
            _ => false,
        };
        if waiting && now > self.connected_at && now - self.connected_at > self.grace_period {
            self.close(broker, CloseReason::GraceExpired)
        } else {
            Response::Ignored
        }
    }

    /// Handles one event of the connection at time `now` and says what to
    /// answer. This is the whole protocol: the state after the event, what it
    /// does to the broker, and the answer are those of
    /// [`ConnectionView::step`].
    pub fn handle(&mut self, broker: &mut Broker, event: Event, now: u64) -> (response: Response)
        requires
            old(self).wf(),
            old(broker).wf(),
        ensures
            final(self).wf(),
            final(broker).wf(),
            final(self)@ == old(self)@.step(old(broker)@, event@, now as nat).connection,
            final(broker)@ == old(self)@.step(old(broker)@, event@, now as nat).broker,
            response == old(self)@.step(old(broker)@, event@, now as nat).response,
    {
        match event {
            Event::Request { request } => match request {
                Request::Identify { role } => self.identify(role),
                Request::Publish { topic, payload, key } => self.publish(
                    broker,
                    topic.as_str(),
                    payload,
                    key,
                    now,
                ),
                Request::Subscribe { topic } => self.subscribe(broker, topic),
                Request::Consume { topic } => self.consume(topic),
                Request::Unsubscribe { topic } => self.unsubscribe(broker, topic),
            },
            Event::Malformed => self.malformed(),
            Event::FramingError => self.close(broker, CloseReason::FramingViolation),
            Event::Tick => self.tick(broker, now),
            Event::Disconnected => self.close(broker, CloseReason::PeerDisconnected),
        }
    }

    /// Takes the next delivery for a streaming consumer: the oldest message
    /// waiting in its subscription's queue. Gives `None`, and changes
    /// nothing, when the connection is not streaming or nothing is waiting.
    pub fn next_delivery(&self, broker: &mut Broker) -> (next: Option<Message>)
        requires
            self.wf(),
            old(broker).wf(),
        ensures
            final(broker).wf(),
            final(broker)@ == if self@.streaming() {
                old(broker)@.take(self@.subscription->0.handle)
            } else {
                old(broker)@
            },
            match next {
                Some(message) => {
                    let handle = self@.subscription->0.handle;
                    &&& self@.streaming()
                    &&& old(broker)@.registry.subscribers.contains_key(handle)
                    &&& old(broker)@.registry.subscribers[handle].queue.len() > 0
                    &&& message@ == old(broker)@.registry.subscribers[handle].queue[0]
                },
                None => {
                    let handle = self@.subscription->0.handle;
                    ||| !self@.streaming()
                    ||| !old(broker)@.registry.subscribers.contains_key(handle)
                    ||| old(broker)@.registry.subscribers[handle].queue.len() == 0
                },
            },
    {
        if !self.is_streaming() {
            return None;
        }
        match &self.subscription {
            Some(subscription) => broker.poll(subscription.handle),
            None => None,
        }
    }
}

} // verus!
