//! The core of an MQTT 3.1.1 broker: the session table and its coordinator,
//! the per-session subscription table, and the packet-identifier allocator.
//!
//! The core decides and never performs I/O: it is handed parsed events and
//! hands back the messages to deliver, each with the connection it is for.
//!
//! Everything here is verified, on two things taken on trust: the clock in
//! [`clock`], of whose readings nothing is claimed, and `String::push`, with
//! which [`subscription::TopicFilter::parse`] builds the levels of a filter.

use vstd::prelude::*;
use vstd::std_specs::convert::FromSpecImpl;

pub mod broker;
pub mod clock;
pub mod connection;
pub mod error;
pub mod packet_identifiers;
pub mod proto;
pub mod session;
pub mod string_map;
pub mod subscription;

pub use crate::connection::ConnectionHandle;
pub use crate::error::{Error, ErrorKind};

verus! {

/// The identity that a client gives itself when it connects. Two client ids
/// are the same when their text is the same.
#[derive(Debug, Eq, Hash, PartialEq)]
pub struct ClientId(String);

impl View for ClientId {
    type V = Seq<char>;

    closed spec fn view(&self) -> Seq<char> {
        self.0@
    }
}

impl Clone for ClientId {
    fn clone(&self) -> (copy: ClientId)
        ensures
            copy@ == self@,
    {
        ClientId(self.0.clone())
    }
}

impl ClientId {
    /// The client id with the given text.
    pub closed spec fn of(text: String) -> ClientId {
        ClientId(text)
    }

    /// `of` builds the client id whose view is the text it was given.
    pub broadcast proof fn lemma_of_view(text: String)
        ensures
            (#[trigger] ClientId::of(text))@ == text@,
    {
    }

    /// The client id with the given text.
    pub fn new(text: String) -> (id: ClientId)
        ensures
            id@ == text@,
    {
        ClientId(text)
    }

    /// The text of the client id.
    pub fn as_str(&self) -> (text: &str)
        ensures
            text@ == self@,
    {
        self.0.as_str()
    }

    /// The text of the client id, as the string that holds it.
    pub fn as_string(&self) -> (text: &String)
        ensures
            text@ == self@,
    {
        &self.0
    }

    /// Whether both client ids have the same text.
    pub fn same(&self, other: &ClientId) -> (same: bool)
        ensures
            same == (self@ == other@),
    {
        self.0 == other.0
    }
}

impl From<String> for ClientId {
    fn from(text: String) -> (id: ClientId) {
        ClientId(text)
    }
}

impl FromSpecImpl<String> for ClientId {
    open spec fn obeys_from_spec() -> bool {
        true
    }

    open spec fn from_spec(text: String) -> ClientId {
        ClientId::of(text)
    }
}

/// A request to connect: the client id, the CONNECT parameters, and the
/// handle of the connection that the request arrived on.
#[derive(Debug)]
pub struct ConnReq {
    client_id: ClientId,
    connect: proto::Connect,
    handle: ConnectionHandle,
}

/// The mathematical content of a [`ConnReq`].
pub struct ConnReqView {
    pub client_id: Seq<char>,
    pub connect: proto::Connect,
    pub handle: ConnectionHandle,
}

impl View for ConnReq {
    type V = ConnReqView;

    closed spec fn view(&self) -> ConnReqView {
        ConnReqView { client_id: self.client_id@, connect: self.connect, handle: self.handle }
    }
}

impl ConnReq {
    /// The request of `client_id` to connect with `connect`, arrived on the
    /// connection `handle`.
    pub fn new(client_id: ClientId, connect: proto::Connect, handle: ConnectionHandle) -> (req:
        ConnReq)
        ensures
            req@ == (ConnReqView { client_id: client_id@, connect, handle }),
    {
        ConnReq { client_id, connect, handle }
    }

    /// The client that asks to connect.
    pub fn client_id(&self) -> (client_id: &ClientId)
        ensures
            client_id@ == self@.client_id,
    {
        &self.client_id
    }

    /// The CONNECT parameters.
    pub fn connect(&self) -> (connect: &proto::Connect)
        ensures
            *connect == self@.connect,
    {
        &self.connect
    }

    /// The connection that the request arrived on.
    pub fn handle(&self) -> (handle: &ConnectionHandle)
        ensures
            *handle == self@.handle,
    {
        &self.handle
    }

    /// The handle, for changing it in place: the request then carries
    /// whatever the caller leaves in it.
    pub fn handle_mut(&mut self) -> (handle: &mut ConnectionHandle)
        ensures
            *handle == old(self)@.handle,
            final(self)@ == (ConnReqView { handle: *final(handle), ..old(self)@ }),
    {
        &mut self.handle
    }

    /// The connection that the request arrived on, by value.
    pub fn into_handle(self) -> (handle: ConnectionHandle)
        ensures
            handle == self@.handle,
    {
        self.handle
    }
}

/// What happened on a connection, or what is to be written to one.
#[derive(Debug)]
pub enum Event {
    /// Connect request
    ConnReq(ConnReq),
    /// Connect response
    ConnAck(proto::ConnAck),
    /// Graceful disconnect request
    Disconnect(proto::Disconnect),
    /// Non-graceful disconnect request
    DropConnection,
    /// Close session: the connection is already closed but the session needs
    /// clean up
    CloseSession,
    /// Ping request
    PingReq(proto::PingReq),
    /// Ping response
    PingResp(proto::PingResp),
    /// Subscribe request
    Subscribe(proto::Subscribe),
    /// Subscribe response
    SubAck(proto::SubAck),
    /// Unsubscribe request
    Unsubscribe(proto::Unsubscribe),
    /// Unsubscribe response
    UnsubAck(proto::UnsubAck),
    /// Unknown event
    Unknown,
}

/// The mathematical content of an [`Event`].
pub enum EventView {
    ConnReq(ConnReqView),
    ConnAck(proto::ConnAck),
    Disconnect(proto::Disconnect),
    DropConnection,
    CloseSession,
    PingReq(proto::PingReq),
    PingResp(proto::PingResp),
    Subscribe(proto::SubscribeView),
    SubAck(proto::SubAckView),
    Unsubscribe(proto::UnsubscribeView),
    UnsubAck(proto::UnsubAck),
    Unknown,
}

impl View for Event {
    type V = EventView;

    open spec fn view(&self) -> EventView {
        match self {
            Event::ConnReq(req) => EventView::ConnReq(req@),
            Event::ConnAck(ack) => EventView::ConnAck(*ack),
            Event::Disconnect(disconnect) => EventView::Disconnect(*disconnect),
            Event::DropConnection => EventView::DropConnection,
            Event::CloseSession => EventView::CloseSession,
            Event::PingReq(ping) => EventView::PingReq(*ping),
            Event::PingResp(ping) => EventView::PingResp(*ping),
            Event::Subscribe(subscribe) => EventView::Subscribe(subscribe@),
            Event::SubAck(ack) => EventView::SubAck(ack@),
            Event::Unsubscribe(unsubscribe) => EventView::Unsubscribe(unsubscribe@),
            Event::UnsubAck(ack) => EventView::UnsubAck(*ack),
            Event::Unknown => EventView::Unknown,
        }
    }
}

/// The unit exchanged with connections: an event and the client it concerns.
#[derive(Debug)]
pub struct Message {
    client_id: ClientId,
    event: Event,
}

/// The mathematical content of a [`Message`].
pub struct MessageView {
    pub client_id: Seq<char>,
    pub event: EventView,
}

impl View for Message {
    type V = MessageView;

    closed spec fn view(&self) -> MessageView {
        MessageView { client_id: self.client_id@, event: self.event@ }
    }
}

impl Message {
    /// The message that carries `event` about the client `client_id`.
    pub fn new(client_id: ClientId, event: Event) -> (message: Message)
        ensures
            message@ == (MessageView { client_id: client_id@, event: event@ }),
    {
        Message { client_id, event }
    }

    /// The client that the message is about.
    pub fn client_id(&self) -> (client_id: &ClientId)
        ensures
            client_id@ == self@.client_id,
    {
        &self.client_id
    }

    /// The event.
    pub fn event(&self) -> (event: &Event)
        ensures
            event@ == self@.event,
    {
        &self.event
    }

    /// The event, by value.
    pub fn into_event(self) -> (event: Event)
        ensures
            event@ == self@.event,
    {
        self.event
    }

    /// The client id and the event, both by value.
    pub fn into_parts(self) -> (parts: (ClientId, Event))
        ensures
            parts.0@ == self@.client_id,
            parts.1@ == self@.event,
    {
        (self.client_id, self.event)
    }
}

/// A message to deliver, with the connection to write it to.
#[derive(Debug)]
pub struct Delivery {
    handle: ConnectionHandle,
    message: Message,
}

/// The mathematical content of a [`Delivery`].
pub struct DeliveryView {
    pub handle: ConnectionHandle,
    pub message: MessageView,
}

impl View for Delivery {
    type V = DeliveryView;

    closed spec fn view(&self) -> DeliveryView {
        DeliveryView { handle: self.handle, message: self.message@ }
    }
}

impl Delivery {
    /// The delivery of `message` to the connection named by `handle`.
    pub fn new(handle: ConnectionHandle, message: Message) -> (delivery: Delivery)
        ensures
            delivery@ == (DeliveryView { handle, message: message@ }),
    {
        Delivery { handle, message }
    }

    /// The connection to write to.
    pub fn handle(&self) -> (handle: &ConnectionHandle)
        ensures
            *handle == self@.handle,
    {
        &self.handle
    }

    /// The message to write.
    pub fn message(&self) -> (message: &Message)
        ensures
            message@ == self@.message,
    {
        &self.message
    }

    /// The connection and the message, both by value.
    pub fn into_parts(self) -> (parts: (ConnectionHandle, Message))
        ensures
            parts.0 == self@.handle,
            parts.1@ == self@.message,
    {
        (self.handle, self.message)
    }
}

} // verus!
