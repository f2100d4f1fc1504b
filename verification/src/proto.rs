//! The parsed MQTT 3.1.1 control packets that the broker core works on.

use std::time::Duration;
use vstd::prelude::*;

verus! {

/// Quality of service requested for, or granted to, a subscription.
#[derive(Clone, Copy, Debug, PartialEq, Eq, Structural, Hash)]
pub enum QoS {
    AtMostOnce,
    AtLeastOnce,
    ExactlyOnce,
}

/// A packet identifier: a 16-bit value that is never 0.
#[derive(Clone, Copy, Debug, PartialEq, Eq, Structural, Hash)]
pub struct PacketIdentifier(u16);

/// The identifier that follows `v`: one more, and 1 after 65535.
pub open spec fn successor(v: u16) -> u16 {
    if v == u16::MAX {
        1u16
    } else {
        (v + 1) as u16
    }
}

impl View for PacketIdentifier {
    type V = u16;

    closed spec fn view(&self) -> u16 {
        self.0
    }
}

impl PacketIdentifier {
    #[verifier::type_invariant]
    spec fn never_zero(self) -> bool {
        self.0 != 0
    }

    /// The identifier with the given value; there is none for 0.
    pub fn new(value: u16) -> (id: Option<PacketIdentifier>)
        ensures
            id is Some <==> value != 0,
            id matches Some(p) ==> p@ == value,
    {
        if value == 0 {
            None
        } else {
            Some(PacketIdentifier(value))
        }
    }

    /// The largest identifier, 65535.
    pub fn max_value() -> (id: PacketIdentifier)
        ensures
            id@ == u16::MAX,
    {
        PacketIdentifier(u16::MAX)
    }

    /// The value of the identifier, which lies in `1..=65535`.
    pub fn get(&self) -> (value: u16)
        ensures
            value == self@,
            value != 0,
    {
        proof {
            use_type_invariant(self);
        }
        self.0
    }

    /// The identifier after this one, wrapping from 65535 to 1 and so never
    /// passing through 0.
    pub fn next(&self) -> (id: PacketIdentifier)
        ensures
            id@ == successor(self@),
            id@ != 0,
    {
        if self.0 == u16::MAX {
            PacketIdentifier(1)
        } else {
            PacketIdentifier(self.0 + 1)
        }
    }
}

/// The client identifier part of a CONNECT packet together with its
/// clean-session flag.
#[derive(Clone, Debug, PartialEq, Eq)]
pub enum ClientId {
    /// The client sent no identifier and asked for a clean session.
    ServerGenerated,
    /// The client sent an identifier and asked for a clean session.
    IdWithCleanSession(String),
    /// The client sent an identifier and asked to resume its session.
    IdWithExistingSession(String),
}

/// An application message, as carried by a will.
#[derive(Clone, Debug, PartialEq, Eq)]
pub struct Publication {
    pub topic_name: String,
    pub qos: QoS,
    pub retain: bool,
    pub payload: Vec<u8>,
}

/// CONNECT: the parameters with which a client opens a connection.
#[derive(Debug, PartialEq, Eq)]
pub struct Connect {
    pub username: Option<String>,
    pub password: Option<String>,
    pub will: Option<Publication>,
    pub client_id: ClientId,
    pub keep_alive: Duration,
    pub protocol_name: String,
    pub protocol_level: u8,
}

impl Connect {
    /// Whether the client asked for a session that does not outlive the
    /// connection.
    pub open spec fn spec_clean_session(&self) -> bool {
        !(self.client_id is IdWithExistingSession)
    }

    /// Whether the client asked for a session that does not outlive the
    /// connection.
    #[verifier::when_used_as_spec(spec_clean_session)]
    pub fn clean_session(&self) -> (clean: bool)
        ensures
            clean == self.spec_clean_session(),
    {
        match &self.client_id {
            ClientId::IdWithExistingSession(_) => false,
            _ => true,
        }
    }
}

/// Why a connection was refused.
#[derive(Clone, Copy, Debug, PartialEq, Eq, Structural, Hash)]
pub enum ConnectionRefusedReason {
    UnacceptableProtocolVersion,
    IdentifierRejected,
    ServerUnavailable,
    BadUserNameOrPassword,
    NotAuthorized,
}

/// The return code of a CONNACK packet.
#[derive(Clone, Copy, Debug, PartialEq, Eq, Structural, Hash)]
pub enum ConnectReturnCode {
    Accepted,
    Refused(ConnectionRefusedReason),
}

/// CONNACK: the answer to a CONNECT.
#[derive(Clone, Copy, Debug, PartialEq, Eq, Structural, Hash)]
pub struct ConnAck {
    pub session_present: bool,
    pub return_code: ConnectReturnCode,
}

/// DISCONNECT.
#[derive(Clone, Copy, Debug, PartialEq, Eq, Structural, Hash)]
pub struct Disconnect;

/// PINGREQ.
#[derive(Clone, Copy, Debug, PartialEq, Eq, Structural, Hash)]
pub struct PingReq;

/// PINGRESP.
#[derive(Clone, Copy, Debug, PartialEq, Eq, Structural, Hash)]
pub struct PingResp;

/// One entry of a SUBSCRIBE packet: a topic filter, not yet parsed, and the
/// highest quality of service the client wants on it.
#[derive(Clone, Debug, PartialEq, Eq)]
pub struct SubscribeTo {
    pub topic_filter: String,
    pub qos: QoS,
}

/// The mathematical content of a [`SubscribeTo`].
pub struct SubscribeToView {
    pub topic_filter: Seq<char>,
    pub qos: QoS,
}

impl View for SubscribeTo {
    type V = SubscribeToView;

    open spec fn view(&self) -> SubscribeToView {
        SubscribeToView { topic_filter: self.topic_filter@, qos: self.qos }
    }
}

/// SUBSCRIBE.
#[derive(Clone, Debug, PartialEq, Eq)]
pub struct Subscribe {
    pub packet_identifier: PacketIdentifier,
    pub subscribe_to: Vec<SubscribeTo>,
}

/// The mathematical content of a [`Subscribe`].
pub struct SubscribeView {
    pub packet_identifier: PacketIdentifier,
    pub subscribe_to: Seq<SubscribeToView>,
}

impl View for Subscribe {
    type V = SubscribeView;

    open spec fn view(&self) -> SubscribeView {
        SubscribeView {
            packet_identifier: self.packet_identifier,
            subscribe_to: self.subscribe_to@.map_values(|s: SubscribeTo| s@),
        }
    }
}

/// The outcome of one entry of a SUBSCRIBE packet.
#[derive(Clone, Copy, Debug, PartialEq, Eq, Structural, Hash)]
pub enum SubAckQos {
    /// The subscription was taken, with this maximum quality of service.
    Success(QoS),
    /// The subscription was refused.
    Failure,
}

/// SUBACK.
#[derive(Clone, Debug, PartialEq, Eq)]
pub struct SubAck {
    pub packet_identifier: PacketIdentifier,
    pub qos: Vec<SubAckQos>,
}

/// The mathematical content of a [`SubAck`].
pub struct SubAckView {
    pub packet_identifier: PacketIdentifier,
    pub qos: Seq<SubAckQos>,
}

impl View for SubAck {
    type V = SubAckView;

    open spec fn view(&self) -> SubAckView {
        SubAckView { packet_identifier: self.packet_identifier, qos: self.qos@ }
    }
}

/// UNSUBSCRIBE.
#[derive(Clone, Debug, PartialEq, Eq)]
pub struct Unsubscribe {
    pub packet_identifier: PacketIdentifier,
    pub unsubscribe_from: Vec<String>,
}

/// The mathematical content of an [`Unsubscribe`].
pub struct UnsubscribeView {
    pub packet_identifier: PacketIdentifier,
    pub unsubscribe_from: Seq<Seq<char>>,
}

impl View for Unsubscribe {
    type V = UnsubscribeView;

    open spec fn view(&self) -> UnsubscribeView {
        UnsubscribeView {
            packet_identifier: self.packet_identifier,
            unsubscribe_from: self.unsubscribe_from@.map_values(|s: String| s@),
        }
    }
}

/// UNSUBACK.
#[derive(Clone, Copy, Debug, PartialEq, Eq, Structural, Hash)]
pub struct UnsubAck {
    pub packet_identifier: PacketIdentifier,
}

} // verus!
