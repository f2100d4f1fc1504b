use mqtt_broker::broker::Broker;
use mqtt_broker::proto;
use mqtt_broker::session::Session;
use mqtt_broker::{ClientId, ConnReq, ConnectionHandle, Delivery, Event, Message};
use std::time::{Duration, Instant};
use uuid::Uuid;

fn clean_connect(id: &str) -> proto::Connect {
    proto::Connect {
        username: None,
        password: None,
        will: None,
        client_id: proto::ClientId::IdWithCleanSession(id.to_string()),
        keep_alive: Default::default(),
        protocol_name: "MQTT".to_string(),
        protocol_level: 0x4,
    }
}

fn resuming_connect(id: &str, keep_alive: u64) -> proto::Connect {
    proto::Connect {
        username: None,
        password: None,
        will: None,
        client_id: proto::ClientId::IdWithExistingSession(id.to_string()),
        keep_alive: Duration::from_secs(keep_alive),
        protocol_name: "MQTT".to_string(),
        protocol_level: 0x4,
    }
}

fn new_handle() -> ConnectionHandle {
    ConnectionHandle::new(Uuid::new_v4().as_u128())
}

fn connreq(id: &str, connect: proto::Connect, handle: ConnectionHandle) -> Message {
    let client_id = ClientId::from(id.to_string());
    Message::new(
        client_id.clone(),
        Event::ConnReq(ConnReq::new(client_id, connect, handle)),
    )
}

fn message(id: &str, event: Event) -> Message {
    Message::new(ClientId::from(id.to_string()), event)
}

fn subscribe(id: u16, topic_filter: &str, qos: proto::QoS) -> Event {
    Event::Subscribe(proto::Subscribe {
        packet_identifier: proto::PacketIdentifier::new(id).unwrap(),
        subscribe_to: vec![proto::SubscribeTo {
            topic_filter: topic_filter.to_string(),
            qos,
        }],
    })
}

fn sent_to(deliveries: &[Delivery], handle: ConnectionHandle) -> Vec<&Event> {
    deliveries
        .iter()
        .filter(|delivery| *delivery.handle() == handle)
        .map(|delivery| delivery.message().event())
        .collect()
}

fn subscription_count(broker: &Broker, id: &str) -> usize {
    match broker.session(&ClientId::from(id.to_string())) {
        Some(Session::Transient(connected)) | Some(Session::Persistent(connected)) => {
            connected.state().subscription_count()
        }
        Some(Session::Offline(offline)) => offline.state().subscription_count(),
        _ => 0,
    }
}

#[test]
fn test_double_connect_protocol_violation() {
    let mut broker = Broker::default();

    let connect1 = clean_connect("blah");
    let connect2 = clean_connect("blah");
    let id = Uuid::new_v4();
    let conn1 = ConnectionHandle::new(id.as_u128());
    let conn2 = conn1.clone();
    let client_id = ClientId::from("blah".to_string());

    let mut received: Vec<Delivery> = Vec::new();
    let first = broker.handle_message(Message::new(
        client_id.clone(),
        Event::ConnReq(ConnReq::new(client_id.clone(), connect1, conn1)),
    ));
    assert_eq!(None, first.released);
    received.extend(first.deliveries);
    let second = broker.handle_message(Message::new(
        client_id.clone(),
        Event::ConnReq(ConnReq::new(client_id.clone(), connect2, conn2)),
    ));
    let closed = second.released;
    received.extend(second.deliveries);

    let rx1 = sent_to(&received, conn1);
    assert!(matches!(rx1[0], Event::ConnAck(_)));
    assert!(matches!(rx1[1], Event::DropConnection));
    // Nothing further: the broker has let go of the connection.
    assert_eq!(2, rx1.len());
    assert_eq!(2, received.len());
    assert_eq!(Some(conn1), closed);
    assert!(broker.session(&client_id).is_none());
    assert!(broker.connection(&client_id).is_none());
}

#[test]
fn test_double_connect_drop_first() {
    let mut broker = Broker::default();

    let connect1 = clean_connect("blah");
    let connect2 = clean_connect("blah");
    let conn1 = new_handle();
    let conn2 = new_handle();
    let client_id = ClientId::from("blah".to_string());

    let mut received: Vec<Delivery> = Vec::new();
    let first = broker.handle_message(Message::new(
        client_id.clone(),
        Event::ConnReq(ConnReq::new(client_id.clone(), connect1, conn1)),
    ));
    assert_eq!(None, first.released);
    received.extend(first.deliveries);
    let second = broker.handle_message(Message::new(
        client_id.clone(),
        Event::ConnReq(ConnReq::new(client_id.clone(), connect2, conn2)),
    ));
    let closed = second.released;
    received.extend(second.deliveries);

    let rx1 = sent_to(&received, conn1);
    assert!(matches!(rx1[0], Event::ConnAck(_)));
    assert!(matches!(rx1[1], Event::DropConnection));
    // Nothing further: the broker has let go of the first connection.
    assert_eq!(2, rx1.len());
    assert_eq!(Some(conn1), closed);

    let rx2 = sent_to(&received, conn2);
    assert!(matches!(rx2[0], Event::ConnAck(_)));
    assert_eq!(1, rx2.len());

    // The first connection was told to drop before the second was accepted,
    // and the session is now bound to the second alone.
    assert_eq!(conn1, *received[1].handle());
    assert_eq!(conn2, *received[2].handle());
    assert_eq!(Some(conn2), broker.connection(&client_id));
    assert_eq!(1, broker.len());
}

#[test]
fn connect_makes_a_session_of_the_requested_kind() {
    let mut broker = Broker::new();
    assert_eq!(0, broker.len());

    let a = new_handle();
    let out = broker.handle_message(connreq("a", clean_connect("a"), a)).deliveries;
    assert_eq!(1, out.len());
    assert_eq!(a, *out[0].handle());
    assert_eq!("a", out[0].message().client_id().as_str());
    match out[0].message().event() {
        Event::ConnAck(ack) => {
            assert!(!ack.session_present);
            assert_eq!(proto::ConnectReturnCode::Accepted, ack.return_code);
        }
        _ => panic!("not a connack"),
    }
    assert!(matches!(
        broker.session(&ClientId::from("a".to_string())),
        Some(Session::Transient(_))
    ));

    let b = new_handle();
    let out = broker
        .handle_message(connreq("b", resuming_connect("b", 30), b))
        .deliveries;
    assert_eq!(1, out.len());
    match out[0].message().event() {
        Event::ConnAck(ack) => assert!(!ack.session_present),
        _ => panic!("not a connack"),
    }
    match broker.session(&ClientId::from("b".to_string())) {
        Some(Session::Persistent(connected)) => {
            assert_eq!(b, *connected.handle());
            assert_eq!(Duration::from_secs(30), connected.state().keep_alive());
            assert_eq!("b", connected.state().client_id().as_str());
        }
        _ => panic!("not persistent"),
    }
    assert_eq!(2, broker.len());
}

#[test]
fn session_map_has_one_entry_per_client() {
    let mut broker = Broker::new();
    let ids = ["a", "b", "a", "c", "b", "a"];
    for id in ids.iter() {
        broker.handle_message(connreq(id, resuming_connect(id, 10), new_handle()));
        assert!(broker.len() <= 3);
    }
    assert_eq!(3, broker.len());
    broker.handle_message(message("b", Event::Disconnect(proto::Disconnect)));
    assert_eq!(3, broker.len());
    broker.handle_message(connreq("b", clean_connect("b"), new_handle()));
    assert_eq!(3, broker.len());
    broker.handle_message(message("b", Event::DropConnection));
    assert_eq!(2, broker.len());
    broker.handle_message(message("a", Event::CloseSession));
    broker.handle_message(message("a", Event::CloseSession));
    assert_eq!(1, broker.len());
    assert!(broker.session(&ClientId::from("c".to_string())).is_some());
}

#[test]
fn takeover_keeps_persistent_state_for_a_resuming_client() {
    let mut broker = Broker::new();
    let first = new_handle();
    broker.handle_message(connreq("c", resuming_connect("c", 10), first));
    let out = broker
        .handle_message(message("c", subscribe(5, "a/b", proto::QoS::AtLeastOnce)))
        .deliveries;
    assert_eq!(1, out.len());
    assert_eq!(first, *out[0].handle());
    match out[0].message().event() {
        Event::SubAck(ack) => {
            assert_eq!(5, ack.packet_identifier.get());
            assert_eq!(
                vec![proto::SubAckQos::Success(proto::QoS::AtLeastOnce)],
                ack.qos
            );
        }
        _ => panic!("not a suback"),
    }

    let second = new_handle();
    let out = broker
        .handle_message(connreq("c", resuming_connect("c", 20), second))
        .deliveries;
    assert_eq!(2, out.len());
    assert_eq!(first, *out[0].handle());
    assert!(matches!(out[0].message().event(), Event::DropConnection));
    assert_eq!(second, *out[1].handle());
    match out[1].message().event() {
        Event::ConnAck(ack) => assert!(ack.session_present),
        _ => panic!("not a connack"),
    }
    assert_eq!(1, subscription_count(&broker, "c"));
    assert_eq!(
        Some(second),
        broker.connection(&ClientId::from("c".to_string()))
    );

    // A clean connect takes over with fresh state.
    let third = new_handle();
    let out = broker.handle_message(connreq("c", clean_connect("c"), third)).deliveries;
    assert_eq!(2, out.len());
    assert_eq!(second, *out[0].handle());
    match out[1].message().event() {
        Event::ConnAck(ack) => assert!(!ack.session_present),
        _ => panic!("not a connack"),
    }
    assert_eq!(0, subscription_count(&broker, "c"));
    assert!(matches!(
        broker.session(&ClientId::from("c".to_string())),
        Some(Session::Transient(_))
    ));

    // A resuming connect finds nothing to resume after a transient session.
    let fourth = new_handle();
    let out = broker
        .handle_message(connreq("c", resuming_connect("c", 20), fourth))
        .deliveries;
    match out[1].message().event() {
        Event::ConnAck(ack) => assert!(!ack.session_present),
        _ => panic!("not a connack"),
    }
}

#[test]
fn disconnect_removes_transient_and_parks_persistent_sessions() {
    let mut broker = Broker::new();
    let t = new_handle();
    let p = new_handle();
    broker.handle_message(connreq("t", clean_connect("t"), t));
    broker.handle_message(connreq("p", resuming_connect("p", 10), p));
    broker.handle_message(message("p", subscribe(1, "x/#", proto::QoS::ExactlyOnce)));

    let out = broker
        .handle_message(message("t", Event::Disconnect(proto::Disconnect)))
        .deliveries;
    assert_eq!(1, out.len());
    assert_eq!(t, *out[0].handle());
    assert!(matches!(out[0].message().event(), Event::Disconnect(_)));
    assert!(broker.session(&ClientId::from("t".to_string())).is_none());

    let out = broker
        .handle_message(message("p", Event::Disconnect(proto::Disconnect)))
        .deliveries;
    assert_eq!(1, out.len());
    assert_eq!(p, *out[0].handle());
    assert!(matches!(
        broker.session(&ClientId::from("p".to_string())),
        Some(Session::Offline(_))
    ));
    assert_eq!(1, subscription_count(&broker, "p"));
    assert!(broker.connection(&ClientId::from("p".to_string())).is_none());

    // An offline session takes no message and stays as it is.
    for event in [
        Event::Disconnect(proto::Disconnect),
        Event::DropConnection,
        Event::PingReq(proto::PingReq),
        subscribe(2, "y", proto::QoS::AtMostOnce),
        Event::Unsubscribe(proto::Unsubscribe {
            packet_identifier: proto::PacketIdentifier::new(3).unwrap(),
            unsubscribe_from: vec!["x/#".to_string()],
        }),
    ] {
        let out = broker.handle_message(message("p", event)).deliveries;
        assert!(out.is_empty());
        assert!(matches!(
            broker.session(&ClientId::from("p".to_string())),
            Some(Session::Offline(_))
        ));
        assert_eq!(1, subscription_count(&broker, "p"));
    }

    // The client comes back and finds its subscriptions.
    let back = new_handle();
    let out = broker
        .handle_message(connreq("p", resuming_connect("p", 10), back))
        .deliveries;
    assert_eq!(1, out.len());
    assert_eq!(back, *out[0].handle());
    match out[0].message().event() {
        Event::ConnAck(ack) => assert!(ack.session_present),
        _ => panic!("not a connack"),
    }
    assert_eq!(1, subscription_count(&broker, "p"));

    let out = broker.handle_message(message("p", Event::CloseSession)).deliveries;
    assert!(out.is_empty());
    assert!(broker.session(&ClientId::from("p".to_string())).is_none());
}

#[test]
fn drop_connection_retires_the_session() {
    let mut broker = Broker::new();
    let t = new_handle();
    let p = new_handle();
    broker.handle_message(connreq("t", clean_connect("t"), t));
    broker.handle_message(connreq("p", resuming_connect("p", 10), p));

    let out = broker.handle_message(message("t", Event::DropConnection)).deliveries;
    assert!(out.is_empty());
    assert!(broker.session(&ClientId::from("t".to_string())).is_none());
    assert!(broker.connection(&ClientId::from("t".to_string())).is_none());

    broker.handle_message(message("p", subscribe(1, "x/y", proto::QoS::AtLeastOnce)));
    let out = broker.handle_message(message("p", Event::DropConnection)).deliveries;
    assert!(out.is_empty());
    assert!(matches!(
        broker.session(&ClientId::from("p".to_string())),
        Some(Session::Offline(_))
    ));
    assert!(broker.connection(&ClientId::from("p".to_string())).is_none());
    assert_eq!(1, subscription_count(&broker, "p"));

    let out = broker.handle_message(message("p", Event::DropConnection)).deliveries;
    assert!(out.is_empty());
    assert!(matches!(
        broker.session(&ClientId::from("p".to_string())),
        Some(Session::Offline(_))
    ));

    let out = broker.handle_message(message("nobody", Event::DropConnection)).deliveries;
    assert!(out.is_empty());
    assert_eq!(1, broker.len());
}

#[test]
fn ping_is_answered_and_stamps_the_session() {
    let mut broker = Broker::new();
    let handle = new_handle();
    let start = Instant::now();
    broker.handle_message_at(connreq("a", clean_connect("a"), handle), start);

    let later = start + Duration::from_secs(42);
    let out = broker
        .handle_message_at(message("a", Event::PingReq(proto::PingReq)), later)
        .deliveries;
    assert_eq!(1, out.len());
    assert_eq!(handle, *out[0].handle());
    assert_eq!("a", out[0].message().client_id().as_str());
    assert!(matches!(out[0].message().event(), Event::PingResp(_)));
    match broker.session(&ClientId::from("a".to_string())) {
        Some(Session::Transient(connected)) => {
            assert_eq!(later, connected.state().last_active());
        }
        _ => panic!("not transient"),
    }

    let out = broker
        .handle_message_at(message("b", Event::PingReq(proto::PingReq)), later)
        .deliveries;
    assert!(out.is_empty());
    assert_eq!(1, broker.len());
}

#[test]
fn subscribe_and_unsubscribe_go_to_the_session() {
    let mut broker = Broker::new();
    let handle = new_handle();
    broker.handle_message(connreq("a", clean_connect("a"), handle));

    let out = broker
        .handle_message(message("a", subscribe(23, "topic/new", proto::QoS::AtMostOnce)))
        .deliveries;
    assert_eq!(1, out.len());
    match out[0].message().event() {
        Event::SubAck(ack) => {
            assert_eq!(23, ack.packet_identifier.get());
            assert_eq!(vec![proto::SubAckQos::Success(proto::QoS::AtMostOnce)], ack.qos);
        }
        _ => panic!("not a suback"),
    }
    let out = broker
        .handle_message(message("a", subscribe(24, "topic/+bad", proto::QoS::AtMostOnce)))
        .deliveries;
    match out[0].message().event() {
        Event::SubAck(ack) => assert_eq!(vec![proto::SubAckQos::Failure], ack.qos),
        _ => panic!("not a suback"),
    }
    assert_eq!(1, subscription_count(&broker, "a"));

    let out = broker.handle_message(message(
        "a",
        Event::Unsubscribe(proto::Unsubscribe {
            packet_identifier: proto::PacketIdentifier::new(1).unwrap(),
            unsubscribe_from: vec!["topic/different".to_string()],
        }),
    )).deliveries;
    assert_eq!(1, out.len());
    assert_eq!(handle, *out[0].handle());
    match out[0].message().event() {
        Event::UnsubAck(ack) => assert_eq!(1, ack.packet_identifier.get()),
        _ => panic!("not an unsuback"),
    }
    assert_eq!(1, subscription_count(&broker, "a"));

    let out = broker.handle_message(message(
        "a",
        Event::Unsubscribe(proto::Unsubscribe {
            packet_identifier: proto::PacketIdentifier::new(24).unwrap(),
            unsubscribe_from: vec!["topic/new".to_string()],
        }),
    )).deliveries;
    match out[0].message().event() {
        Event::UnsubAck(ack) => assert_eq!(24, ack.packet_identifier.get()),
        _ => panic!("not an unsuback"),
    }
    assert_eq!(0, subscription_count(&broker, "a"));

    let out = broker
        .handle_message(message("nobody", subscribe(1, "a", proto::QoS::AtMostOnce)))
        .deliveries;
    assert!(out.is_empty());
}

#[test]
fn stray_events_are_discarded() {
    let mut broker = Broker::new();
    let handle = new_handle();
    broker.handle_message(connreq("a", clean_connect("a"), handle));
    let id = proto::PacketIdentifier::new(1).unwrap();
    for event in [
        Event::ConnAck(proto::ConnAck {
            session_present: true,
            return_code: proto::ConnectReturnCode::Refused(
                proto::ConnectionRefusedReason::NotAuthorized,
            ),
        }),
        Event::PingResp(proto::PingResp),
        Event::SubAck(proto::SubAck {
            packet_identifier: id,
            qos: vec![],
        }),
        Event::UnsubAck(proto::UnsubAck {
            packet_identifier: id,
        }),
        Event::Unknown,
    ] {
        let out = broker.handle_message(message("a", event)).deliveries;
        assert!(out.is_empty());
        assert_eq!(
            Some(handle),
            broker.connection(&ClientId::from("a".to_string()))
        );
        assert_eq!(1, broker.len());
    }
}

#[test]
fn failed_write_retires_the_session_bound_to_that_connection() {
    let mut broker = Broker::new();
    let t = new_handle();
    let p = new_handle();
    let t_id = ClientId::from("t".to_string());
    let p_id = ClientId::from("p".to_string());
    broker.handle_message(connreq("t", clean_connect("t"), t));
    broker.handle_message(connreq("p", resuming_connect("p", 10), p));

    // A write to a connection that the session has left behind changes
    // nothing.
    let stale = new_handle();
    assert_eq!(None, broker.handle_send_failure(&t_id, &stale));
    assert_eq!(None, broker.handle_send_failure(&p_id, &t));
    assert_eq!(
        None,
        broker.handle_send_failure(&ClientId::from("nobody".to_string()), &t)
    );
    assert_eq!(Some(t), broker.connection(&t_id));
    assert_eq!(Some(p), broker.connection(&p_id));

    assert_eq!(Some(t), broker.handle_send_failure(&t_id, &t));
    assert!(broker.session(&t_id).is_none());

    assert_eq!(Some(p), broker.handle_send_failure(&p_id, &p));
    assert!(matches!(broker.session(&p_id), Some(Session::Offline(_))));
    assert_eq!(None, broker.handle_send_failure(&p_id, &p));
    assert!(matches!(broker.session(&p_id), Some(Session::Offline(_))));
    assert_eq!(1, broker.len());
}

#[test]
fn broker_lets_go_of_the_connection_that_a_session_leaves() {
    let mut broker = Broker::new();
    let a = new_handle();
    let b = new_handle();

    let reaction = broker.handle_message(connreq("c", resuming_connect("c", 10), a));
    assert_eq!(None, reaction.released);
    let reaction = broker.handle_message(message("c", Event::PingReq(proto::PingReq)));
    assert_eq!(None, reaction.released);
    let reaction = broker.handle_message(message("c", subscribe(1, "a", proto::QoS::AtMostOnce)));
    assert_eq!(None, reaction.released);

    // Takeover: the old connection is let go of after it was told to drop.
    let reaction = broker.handle_message(connreq("c", resuming_connect("c", 10), b));
    assert_eq!(Some(a), reaction.released);
    assert_eq!(a, *reaction.deliveries[0].handle());

    // Going offline lets go of the connection; an offline session has none.
    let reaction = broker.handle_message(message("c", Event::Disconnect(proto::Disconnect)));
    assert_eq!(Some(b), reaction.released);
    assert_eq!(1, reaction.deliveries.len());
    let reaction = broker.handle_message(message("c", Event::CloseSession));
    assert_eq!(None, reaction.released);
    assert!(reaction.deliveries.is_empty());

    for event in [Event::DropConnection, Event::CloseSession] {
        let handle = new_handle();
        broker.handle_message(connreq("d", clean_connect("d"), handle));
        let reaction = broker.handle_message(message("d", event));
        assert!(reaction.deliveries.is_empty());
        assert_eq!(Some(handle), reaction.released);
        assert_eq!(0, broker.len());
    }

    let reaction = broker.handle_message(message("nobody", Event::DropConnection));
    assert_eq!(None, reaction.released);
}
