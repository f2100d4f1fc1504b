use mqtt_broker::proto;
use mqtt_broker::{ClientId, ConnReq, ConnectionHandle, Delivery, Error, ErrorKind, Event, Message};

fn connect(client_id: proto::ClientId) -> proto::Connect {
    proto::Connect {
        username: Some("user".to_string()),
        password: None,
        will: None,
        client_id,
        keep_alive: std::time::Duration::from_secs(60),
        protocol_name: "MQTT".to_string(),
        protocol_level: 0x4,
    }
}

#[test]
fn connection_handles_are_equal_when_their_ids_are() {
    let a = ConnectionHandle::new(1);
    let copy = a.clone();
    let b = ConnectionHandle::new(2);
    assert_eq!(a, copy);
    assert_eq!(1, copy.id());
    assert_ne!(a, b);
    assert!(a.same_connection(&copy));
    assert!(!a.same_connection(&b));
    assert_eq!(u128::MAX, ConnectionHandle::new(u128::MAX).id());
}

#[test]
fn client_id_is_its_text() {
    let id = ClientId::from("blah".to_string());
    assert_eq!("blah", id.as_str());
    assert_eq!("blah", id.as_string());
    assert_eq!(id, id.clone());
    assert_eq!(id, ClientId::new("blah".to_string()));
    assert!(id.same(&ClientId::new("blah".to_string())));
    assert!(!id.same(&ClientId::new("blah2".to_string())));
    assert_ne!(id, ClientId::from("Blah".to_string()));
}

#[test]
fn clean_session_follows_the_client_id_form() {
    assert!(connect(proto::ClientId::ServerGenerated).clean_session());
    assert!(connect(proto::ClientId::IdWithCleanSession("a".to_string())).clean_session());
    assert!(!connect(proto::ClientId::IdWithExistingSession("a".to_string())).clean_session());
}

#[test]
fn conn_req_hands_out_its_parts() {
    let client_id = ClientId::from("a".to_string());
    let handle = ConnectionHandle::new(5);
    let mut req = ConnReq::new(
        client_id.clone(),
        connect(proto::ClientId::IdWithCleanSession("a".to_string())),
        handle,
    );
    assert_eq!(client_id, *req.client_id());
    assert_eq!(Some("user".to_string()), req.connect().username);
    assert_eq!(handle, *req.handle());
    *req.handle_mut() = ConnectionHandle::new(6);
    assert_eq!(6, req.handle().id());
    assert_eq!(ConnectionHandle::new(6), req.into_handle());
}

#[test]
fn message_and_delivery_hand_out_their_parts() {
    let client_id = ClientId::from("a".to_string());
    let message = Message::new(client_id.clone(), Event::CloseSession);
    assert_eq!(client_id, *message.client_id());
    assert!(matches!(message.event(), Event::CloseSession));
    assert!(matches!(message.into_event(), Event::CloseSession));

    let message = Message::new(client_id.clone(), Event::Unknown);
    let (id, event) = message.into_parts();
    assert_eq!(client_id, id);
    assert!(matches!(event, Event::Unknown));

    let handle = ConnectionHandle::new(9);
    let delivery = Delivery::new(handle, Message::new(client_id.clone(), Event::DropConnection));
    assert_eq!(handle, *delivery.handle());
    assert_eq!(client_id, *delivery.message().client_id());
    let (to, message) = delivery.into_parts();
    assert_eq!(handle, to);
    assert!(matches!(message.event(), Event::DropConnection));
}

#[test]
fn error_carries_its_kind() {
    for kind in [
        ErrorKind::BindServer,
        ErrorKind::SendBrokerMessage,
        ErrorKind::SendConnectionMessage,
        ErrorKind::SessionOffline,
        ErrorKind::PacketIdentifiersExhausted,
        ErrorKind::InvalidTopicFilter,
    ] {
        assert_eq!(kind, *Error::new(kind).kind());
        assert_eq!(kind, *Error::from(kind).kind());
        assert_eq!(kind.description(), Error::from(kind).message());
        assert!(!kind.description().is_empty());
    }
    assert_ne!(
        Error::from(ErrorKind::SessionOffline),
        Error::from(ErrorKind::BindServer)
    );
}
