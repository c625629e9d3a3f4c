use atlas::client::ClientMessage;
use atlas::dotatlas::{crunch, square};
use atlas::message::{Message, Value};
use atlas::payload::Payload;
use atlas::port::{receive, share, Listener, Parcel, Port, Shareable, ShareableError, Transport};
use atlas::server::{ServerError, ServerEvent, ServerMessage, ServerResponse};
use atlas::shareable::{expand_derive_shareable, Data, DeriveError, DeriveInput, Fields, Variant};
use atlas::wire::WireValue;

fn word(s: &str) -> WireValue {
    WireValue::Text(s.to_string())
}

#[test]
fn pass() {
    assert_eq!(crunch(), 333833500);
}

#[test]
fn squares() {
    assert_eq!(square(0), 0);
    assert_eq!(square(1000), 1_000_000);
    assert_eq!(square(65535), 4_294_836_225);
}

#[test]
fn requests_on_the_wire() {
    let (data, transfer) = share(&ClientMessage::Ping, false).unwrap();
    assert_eq!(data, WireValue::Sequence(vec![word("Ping")]));
    assert!(transfer.is_empty());
    let (data, transfer) = share(&ClientMessage::Attach(9), false).unwrap();
    assert_eq!(data, WireValue::Sequence(vec![word("Attach"), WireValue::Handle(9)]));
    assert_eq!(transfer, vec![9]);
    let (data, transfer) = share(&ClientMessage::WireUp(4), true).unwrap();
    assert_eq!(
        data,
        WireValue::Sequence(vec![word("ClientMessage"), word("WireUp"), WireValue::Handle(4)])
    );
    assert_eq!(transfer, vec![4]);
}

#[test]
fn every_request_comes_back() {
    for verify in [false, true] {
        for request in [
            ClientMessage::Ping,
            ClientMessage::Query,
            ClientMessage::Inc,
            ClientMessage::Dec,
            ClientMessage::Attach(1),
            ClientMessage::WireUp(u64::MAX),
        ] {
            let (data, _) = share(&request, verify).unwrap();
            assert_eq!(receive::<ClientMessage>(&data, verify), Ok(request));
        }
    }
}

#[test]
fn replies_on_the_wire() {
    let ok = ServerResponse::Okay(ServerMessage::Okay);
    let (data, transfer) = share(&ok, false).unwrap();
    assert_eq!(
        data,
        WireValue::Sequence(vec![word("Ok"), WireValue::Sequence(vec![word("Ok")])])
    );
    assert!(transfer.is_empty());
    assert_eq!(receive::<ServerResponse>(&data, false), Ok(ok));
    let err = ServerResponse::Failed(ServerError::Unknown);
    let (data, _) = share(&err, true).unwrap();
    assert_eq!(
        data,
        WireValue::Sequence(vec![
            word("ServerResponse"),
            word("Err"),
            WireValue::Sequence(vec![word("ServerError"), word("Unknown")]),
        ])
    );
    assert_eq!(receive::<ServerResponse>(&data, true), Ok(err));
    assert_eq!(receive::<ServerMessage>(&data, true), Err(ShareableError::IncompatibleType));
}

#[test]
fn events_on_the_wire() {
    let (data, transfer) = share(&ServerEvent::Count(7), false).unwrap();
    assert_eq!(data, WireValue::Sequence(vec![word("Count"), WireValue::Number(7)]));
    assert!(transfer.is_empty());
    for value in [0, 1, 254, 255] {
        let (data, _) = share(&ServerEvent::Count(value), true).unwrap();
        assert_eq!(receive::<ServerEvent>(&data, true), Ok(ServerEvent::Count(value)));
    }
    // What the counter's type cannot take is a malformed payload.
    for outside in [WireValue::Number(256), WireValue::Number(-1), word("7"), WireValue::Flag(true)] {
        let data = WireValue::Sequence(vec![word("Count"), outside]);
        assert_eq!(receive::<ServerEvent>(&data, false), Err(ShareableError::BadPayload));
    }
}

#[test]
fn envelopes_on_the_wire() {
    let envelope = Payload { id: 42, message: ClientMessage::Attach(3) };
    let (data, transfer) = share(&envelope, false).unwrap();
    assert_eq!(
        data,
        WireValue::Sequence(vec![
            WireValue::Number(42),
            WireValue::Sequence(vec![word("Attach"), WireValue::Handle(3)]),
        ])
    );
    assert_eq!(transfer, vec![3]);
    assert_eq!(receive::<Payload<ClientMessage>>(&data, false), Ok(envelope));
    let data = WireValue::Sequence(vec![
        WireValue::Number(300),
        WireValue::Sequence(vec![word("Ping")]),
    ]);
    assert_eq!(
        receive::<Payload<ClientMessage>>(&data, false),
        Err(ShareableError::BadPayload)
    );
    let data = WireValue::Sequence(vec![
        WireValue::Number(3),
        WireValue::Sequence(vec![word("Pong")]),
    ]);
    assert_eq!(
        receive::<Payload<ClientMessage>>(&data, false),
        Err(ShareableError::InvalidIdentifier("Pong".to_string()))
    );
}

#[test]
fn messages_that_stand_for_no_value() {
    let bad = Err(ShareableError::BadPayload);
    assert_eq!(ClientMessage::from_message(&Message { variant: 6, fields: vec![] }), bad);
    assert_eq!(ClientMessage::from_message(&Message { variant: 4, fields: vec![] }), bad);
    assert_eq!(
        ClientMessage::from_message(&Message {
            variant: 0,
            fields: vec![Value::Raw(WireValue::Handle(1))]
        }),
        bad
    );
    assert_eq!(
        ClientMessage::from_message(&ClientMessage::Dec.to_message()),
        Ok(ClientMessage::Dec)
    );
    assert_eq!(ServerMessage::from_message(&Message { variant: 1, fields: vec![] }), Err(ShareableError::BadPayload));
    assert_eq!(ServerError::from_message(&Message { variant: 0, fields: vec![] }), Ok(ServerError::Unknown));
}

#[test]
fn built_in_codecs_are_the_derived_ones() {
    let unit = |ident: &str| Variant { ident: ident.to_string(), fields: Fields::Unit };
    let derived: Result<_, DeriveError> = expand_derive_shareable(&DeriveInput {
        ident: "ServerMessage".to_string(),
        data: Data::Enum(vec![unit("Ok")]),
    });
    assert_eq!(derived, Ok(ServerMessage::codec()));
    let derived = expand_derive_shareable(&DeriveInput {
        ident: "ServerError".to_string(),
        data: Data::Enum(vec![unit("Unknown")]),
    });
    assert_eq!(derived, Ok(ServerError::codec()));
}

#[test]
fn what_errors_say() {
    assert_eq!(
        ShareableError::IncompatibleType.message(),
        "the type of the payload doesn't match the type being read"
    );
    assert_eq!(ShareableError::BadPayload.message(), "invalid payload format");
    assert_eq!(ShareableError::SerdeFailure.message(), "serde failed while sharing");
    assert_eq!(
        ShareableError::InvalidIdentifier("Nope".to_string()).message(),
        "invalid identifier: Nope"
    );
    assert_eq!(
        DeriveError::UnsupportedUnion.message(),
        "unions are not supported by derive(Shareable)"
    );
}

#[test]
fn parcels_choose_the_primitive() {
    let (port, start) = Port::wrap(Transport::Worker);
    assert!(!start);
    let parcel: Parcel = port.send(&ClientMessage::Ping);
    assert_eq!(parcel.transfer, None);
    assert_eq!(parcel.data, WireValue::Sequence(vec![word("Ping")]));
    let parcel = port.send(&Payload { id: 1, message: ClientMessage::WireUp(5) });
    assert_eq!(parcel.transfer, Some(vec![5]));
}

#[test]
fn only_message_ports_are_started() {
    assert!(!Port::wrap(Transport::Worker).1);
    assert!(!Port::wrap(Transport::Scope).1);
    assert!(Port::wrap(Transport::MessagePort).1);
}

#[test]
fn identity_on_a_port() {
    let (mut port, _) = Port::wrap(Transport::Scope);
    assert!(!port.verify_flag());
    port.set_verification(true);
    assert!(port.verify_flag());
    let parcel = port.send(&ServerEvent::Count(1));
    assert_eq!(
        parcel.data,
        WireValue::Sequence(vec![word("ServerEvent"), word("Count"), WireValue::Number(1)])
    );
}

#[test]
fn listeners_come_and_go() {
    let (mut port, _) = Port::wrap(Transport::MessagePort);
    assert_eq!(port.listener_count(), 0);
    let first: Listener = port.add_listener(10);
    let second = port.add_listener(20);
    let again = port.add_listener(10);
    assert_eq!(first.callback(), 10);
    assert_eq!(again.callback(), 10);
    assert_eq!(port.listener_count(), 2);
    assert_eq!(port.dispatch(), vec![10, 20]);
    assert!(port.is_registered(20));
    first.clear(&mut port);
    assert_eq!(port.dispatch(), vec![20]);
    assert!(!port.is_registered(10));
    again.clear(&mut port);
    assert_eq!(port.dispatch(), vec![20]);
    second.clear(&mut port);
    assert_eq!(port.listener_count(), 0);
}
