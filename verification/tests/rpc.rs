use atlas::atlas_client::{bus_id_for, AtlasClient, Issued};
use atlas::atlas_server::{AtlasServer, Handled, Reaction, Work};
use atlas::client::ClientMessage;
use atlas::payload::Payload;
use atlas::port::{receive, share, ShareableError};
use atlas::server::{ServerError, ServerEvent, ServerMessage, ServerResponse};
use atlas::wire::WireValue;

const OK: ServerResponse = ServerResponse::Okay(ServerMessage::Okay);

fn word(s: &str) -> WireValue {
    WireValue::Text(s.to_string())
}

fn reaction(server: &mut AtlasServer, issued: &Issued) -> Reaction {
    match server.listen(&issued.parcel.data) {
        Handled::Replied(reaction) => reaction,
        Handled::Dropped(e) => panic!("dropped: {}", e.message()),
    }
}

/// One request from its issue to its resolution.
fn round(client: &mut AtlasClient, server: &mut AtlasServer, issued: Issued) -> (ServerResponse, Reaction) {
    let reaction = reaction(server, &issued);
    let reply = client.accept(&issued.listener, &reaction.reply.data).unwrap();
    client.settle(issued.listener);
    (reply, reaction)
}

fn counts(reaction: &Reaction) -> Vec<(u64, ServerEvent)> {
    reaction
        .events
        .iter()
        .map(|push| (push.wire, receive::<ServerEvent>(&push.parcel.data, false).unwrap()))
        .collect()
}

#[test]
fn ping_is_answered() {
    let mut client = AtlasClient::with_suffix(0);
    let mut server = AtlasServer::new();
    let issued = client.ping(1).unwrap();
    assert_eq!(issued.parcel.transfer, None);
    let (reply, reaction) = round(&mut client, &mut server, issued);
    assert_eq!(reply, OK);
    assert_eq!(reaction.work, Work::Nothing);
    assert!(reaction.events.is_empty());
    assert_eq!(server.counter(), 0);
}

#[test]
fn counting_is_pushed_to_the_wire() {
    let mut client = AtlasClient::with_suffix(7);
    let mut server = AtlasServer::new();

    let issued = client.ping(1).unwrap();
    assert_eq!(round(&mut client, &mut server, issued).0, OK);

    // The handshake: one end of the pair goes over, the other is wrapped here.
    let issued = client.listen(100, 2).unwrap();
    assert_eq!(issued.parcel.transfer, Some(vec![100]));
    let (reply, reaction) = round(&mut client, &mut server, issued);
    assert_eq!(reply, OK);
    assert_eq!(reaction.work, Work::WireUp(100));
    assert!(reaction.events.is_empty());
    assert!(client.wire_up(reply, 3));

    let mut observed = client.observe("ServerEvent::Count".to_string());
    assert_eq!(observed.bus_id(), "atlas_bus#7");
    observed.subscribe(50);
    let mut told = Vec::new();
    for expected in [1u8, 2, 3] {
        let issued = client.inc(4).unwrap();
        let (reply, reaction) = round(&mut client, &mut server, issued);
        assert_eq!(reply, OK);
        assert_eq!(counts(&reaction), vec![(100, ServerEvent::Count(expected))]);
        assert_eq!(server.counter(), expected);
        let payload = client.relay(&reaction.events[0].parcel.data).unwrap();
        assert_eq!(
            payload,
            WireValue::Sequence(vec![word("ServerEvent::Count"), WireValue::Number(expected as i64)])
        );
        told.push(observed.notify(&payload).unwrap());
    }
    assert_eq!(told, vec![WireValue::Number(1), WireValue::Number(2), WireValue::Number(3)]);
}

#[test]
fn every_wire_gets_each_event_once() {
    let mut one = AtlasClient::with_suffix(1);
    let mut other = AtlasClient::with_suffix(2);
    let mut server = AtlasServer::new();
    let issued = one.listen(10, 1).unwrap();
    let (reply, _) = round(&mut one, &mut server, issued);
    assert!(one.wire_up(reply, 2));
    let issued = other.listen(20, 1).unwrap();
    let (reply, _) = round(&mut other, &mut server, issued);
    assert!(other.wire_up(reply, 2));

    let issued = one.inc(3).unwrap();
    let (_, reaction) = round(&mut one, &mut server, issued);
    assert_eq!(
        counts(&reaction),
        vec![(10, ServerEvent::Count(1)), (20, ServerEvent::Count(1))]
    );
    let issued = other.query(3).unwrap();
    let (_, reaction) = round(&mut other, &mut server, issued);
    assert_eq!(
        counts(&reaction),
        vec![(10, ServerEvent::Count(1)), (20, ServerEvent::Count(1))]
    );
    let issued = other.dec(3).unwrap();
    let (_, reaction) = round(&mut other, &mut server, issued);
    assert_eq!(
        counts(&reaction),
        vec![(10, ServerEvent::Count(0)), (20, ServerEvent::Count(0))]
    );
}

#[test]
fn replies_in_reverse_order() {
    let mut client = AtlasClient::with_suffix(0);
    let first = client.request_with(ClientMessage::Ping, 1, 5).unwrap();
    let second = client.request_with(ClientMessage::Query, 2, 5).unwrap();
    assert_eq!((first.id, second.id), (5, 6));
    let (to_first, _) =
        share(&Payload { id: 5, message: ServerResponse::Failed(ServerError::Unknown) }, false)
            .unwrap();
    let (to_second, _) = share(&Payload { id: 6, message: OK }, false).unwrap();

    // The second reply arrives first: every listener hears it, one takes it.
    assert_eq!(client.accept(&first.listener, &to_second), None);
    assert_eq!(client.accept(&second.listener, &to_second), Some(OK));
    client.settle(second.listener);
    assert_eq!(client.listeners_for(6), 0);
    assert_eq!(client.listeners_for(5), 1);
    assert_eq!(
        client.accept(&first.listener, &to_first),
        Some(ServerResponse::Failed(ServerError::Unknown))
    );
    client.settle(first.listener);
    assert_eq!(client.listeners_for(5), 0);
}

#[test]
fn resolving_ends_the_wait() {
    let mut client = AtlasClient::with_suffix(0);
    let first = client.request_with(ClientMessage::Ping, 1, 5).unwrap();
    let second = client.request_with(ClientMessage::Inc, 2, 5).unwrap();
    let (to_second, _) = share(&Payload { id: 6, message: OK }, false).unwrap();

    // Not for the first request: nothing changes, the registration comes back.
    let first = client.resolve(first.listener, &to_second).unwrap_err();
    assert_eq!(first.callback(), 1);
    assert_eq!(client.listeners_for(5), 1);
    assert_eq!(client.listeners_for(6), 1);
    // For the second: taken and settled in one step.
    assert_eq!(client.resolve(second.listener, &to_second), Ok(OK));
    assert_eq!(client.listeners_for(6), 0);
    assert_eq!(client.listeners_for(5), 1);
    // A second copy of the reply finds nobody.
    assert!(client.resolve(first, &to_second).is_err());
}

#[test]
fn abandoned_requests_leave_no_listener() {
    let mut client = AtlasClient::with_suffix(0);
    let issued = client.request_with(ClientMessage::Ping, 1, 200).unwrap();
    assert_eq!(issued.id, 200);
    assert!(client.is_waiting(200));
    assert_eq!(client.listeners_for(200), 1);
    client.settle(issued.listener);
    assert!(!client.is_waiting(200));
    assert_eq!(client.listeners_for(200), 0);
    // The identifier is free again.
    assert_eq!(client.free_id(200), Some(200));
}

#[test]
fn replies_to_nobody_are_passed_over() {
    let mut client = AtlasClient::with_suffix(0);
    let issued = client.request_with(ClientMessage::Ping, 1, 0).unwrap();
    let (stray, _) = share(&Payload { id: 9, message: OK }, false).unwrap();
    assert_eq!(client.accept(&issued.listener, &stray), None);
    assert_eq!(client.accept(&issued.listener, &word("noise")), None);
    assert_eq!(client.accept(&issued.listener, &WireValue::Sequence(vec![])), None);
    assert!(client.is_waiting(0));
    let gone = issued.listener;
    client.settle(gone);
    let other = client.request_with(ClientMessage::Ping, 2, 0).unwrap();
    let (reply, _) = share(&Payload { id: 0, message: OK }, false).unwrap();
    assert_eq!(client.accept(&other.listener, &reply), Some(OK));
}

#[test]
fn identifiers_in_use_are_skipped() {
    let mut client = AtlasClient::with_suffix(0);
    let a = client.request_with(ClientMessage::Ping, 1, 255).unwrap();
    let b = client.request_with(ClientMessage::Ping, 2, 255).unwrap();
    let c = client.request_with(ClientMessage::Ping, 3, 255).unwrap();
    assert_eq!((a.id, b.id, c.id), (255, 0, 1));
    // A callback registers once.
    assert_eq!(client.request_with(ClientMessage::Ping, 3, 9), None);
    assert_eq!(client.free_id(0), Some(2));
}

#[test]
fn all_identifiers_in_use() {
    let mut client = AtlasClient::with_suffix(0);
    for callback in 0..256u64 {
        let issued = client.request(ClientMessage::Ping, callback).unwrap();
        assert_eq!(client.listeners_for(issued.id), 1);
    }
    assert_eq!(client.free_id(17), None);
    assert_eq!(client.request(ClientMessage::Ping, 1000), None);
    assert_eq!(client.request_with(ClientMessage::Ping, 1000, 3), None);
}

#[test]
fn the_counter_stays_in_its_range() {
    let mut client = AtlasClient::with_suffix(0);
    let mut server = AtlasServer::new();
    let issued = client.listen(10, 1).unwrap();
    round(&mut client, &mut server, issued);
    let issued = client.dec(2).unwrap();
    let (reply, reaction) = round(&mut client, &mut server, issued);
    assert_eq!(reply, ServerResponse::Failed(ServerError::Unknown));
    assert!(reaction.events.is_empty());
    assert_eq!(server.counter(), 0);
    for _ in 0..255 {
        let issued = client.inc(2).unwrap();
        assert_eq!(round(&mut client, &mut server, issued).0, OK);
    }
    assert_eq!(server.counter(), 255);
    let issued = client.inc(2).unwrap();
    let (reply, reaction) = round(&mut client, &mut server, issued);
    assert_eq!(reply, ServerResponse::Failed(ServerError::Unknown));
    assert!(reaction.events.is_empty());
    assert_eq!(server.counter(), 255);
}

#[test]
fn surfaces_are_handed_over() {
    let mut client = AtlasClient::with_suffix(0);
    let mut server = AtlasServer::new();
    let issued = client.attach(77, 1).unwrap();
    assert_eq!(issued.parcel.transfer, Some(vec![77]));
    let (reply, reaction) = round(&mut client, &mut server, issued);
    assert_eq!(reply, OK);
    assert_eq!(reaction.work, Work::Attach(77));
}

#[test]
fn what_cannot_be_read_is_dropped() {
    let mut server = AtlasServer::new();
    assert_eq!(server.listen(&word("noise")), Handled::Dropped(ShareableError::BadPayload));
    let unknown = WireValue::Sequence(vec![
        WireValue::Number(1),
        WireValue::Sequence(vec![word("Pong")]),
    ]);
    assert_eq!(
        server.listen(&unknown),
        Handled::Dropped(ShareableError::InvalidIdentifier("Pong".to_string()))
    );
    // The loop goes on.
    let (request, _) = share(&Payload { id: 3, message: ClientMessage::Inc }, false).unwrap();
    match server.listen(&request) {
        Handled::Replied(reaction) => {
            assert_eq!(
                receive::<Payload<ServerResponse>>(&reaction.reply.data, false),
                Ok(Payload { id: 3, message: OK })
            );
        }
        other => panic!("{:?}", other),
    }
    assert_eq!(server.counter(), 1);
}

#[test]
fn identity_verified_end_to_end() {
    let mut client = AtlasClient::with_suffix(0);
    let mut server = AtlasServer::new();
    client.set_verification(true);
    server.set_verification(true);
    let issued = client.inc(1).unwrap();
    assert_eq!(
        issued.parcel.data,
        WireValue::Sequence(vec![
            word("Payload"),
            WireValue::Number(issued.id as i64),
            WireValue::Sequence(vec![word("ClientMessage"), word("Inc")]),
        ])
    );
    let (reply, _) = round(&mut client, &mut server, issued);
    assert_eq!(reply, OK);
    // A side that does not verify cannot read it.
    let mut plain = AtlasServer::new();
    let issued = client.inc(1).unwrap();
    assert_eq!(plain.listen(&issued.parcel.data), Handled::Dropped(ShareableError::BadPayload));
}

#[test]
fn a_refused_handshake_attaches_nothing() {
    let mut client = AtlasClient::with_suffix(0);
    assert!(!client.wire_up(ServerResponse::Failed(ServerError::Unknown), 1));
    assert_eq!(client.relay(&word("noise")), None);
}

#[test]
fn bus_names() {
    assert_eq!(bus_id_for(0), "atlas_bus#0");
    assert_eq!(bus_id_for(9), "atlas_bus#9");
    assert_eq!(bus_id_for(10), "atlas_bus#10");
    assert_eq!(bus_id_for(99), "atlas_bus#99");
    assert_eq!(bus_id_for(100), "atlas_bus#100");
    assert_eq!(bus_id_for(205), "atlas_bus#205");
    assert_eq!(bus_id_for(255), "atlas_bus#255");
    assert_eq!(AtlasClient::with_suffix(31).bus_id(), "atlas_bus#31");
    assert!(AtlasClient::new().bus_id().starts_with("atlas_bus#"));
}

#[test]
fn observables_filter_by_topic() {
    let mut client = AtlasClient::with_suffix(3);
    let mut observed = client.observe("ServerEvent::Count".to_string());
    let event = |topic: &str| WireValue::Sequence(vec![word(topic), WireValue::Number(4)]);
    assert_eq!(observed.notify(&event("ServerEvent::Count")), Some(WireValue::Number(4)));
    assert_eq!(observed.notify(&event("Other")), None);
    assert_eq!(observed.notify(&WireValue::Sequence(vec![word("ServerEvent::Count")])), None);
    assert_eq!(observed.notify(&WireValue::Sequence(vec![WireValue::Number(1), word("x")])), None);
    assert_eq!(observed.notify(&word("ServerEvent::Count")), None);

    let first = observed.subscribe(1);
    let second = observed.subscribe(2);
    observed.subscribe(3);
    observed.unsubscribe(second);
    observed.unsubscribe(9);
    assert_eq!(first, 1);
    // Giving the observable up takes what is left off the bus.
    assert_eq!(observed.release(), vec![1, 3]);
}
