use swapbytes::engine::{
    handle_private_request, on_public_message, on_query_failed, on_record_found, RecordOutcome,
    RequestOutcome, Resolver,
};
use swapbytes::protocol::{PeerId, PrivateRequest, RequestType};
use swapbytes::state::App;

const BOB: PeerId = PeerId { id: 7 };

fn peered_login(nick: &str) -> App {
    let mut app = App::new();
    app.add_peer();
    let _ = app.login(&nick.to_string());
    app
}

fn join_request() -> PrivateRequest {
    PrivateRequest { request_type: RequestType::Join, message: None, filename: None }
}

#[test]
fn known_sender_is_displayed_at_once() {
    let mut a = peered_login("alice");
    a.insert_nickname(BOB, "bob".to_string());
    let displayed =
        on_public_message(&mut a, BOB, &"Global".to_string(), &"hello".as_bytes().to_vec());
    assert!(displayed);
    assert_eq!(a.get_messages().last().unwrap().1, "bob: hello");
}

#[test]
fn message_from_unknown_peer_is_buffered_until_resolved() {
    // Peer A creates room "COSC401"; a message from an unseen peer arrives
    // there before A ever saw the sender.
    let mut a = peered_login("alice");
    a.add_room(&"COSC401".to_string()).unwrap();
    let mut resolver = Resolver::new();
    let data = "hello".as_bytes().to_vec();

    let displayed = on_public_message(&mut a, BOB, &"COSC401".to_string(), &data);
    assert!(!displayed);
    assert!(a.get_messages().iter().all(|m| !m.1.ends_with(": hello")));

    resolver.buffer_message(42, "COSC401".to_string(), data);
    assert_eq!(resolver.pending.len(), 1);

    // The nickname record arrives for query 42.
    let out = on_record_found(
        &mut a,
        &mut resolver,
        42,
        &vec![9, 9, 9],
        Some(BOB),
        "bob".as_bytes().to_vec(),
    );
    assert!(matches!(out, RecordOutcome::Done));
    assert_eq!(resolver.pending.len(), 0);

    // Displayed exactly once, in COSC401, never in any other room's log.
    let cosc = a.messages.iter().find(|e| e.0 == "COSC401").unwrap();
    assert_eq!(cosc.1.iter().filter(|m| m.1 == "bob: hello").count(), 1);
    let global = a.messages.iter().find(|e| e.0 == "Global").unwrap();
    assert!(global.1.iter().all(|m| m.1 != "bob: hello"));
}

#[test]
fn failed_lookup_drops_the_buffered_item() {
    let mut a = peered_login("alice");
    let mut resolver = Resolver::new();
    let data = "hello".as_bytes().to_vec();
    assert!(!on_public_message(&mut a, BOB, &"Global".to_string(), &data));
    resolver.buffer_message(42, "Global".to_string(), data);

    on_query_failed(&mut resolver, 42);
    assert_eq!(resolver.pending.len(), 0);
    assert!(a.get_messages().iter().all(|m| !m.1.ends_with(": hello")));
}

#[test]
fn malformed_nickname_record_drops_the_buffered_item() {
    let mut a = peered_login("alice");
    let mut resolver = Resolver::new();
    let data = "hello".as_bytes().to_vec();
    assert!(!on_public_message(&mut a, BOB, &"Global".to_string(), &data));
    resolver.buffer_message(5, "Global".to_string(), data);

    // The record's value is not valid UTF-8.
    let out = on_record_found(&mut a, &mut resolver, 5, &vec![9], Some(BOB), vec![0xff, 0xfe]);
    assert!(matches!(out, RecordOutcome::Done));
    assert_eq!(resolver.pending.len(), 0);
    assert!(a.get_messages().iter().all(|m| !m.1.ends_with(": hello")));
}

#[test]
fn unrelated_queries_stay_buffered() {
    let mut a = peered_login("alice");
    let mut resolver = Resolver::new();
    resolver.buffer_message(1, "Global".to_string(), "one".as_bytes().to_vec());
    resolver.buffer_message(2, "Global".to_string(), "two".as_bytes().to_vec());

    let out =
        on_record_found(&mut a, &mut resolver, 1, &vec![9], Some(BOB), "bob".as_bytes().to_vec());
    assert!(matches!(out, RecordOutcome::Done));
    assert_eq!(resolver.pending.len(), 1);
    assert_eq!(resolver.pending[0].0, 2);
}

#[test]
fn lossy_decoding_replaces_invalid_bytes() {
    let mut a = peered_login("alice");
    a.insert_nickname(BOB, "bob".to_string());
    let data = vec![b'h', 0xff, b'i'];
    assert!(on_public_message(&mut a, BOB, &"Global".to_string(), &data));
    assert_eq!(a.get_messages().last().unwrap().1, "bob: h\u{FFFD}i");
}

#[test]
fn join_from_unknown_peer_is_buffered_and_redelivered() {
    let mut b = peered_login("bob");
    let alice = PeerId { id: 1 };
    let mut resolver = Resolver::new();

    let out = handle_private_request(&mut b, alice, join_request());
    let peer = match out {
        RequestOutcome::NeedsNickname { peer } => peer,
        _ => panic!("expected a nickname lookup"),
    };
    assert_eq!(peer, alice);
    assert_eq!(b.connected_peer, None);

    resolver.buffer_request(8, join_request());
    let out = on_record_found(
        &mut b,
        &mut resolver,
        8,
        &vec![1],
        Some(alice),
        "alice".as_bytes().to_vec(),
    );
    let (peer, request) = match out {
        RecordOutcome::Redeliver { peer, request } => (peer, request),
        _ => panic!("expected a redelivery"),
    };
    assert_eq!(peer, alice);

    let out = handle_private_request(&mut b, peer, request);
    assert!(matches!(out, RequestOutcome::Done));
    assert_eq!(b.connected_peer, Some(alice));
    let global = b.messages.iter().find(|e| e.0 == "Global").unwrap();
    assert_eq!(
        global.1.last().unwrap().1,
        "alice has invited you to chat! Type \"/accept\" to accept or \"/reject\" to reject"
    );
}

#[test]
fn two_lookups_for_the_same_peer_resolve_independently() {
    let mut a = peered_login("alice");
    let mut resolver = Resolver::new();
    assert!(!on_public_message(&mut a, BOB, &"Global".to_string(), &"one".as_bytes().to_vec()));
    assert!(!on_public_message(&mut a, BOB, &"Global".to_string(), &"two".as_bytes().to_vec()));
    resolver.buffer_message(1, "Global".to_string(), "one".as_bytes().to_vec());
    resolver.buffer_message(2, "Global".to_string(), "two".as_bytes().to_vec());

    let record = "bob".as_bytes().to_vec();
    let out = on_record_found(&mut a, &mut resolver, 1, &vec![9], Some(BOB), record.clone());
    assert!(matches!(out, RecordOutcome::Done));
    let out = on_record_found(&mut a, &mut resolver, 2, &vec![9], Some(BOB), record);
    assert!(matches!(out, RecordOutcome::Done));

    assert_eq!(resolver.pending.len(), 0);
    let global = a.messages.iter().find(|e| e.0 == "Global").unwrap();
    assert_eq!(global.1.iter().filter(|m| m.1 == "bob: one").count(), 1);
    assert_eq!(global.1.iter().filter(|m| m.1 == "bob: two").count(), 1);
}

#[test]
fn rooms_record_replaces_the_catalog() {
    let mut a = peered_login("alice");
    let mut resolver = Resolver::new();
    let catalog = vec!["Global".to_string(), "COSC401".to_string()];
    let bytes = swapbytes::codec::rooms_record_value(&catalog).unwrap();

    let out =
        on_record_found(&mut a, &mut resolver, 3, &"rooms".as_bytes().to_vec(), None, bytes);
    assert!(matches!(out, RecordOutcome::Done));
    assert_eq!(a.rooms, catalog);
}

#[test]
fn malformed_rooms_record_is_dropped() {
    let mut a = peered_login("alice");
    let mut resolver = Resolver::new();
    let rooms_before = a.rooms.clone();
    let out = on_record_found(
        &mut a,
        &mut resolver,
        3,
        &"rooms".as_bytes().to_vec(),
        None,
        vec![0xff, 0x00],
    );
    assert!(matches!(out, RecordOutcome::Done));
    assert_eq!(a.rooms, rooms_before);
}
