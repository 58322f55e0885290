use swapbytes::engine::{
    handle_private_request, handle_private_response, on_inbound_request, InboundAction,
    RequestOutcome,
};
use swapbytes::protocol::{NetworkError, PeerId, PrivateRequest, PrivateResponse, RequestType};
use swapbytes::state::{AcceptOutcome, App, MessageType, SubmitAction};

const ALICE: PeerId = PeerId { id: 1 };
const BOB: PeerId = PeerId { id: 2 };

fn peered_login(nick: &str) -> App {
    let mut app = App::new();
    app.add_peer();
    let _ = app.login(&nick.to_string());
    app
}

fn request(kind: RequestType) -> PrivateRequest {
    PrivateRequest { request_type: kind, message: None, filename: None }
}

/// Two peers that completed the Join/Accept handshake: both Active.
fn active_pair() -> (App, App) {
    let mut a = peered_login("alice");
    a.insert_nickname(BOB, "bob".to_string());
    let r = a.connect(&"bob".to_string());
    assert_eq!(r, Ok(BOB));

    let mut b = peered_login("bob");
    b.insert_nickname(ALICE, "alice".to_string());
    let out = handle_private_request(&mut b, ALICE, request(RequestType::Join));
    assert!(matches!(out, RequestOutcome::Done));
    assert_eq!(b.connected_peer, Some(ALICE));
    assert!(!b.connected);

    let outcome = b.accept_request(true);
    assert!(matches!(outcome, AcceptOutcome::Accept { peer } if peer == ALICE));
    assert!(b.connected);

    let out = handle_private_request(&mut a, BOB, request(RequestType::Accept));
    assert!(matches!(out, RequestOutcome::Done));
    assert!(a.connected);

    (a, b)
}

#[test]
fn connect_requires_a_known_nickname() {
    let mut a = peered_login("alice");
    let r = a.connect(&"bob".to_string());
    assert_eq!(r, Err(NetworkError::NotFound));
    assert_eq!(a.connected_peer, None);
}

#[test]
fn connect_is_refused_while_a_session_is_pending() {
    let mut a = peered_login("alice");
    a.insert_nickname(BOB, "bob".to_string());
    a.insert_nickname(PeerId { id: 3 }, "carol".to_string());
    assert_eq!(a.connect(&"bob".to_string()), Ok(BOB));
    let r = a.connect(&"carol".to_string());
    assert_eq!(r, Err(NetworkError::AlreadyConnected));
    assert_eq!(a.connected_peer, Some(BOB));
}

#[test]
fn connect_accept_message_flow() {
    let (mut a, _b) = active_pair();

    let plan = a.plan_submit(&"hi".to_string());
    match plan {
        SubmitAction::Private { peer, request } => {
            assert_eq!(peer, BOB);
            assert!(matches!(request.request_type, RequestType::Message));
            assert_eq!(request.message.as_deref(), Some("hi"));
            assert_eq!(request.filename, None);
        },
        _ => panic!("expected a private send"),
    }
    a.record_own_message(&"hi".to_string());

    assert_eq!(a.private_messages.last().unwrap().1, "alice: hi");
    let global = a.messages.iter().find(|e| e.0 == "Global").unwrap();
    assert!(global.1.iter().all(|m| m.1 != "alice: hi"));
}

#[test]
fn received_private_message_lands_in_the_private_log() {
    let (_a, mut b) = active_pair();
    let msg = PrivateRequest {
        request_type: RequestType::Message,
        message: Some("hi".to_string()),
        filename: None,
    };
    let out = handle_private_request(&mut b, ALICE, msg);
    assert!(matches!(out, RequestOutcome::Done));
    assert_eq!(b.private_messages.last().unwrap().1, "alice: hi");
    let global = b.messages.iter().find(|e| e.0 == "Global").unwrap();
    assert!(global.1.iter().all(|m| m.1 != "alice: hi"));
}

#[test]
fn submit_without_peers_sends_nothing() {
    let mut a = App::new();
    let _ = a.login(&"alice".to_string());
    assert_eq!(a.num_connected_peers, 0);
    assert!(matches!(a.plan_submit(&"hi".to_string()), SubmitAction::NoPeers));
}

#[test]
fn submit_outside_a_session_publishes_to_the_topic() {
    let a = peered_login("alice");
    match a.plan_submit(&"hi".to_string()) {
        SubmitAction::Publish { topic } => assert_eq!(topic, "Global"),
        _ => panic!("expected a publish"),
    }
}

#[test]
fn file_request_round_trip() {
    let (mut a, mut b) = active_pair();

    // A asks for a file.
    let r = a.request_file(&"report.pdf".to_string());
    assert_eq!(r, Ok(BOB));
    assert!(a.requesting_file);
    assert_eq!(a.requested_file.as_deref(), Some("report.pdf"));
    assert_eq!(a.private_messages.last().unwrap().1, "Requested file: report.pdf");

    // B receives the FileRequest: no file held yet, so the user is prompted.
    let fr = PrivateRequest {
        request_type: RequestType::FileRequest,
        message: None,
        filename: Some("report.pdf".to_string()),
    };
    let act = on_inbound_request(&mut b, fr);
    let req = match act {
        InboundAction::Handle { request } => request,
        _ => panic!("expected the request to be handled"),
    };
    let out = handle_private_request(&mut b, ALICE, req);
    assert!(matches!(out, RequestOutcome::Done));
    assert_eq!(b.requested_file.as_deref(), Some("report.pdf"));
    assert!(!b.requesting_file);
    assert!(b
        .private_messages
        .iter()
        .any(|m| m.1 == "alice has requested the file: report.pdf"));

    // B accepts; the file exists locally.
    let outcome = b.accept_request(true);
    assert!(matches!(outcome, AcceptOutcome::Accept { peer } if peer == ALICE));
    assert_eq!(b.requested_file.as_deref(), Some("report.pdf"));

    // A receives the Accept while requesting: the FileRequest is re-sent.
    let out = handle_private_request(&mut a, BOB, request(RequestType::Accept));
    let resend = match out {
        RequestOutcome::Send { peer, request } => {
            assert_eq!(peer, BOB);
            request
        },
        _ => panic!("expected the FileRequest to be re-sent"),
    };
    assert!(matches!(resend.request_type, RequestType::FileRequest));
    assert_eq!(resend.filename.as_deref(), Some("report.pdf"));

    // B holds the file and is not requesting: it answers with the bytes.
    let act = on_inbound_request(&mut b, resend);
    match act {
        InboundAction::SendFile { filename } => assert_eq!(filename, "report.pdf"),
        _ => panic!("expected the file to be sent"),
    }
    assert_eq!(b.requested_file, None);

    // A receives the payload: it is written out and the state is cleared.
    let write = handle_private_response(
        &mut a,
        PrivateResponse { ack: false, file_bytes: Some(vec![1, 2, 3]) },
    );
    assert_eq!(write, Some(("report.pdf".to_string(), vec![1, 2, 3])));
    assert!(!a.requesting_file);
    assert_eq!(a.requested_file, None);
    assert_eq!(a.private_messages.last().unwrap().1, "Downloaded file: report.pdf");
}

#[test]
fn accept_with_missing_file_sends_reject() {
    let (_a, mut b) = active_pair();
    let fr = PrivateRequest {
        request_type: RequestType::FileRequest,
        message: None,
        filename: Some("ghost.bin".to_string()),
    };
    let out = handle_private_request(&mut b, ALICE, fr);
    assert!(matches!(out, RequestOutcome::Done));

    let outcome = b.accept_request(false);
    assert!(matches!(outcome, AcceptOutcome::Reject { peer } if peer == ALICE));
    assert_eq!(b.requested_file, None);
    assert!(!b.requesting_file);
    assert!(b.connected);
    assert!(b
        .private_messages
        .iter()
        .any(|m| matches!(m.0, MessageType::Error)
            && m.1 == "Unable to send file as file doesn't exist"));
    assert!(b
        .private_messages
        .iter()
        .any(|m| m.1 == "Sending automatic reject message"));
}

#[test]
fn empty_file_payload_is_a_download_failure() {
    let (mut a, _b) = active_pair();
    a.request_file(&"report.pdf".to_string()).unwrap();
    let write = handle_private_response(
        &mut a,
        PrivateResponse { ack: false, file_bytes: Some(Vec::new()) },
    );
    assert_eq!(write, None);
    assert!(a.requesting_file);
    assert!(a
        .private_messages
        .iter()
        .any(|m| matches!(m.0, MessageType::Error) && m.1 == "Unable to download file"));
}

#[test]
fn response_without_a_pending_request_is_discarded() {
    let (mut a, _b) = active_pair();
    let before = a.private_messages.len();
    let write = handle_private_response(
        &mut a,
        PrivateResponse { ack: false, file_bytes: Some(vec![1]) },
    );
    assert_eq!(write, None);
    assert_eq!(a.private_messages.len(), before);
}

#[test]
fn ack_responses_are_ignored() {
    let (mut a, _b) = active_pair();
    a.request_file(&"report.pdf".to_string()).unwrap();
    let write =
        handle_private_response(&mut a, PrivateResponse { ack: true, file_bytes: None });
    assert_eq!(write, None);
    assert!(a.requesting_file);
}

#[test]
fn leave_returns_to_idle() {
    let (mut a, _b) = active_pair();
    let r = a.leave_private_dm();
    assert_eq!(r, Ok(BOB));
    assert!(!a.connected);
    assert_eq!(a.connected_peer, None);
    assert_eq!(a.requested_file, None);
    assert!(!a.requesting_file);
    let global = a.messages.iter().find(|e| e.0 == "Global").unwrap();
    assert_eq!(global.1.last().unwrap().1, "You have been moved back to Global");
}

#[test]
fn received_leave_returns_to_idle() {
    let (_a, mut b) = active_pair();
    let out = handle_private_request(&mut b, ALICE, request(RequestType::Leave));
    assert!(matches!(out, RequestOutcome::Done));
    assert!(!b.connected);
    assert_eq!(b.connected_peer, None);
    let global = b.messages.iter().find(|e| e.0 == "Global").unwrap();
    assert_eq!(
        global.1.last().unwrap().1,
        "alice has left the chat. You have been moved back to Global"
    );
}

#[test]
fn reject_without_file_clears_the_session() {
    let mut b = peered_login("bob");
    b.insert_nickname(ALICE, "alice".to_string());
    let out = handle_private_request(&mut b, ALICE, request(RequestType::Join));
    assert!(matches!(out, RequestOutcome::Done));
    assert_eq!(b.connected_peer, Some(ALICE));

    let r = b.reject_request();
    assert_eq!(r, Some(ALICE));
    assert_eq!(b.connected_peer, None);
    assert!(!b.connected);
}

#[test]
fn reject_with_file_keeps_the_session() {
    let (_a, mut b) = active_pair();
    let fr = PrivateRequest {
        request_type: RequestType::FileRequest,
        message: None,
        filename: Some("report.pdf".to_string()),
    };
    handle_private_request(&mut b, ALICE, fr);
    assert_eq!(b.requested_file.as_deref(), Some("report.pdf"));

    let r = b.reject_request();
    assert_eq!(r, Some(ALICE));
    assert_eq!(b.requested_file, None);
    assert!(!b.requesting_file);
    assert!(b.connected);
    assert_eq!(b.connected_peer, Some(ALICE));
}

#[test]
fn received_reject_of_a_file_request_keeps_the_session() {
    let (mut a, _b) = active_pair();
    a.request_file(&"report.pdf".to_string()).unwrap();
    let out = handle_private_request(&mut a, BOB, request(RequestType::Reject));
    assert!(matches!(out, RequestOutcome::Done));
    assert_eq!(a.requested_file, None);
    assert!(!a.requesting_file);
    assert!(a.connected);
    assert_eq!(a.private_messages.last().unwrap().1, "bob has rejected the request.");
}

#[test]
fn received_reject_of_an_invitation_clears_the_session() {
    let mut a = peered_login("alice");
    a.insert_nickname(BOB, "bob".to_string());
    a.connect(&"bob".to_string()).unwrap();
    let out = handle_private_request(&mut a, BOB, request(RequestType::Reject));
    assert!(matches!(out, RequestOutcome::Done));
    assert_eq!(a.connected_peer, None);
    assert!(!a.connected);
    let global = a.messages.iter().find(|e| e.0 == "Global").unwrap();
    assert_eq!(global.1.last().unwrap().1, "bob has rejected the request.");
}

#[test]
fn join_while_a_counterpart_is_set_is_dropped() {
    let (_a, mut b) = active_pair();
    let carol = PeerId { id: 3 };
    b.insert_nickname(carol, "carol".to_string());
    let before = b.connected_peer;
    let out = handle_private_request(&mut b, carol, request(RequestType::Join));
    assert!(matches!(out, RequestOutcome::Done));
    assert_eq!(b.connected_peer, before);
}

#[test]
fn accept_without_an_incoming_request_is_an_error() {
    let mut a = peered_login("alice");
    let outcome = a.accept_request(true);
    assert!(matches!(outcome, AcceptOutcome::NoRequest));
    let msgs = a.get_messages();
    assert!(matches!(msgs.last().unwrap().0, MessageType::Error));
    assert_eq!(
        msgs.last().unwrap().1,
        "Unable to accept request as there is no incoming request."
    );
}

#[test]
fn reject_without_an_incoming_request_is_an_error() {
    let mut a = peered_login("alice");
    let r = a.reject_request();
    assert_eq!(r, None);
    let msgs = a.get_messages();
    assert_eq!(
        msgs.last().unwrap().1,
        "Unable to reject request as there is no incoming request."
    );
}

#[test]
fn request_file_needs_an_active_session() {
    let mut a = peered_login("alice");
    let r = a.request_file(&"report.pdf".to_string());
    assert_eq!(r, Err(NetworkError::NotFound));
}

#[test]
fn leave_needs_a_counterpart() {
    let mut a = peered_login("alice");
    let r = a.leave_private_dm();
    assert_eq!(r, Err(NetworkError::NotFound));
}

#[test]
fn counterpart_disconnect_forces_leave() {
    let (mut a, _b) = active_pair();
    a.add_peer();
    a.add_peer();
    a.remove_peer(BOB);
    assert!(!a.connected);
    assert_eq!(a.connected_peer, None);
    assert_eq!(a.requested_file, None);
    assert!(!a.requesting_file);
    let global = a.messages.iter().find(|e| e.0 == "Global").unwrap();
    let last = global.1.last().unwrap();
    assert!(matches!(last.0, MessageType::Error));
    assert_eq!(last.1, "Connected peer has left the application.");
}

#[test]
fn active_session_shows_the_private_log() {
    let (mut a, _b) = active_pair();
    let msgs = a.get_messages();
    assert_eq!(msgs.len(), 3);
    assert_eq!(msgs[0].1, "Joined private message with bob");
    assert_eq!(msgs[1].1, "To leave the private message, type \"/leave\"");
    assert_eq!(msgs[2].1, "Type \"/help\" to view all available commands");
}
