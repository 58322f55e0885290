use swapbytes::protocol::NetworkError;
use swapbytes::state::{App, MessageType};

fn peered_login(nick: &str) -> App {
    let mut app = App::new();
    app.add_peer();
    let _ = app.login(&nick.to_string());
    app
}

#[test]
fn login_joins_the_default_room() {
    let app = peered_login("alice");
    assert_eq!(app.nickname, "alice");
    assert_eq!(app.topic, "Global");
    assert_eq!(app.rooms, vec!["Global".to_string()]);
}

#[test]
fn create_rooms_in_order_without_duplicates() {
    let mut app = peered_login("alice");
    assert!(app.add_room(&"COSC401".to_string()).is_ok());
    assert!(app.add_room(&"general".to_string()).is_ok());
    assert!(app.add_room(&"random".to_string()).is_ok());
    assert_eq!(
        app.rooms,
        vec![
            "Global".to_string(),
            "COSC401".to_string(),
            "general".to_string(),
            "random".to_string(),
        ]
    );
}

#[test]
fn create_duplicate_room_is_refused() {
    let mut app = peered_login("alice");
    assert!(app.add_room(&"COSC401".to_string()).is_ok());
    let rooms_before = app.rooms.clone();
    let r = app.add_room(&"COSC401".to_string());
    assert!(matches!(r, Err(NetworkError::AlreadyExists)));
    assert_eq!(app.rooms, rooms_before);
}

#[test]
fn first_join_posts_greetings() {
    let mut app = peered_login("alice");
    let msgs = app.get_messages();
    assert_eq!(msgs.len(), 3);
    assert!(matches!(msgs[0].0, MessageType::Info));
    assert_eq!(msgs[0].1, "Logged in as: alice");
    assert!(matches!(msgs[1].0, MessageType::Info));
    assert_eq!(msgs[1].1, "Joined chat room: Global");
    assert!(matches!(msgs[2].0, MessageType::Help));
    assert_eq!(msgs[2].1, "Type \"/help\" to view all available commands");
}

#[test]
fn join_room_twice_is_idempotent() {
    let mut app = peered_login("alice");
    let before = app.get_messages();
    let subscribe = app.join_room(&"Global".to_string());
    assert!(!subscribe);
    let after = app.get_messages();
    assert_eq!(before.len(), after.len());
    for i in 0..before.len() {
        assert_eq!(before[i].1, after[i].1);
    }
}

#[test]
fn rejoining_a_known_room_adds_no_messages() {
    let mut app = peered_login("alice");
    app.add_room(&"COSC401".to_string()).unwrap();
    assert_eq!(app.topic, "COSC401");
    assert_eq!(app.get_messages().len(), 3);
    let subscribe = app.join_room(&"Global".to_string());
    assert!(subscribe);
    assert_eq!(app.get_messages().len(), 3);
    app.join_room(&"COSC401".to_string());
    assert_eq!(app.get_messages().len(), 3);
}

#[test]
fn own_messages_echo_into_the_room_log() {
    let mut app = peered_login("alice");
    app.record_own_message(&"hello everyone".to_string());
    let msgs = app.get_messages();
    assert_eq!(msgs.len(), 4);
    assert!(matches!(msgs[3].0, MessageType::Message));
    assert_eq!(msgs[3].1, "alice: hello everyone");
}

#[test]
fn peer_notice_is_posted_when_coming_back_from_zero() {
    let mut app = peered_login("alice");
    app.remove_peer(swapbytes::protocol::PeerId { id: 99 });
    assert_eq!(app.num_connected_peers, 0);
    let after_drop = app.get_messages();
    assert_eq!(after_drop.last().unwrap().1, "No connected peers.");
    app.add_peer();
    let msgs = app.get_messages();
    assert_eq!(msgs.last().unwrap().1, "Peer has connected");
    assert!(matches!(msgs.last().unwrap().0, MessageType::Info));
}
