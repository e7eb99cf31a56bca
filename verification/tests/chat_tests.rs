use chat_server::chat::ChatServer;
use chat_server::types::{ChatMessage, ChatRoomID, ServerAction, UserID, UserStatus, ChatError};

const SECRET: &[u8] = b"test-secret";

fn uid(s: &str) -> UserID {
    UserID(s.to_string())
}

fn rid(s: &str) -> ChatRoomID {
    ChatRoomID(s.to_string())
}

fn now() -> u64 {
    jsonwebtoken::get_current_timestamp()
}

fn msg(sender: &str, room: &str, content: &str, t: u64) -> ChatMessage {
    ChatMessage { sender: uid(sender), room: rid(room), content: content.to_string(), timestamp: t }
}

fn queue_of<'a>(s: &'a ChatServer, name: &str) -> &'a Vec<ServerAction> {
    let i = s.users.0.iter().position(|u| u.name.0 == name).expect("user missing");
    match &s.users.0[i].status {
        UserStatus::Inactive { queue } => queue,
        UserStatus::Active => panic!("user {} is active", name),
    }
}

fn drain(s: &mut ChatServer, name: &str) {
    s.connect(&uid(name)).expect("connect to drain");
    s.close_user(&uid(name));
}

fn register(s: &mut ChatServer, name: &str, pw: &str) -> Result<String, ChatError> {
    s.register(&uid(name), pw, SECRET, now())
}

#[test]
fn register_then_conflict() {
    let mut s = ChatServer::new();
    assert!(register(&mut s, "alice", "pw1").is_ok());
    let second = register(&mut s, "alice", "pw2");
    assert!(matches!(second, Err(ChatError::NameTaken)));
    assert_eq!(s.users.0.len(), 1);
}

#[test]
fn login_right_and_wrong_password() {
    let mut s = ChatServer::new();
    register(&mut s, "alice", "pw1").unwrap();
    let t = s.login(&uid("alice"), "pw1", SECRET, now());
    assert!(t.is_some());
    let claims = chat_server::auth::decode_jwt(&t.unwrap(), SECRET).expect("decodes");
    assert_eq!(claims.name.0, "alice");
    assert!(s.login(&uid("alice"), "wrong", SECRET, now()).is_none());
    assert!(s.login(&uid("nobody"), "pw1", SECRET, now()).is_none());
}

#[test]
fn create_room_includes_creator_and_notifies() {
    let mut s = ChatServer::new();
    register(&mut s, "alice", "a").unwrap();
    register(&mut s, "bob", "b").unwrap();
    let r = s.create_room(rid("general"), vec![uid("alice"), uid("bob")], uid("alice"), 7);
    assert!(r.is_ok());
    assert_eq!(s.rooms.len(), 1);
    assert_eq!(s.rooms[0].id.0, "general");
    let members: Vec<&str> = s.rooms[0].members.iter().map(|m| m.0.as_str()).collect();
    assert_eq!(members, vec!["alice", "bob"]);
    // both are offline: the system message is queued for each
    for name in ["alice", "bob"] {
        let q = queue_of(&s, name);
        assert_eq!(q.len(), 1);
        match &q[0] {
            ServerAction::Message(m) => {
                assert_eq!(m.sender.0, "admin");
                assert_eq!(m.room.0, "general");
                assert_eq!(m.content, "alice created the room");
                assert_eq!(m.timestamp, 7);
            },
            other => panic!("expected a message, got {}", action_tag(other)),
        }
    }
    // the message is persisted
    assert_eq!(s.log.len(), 1);
    assert_eq!(s.log[0].content, "alice created the room");
}

#[test]
fn create_room_creator_omitted_from_request() {
    let mut s = ChatServer::new();
    register(&mut s, "alice", "a").unwrap();
    register(&mut s, "bob", "b").unwrap();
    let r = s.create_room(rid("general"), vec![uid("bob")], uid("alice"), 1);
    assert!(r.is_ok());
    let members: Vec<&str> = s.rooms[0].members.iter().map(|m| m.0.as_str()).collect();
    assert_eq!(members, vec!["bob", "alice"]);
}

#[test]
fn create_room_conflict_and_empty() {
    let mut s = ChatServer::new();
    register(&mut s, "alice", "a").unwrap();
    s.create_room(rid("general"), vec![], uid("alice"), 1).unwrap();
    let dup = s.create_room(rid("general"), vec![], uid("alice"), 2);
    assert!(matches!(dup, Err(ChatError::RoomExists)));
    // nobody requested exists, and the creator is unregistered: empty after filtering
    let empty = s.create_room(rid("other"), vec![uid("ghost")], uid("phantom"), 3);
    assert!(matches!(empty, Err(ChatError::EmptyRoom)));
    assert_eq!(s.rooms.len(), 1);
}

#[test]
fn create_room_filters_unknown_and_duplicates() {
    let mut s = ChatServer::new();
    register(&mut s, "alice", "a").unwrap();
    register(&mut s, "bob", "b").unwrap();
    let r = s.create_room(
        rid("g"),
        vec![uid("bob"), uid("ghost"), uid("bob"), uid("alice")],
        uid("alice"),
        1,
    );
    assert!(r.is_ok());
    let members: Vec<&str> = s.rooms[0].members.iter().map(|m| m.0.as_str()).collect();
    assert_eq!(members, vec!["bob", "alice"]);
}

#[test]
fn add_member_twice_is_a_conflict() {
    let mut s = ChatServer::new();
    register(&mut s, "alice", "a").unwrap();
    register(&mut s, "bob", "b").unwrap();
    s.create_room(rid("general"), vec![], uid("alice"), 1).unwrap();
    let first = s.add_member(&rid("general"), &uid("bob"), Some(uid("alice")));
    assert!(first.is_ok());
    let members: Vec<&str> = s.rooms[0].members.iter().map(|m| m.0.as_str()).collect();
    assert_eq!(members, vec!["alice", "bob"]);
    let second = s.add_member(&rid("general"), &uid("bob"), Some(uid("alice")));
    assert!(matches!(second, Err(ChatError::AlreadyMember)));
}

#[test]
fn add_member_missing_room_is_not_found() {
    let mut s = ChatServer::new();
    register(&mut s, "carol", "c").unwrap();
    let r = s.add_member(&rid("general"), &uid("carol"), None);
    assert!(matches!(r, Err(ChatError::RoomNotFound)));
    assert_eq!(s.rooms.len(), 0);
}

#[test]
fn add_member_unknown_user_is_not_found() {
    let mut s = ChatServer::new();
    register(&mut s, "alice", "a").unwrap();
    s.create_room(rid("general"), vec![], uid("alice"), 1).unwrap();
    let r = s.add_member(&rid("general"), &uid("ghost"), None);
    assert!(matches!(r, Err(ChatError::UserNotFound)));
}

#[test]
fn send_message_to_missing_room() {
    let mut s = ChatServer::new();
    register(&mut s, "alice", "a").unwrap();
    let r = s.send_message(msg("alice", "nowhere", "hi", 1));
    assert!(matches!(r, Err(ChatError::RoomNotFound)));
    assert_eq!(s.log.len(), 0);
}

#[test]
fn fanout_live_once_and_queued_once() {
    let mut s = ChatServer::new();
    for (n, p) in [("alice", "a"), ("bob", "b"), ("carol", "c")] {
        register(&mut s, n, p).unwrap();
    }
    s.create_room(rid("g"), vec![uid("bob"), uid("carol")], uid("alice"), 1).unwrap();
    for n in ["alice", "bob", "carol"] {
        drain(&mut s, n);
    }
    s.connect(&uid("alice")).unwrap();
    s.connect(&uid("bob")).unwrap();
    let deliveries = s.send_message(msg("alice", "g", "m", 2)).unwrap();
    // every connected member, the sender included, gets it exactly once
    let to: Vec<&str> = deliveries.iter().map(|d| d.to.0.as_str()).collect();
    assert_eq!(to, vec!["bob", "alice"]);
    for d in &deliveries {
        match &d.action {
            ServerAction::Message(m) => assert_eq!(m.content, "m"),
            other => panic!("expected a message, got {}", action_tag(other)),
        }
    }
    // the disconnected member's queue grows by exactly one entry
    let q = queue_of(&s, "carol");
    assert_eq!(q.len(), 1);
    assert!(matches!(&q[0], ServerAction::Message(m) if m.content == "m"));
}

#[test]
fn connect_twice_exactly_one_succeeds() {
    let mut s = ChatServer::new();
    register(&mut s, "alice", "a").unwrap();
    assert!(s.connect(&uid("alice")).is_ok());
    let second = s.connect(&uid("alice"));
    assert!(matches!(second, Err(ChatError::AlreadyConnected)));
    let unknown = s.connect(&uid("ghost"));
    assert!(matches!(unknown, Err(ChatError::UserNotFound)));
}

#[test]
fn offline_queue_then_catchup_order() {
    let mut s = ChatServer::new();
    register(&mut s, "alice", "a").unwrap();
    register(&mut s, "bob", "b").unwrap();
    s.create_room(rid("general"), vec![uid("bob")], uid("alice"), 1).unwrap();
    for n in ["alice", "bob"] {
        drain(&mut s, n);
    }
    // alice connects, bob does not; alice sends "hi"
    s.connect(&uid("alice")).unwrap();
    s.send_message(msg("alice", "general", "hi", 2)).unwrap();
    let q = queue_of(&s, "bob");
    assert_eq!(q.len(), 1);
    assert!(matches!(&q[0], ServerAction::Message(m) if m.content == "hi"));
    // bob connects: the membership notice comes first, the queued message after
    let catchup = s.connect(&uid("bob")).unwrap();
    assert_eq!(catchup.len(), 2);
    match &catchup[0] {
        ServerAction::Add { room, adder, added } => {
            assert_eq!(room.0, "general");
            assert!(adder.is_none());
            assert_eq!(added.0, "bob");
        },
        other => panic!("expected a membership notice, got {}", action_tag(other)),
    }
    assert!(matches!(&catchup[1], ServerAction::Message(m) if m.content == "hi"));
    // the queue was drained
    s.close_user(&uid("bob"));
    assert_eq!(queue_of(&s, "bob").len(), 0);
}

#[test]
fn leave_purges_left_rooms_events() {
    let mut s = ChatServer::new();
    register(&mut s, "alice", "a").unwrap();
    s.create_room(rid("a"), vec![], uid("alice"), 1).unwrap();
    s.create_room(rid("b"), vec![], uid("alice"), 2).unwrap();
    drain(&mut s, "alice");
    s.send_message(msg("alice", "a", "in-a", 3)).unwrap();
    s.send_message(msg("alice", "b", "in-b", 4)).unwrap();
    assert_eq!(queue_of(&s, "alice").len(), 2);
    s.leave(&rid("a"), &uid("alice")).unwrap();
    // only the event scoped to the left room is gone
    let q = queue_of(&s, "alice");
    assert_eq!(q.len(), 1);
    assert!(matches!(&q[0], ServerAction::Message(m) if m.content == "in-b"));
    assert!(s.rooms.iter().find(|r| r.id.0 == "a").unwrap().members.is_empty());
    // reconnecting replays only the kept room's membership and message
    let catchup = s.connect(&uid("alice")).unwrap();
    assert_eq!(catchup.len(), 2);
    assert!(matches!(&catchup[0], ServerAction::Add { room, .. } if room.0 == "b"));
    assert!(matches!(&catchup[1], ServerAction::Message(m) if m.content == "in-b"));
}

#[test]
fn leave_missing_room_is_not_found() {
    let mut s = ChatServer::new();
    register(&mut s, "alice", "a").unwrap();
    let r = s.leave(&rid("nowhere"), &uid("alice"));
    assert!(matches!(r, Err(ChatError::RoomNotFound)));
}

#[test]
fn leave_notifies_remaining_members() {
    let mut s = ChatServer::new();
    register(&mut s, "alice", "a").unwrap();
    register(&mut s, "bob", "b").unwrap();
    s.create_room(rid("g"), vec![uid("bob")], uid("alice"), 1).unwrap();
    drain(&mut s, "alice");
    drain(&mut s, "bob");
    s.connect(&uid("bob")).unwrap();
    let deliveries = s.leave(&rid("g"), &uid("alice")).unwrap();
    assert_eq!(deliveries.len(), 1);
    assert_eq!(deliveries[0].to.0, "bob");
    match &deliveries[0].action {
        ServerAction::Leave((room, user)) => {
            assert_eq!(room.0, "g");
            assert_eq!(user.0, "alice");
        },
        other => panic!("expected a leave notice, got {}", action_tag(other)),
    }
}

#[test]
fn list_rooms_and_users() {
    let mut s = ChatServer::new();
    register(&mut s, "alice", "a").unwrap();
    register(&mut s, "bob", "b").unwrap();
    s.create_room(rid("x"), vec![], uid("alice"), 1).unwrap();
    s.create_room(rid("y"), vec![uid("bob")], uid("alice"), 2).unwrap();
    s.create_room(rid("z"), vec![uid("bob")], uid("bob"), 3).unwrap();
    let alice_rooms: Vec<String> = s.list_rooms(&uid("alice")).into_iter().map(|r| r.0).collect();
    assert_eq!(alice_rooms, vec!["x", "y"]);
    let users: Vec<String> = s.list_users().into_iter().map(|u| u.0).collect();
    assert_eq!(users, vec!["alice", "bob"]);
    assert!(s.contains_user(&uid("alice")));
    assert!(!s.contains_user(&uid("ghost")));
}

#[test]
fn register_user_with_prepared_hash() {
    let mut s = ChatServer::new();
    assert!(s.register_user(&uid("alice"), "not-a-real-hash".to_string()).is_ok());
    let dup = s.register_user(&uid("alice"), "other".to_string());
    assert!(matches!(dup, Err(ChatError::NameTaken)));
    // the stored hash is kept verbatim, so no password can match it
    assert!(!s.check_credentials(&uid("alice"), "not-a-real-hash"));
    assert!(s.contains_user(&uid("alice")));
}

#[test]
fn check_credentials_against_stored_hash() {
    let mut s = ChatServer::new();
    register(&mut s, "alice", "pw1").unwrap();
    assert!(s.check_credentials(&uid("alice"), "pw1"));
    assert!(!s.check_credentials(&uid("alice"), "pw2"));
    assert!(!s.check_credentials(&uid("bob"), "pw1"));
}

#[test]
fn error_texts() {
    assert_eq!(ChatError::RoomExists.text(), "room already exists");
    assert_eq!(ChatError::RoomNotFound.text(), "room not found");
    assert_eq!(ChatError::UserNotFound.text(), "user not found");
    assert_eq!(ChatError::AlreadyMember.text(), "already a member");
    assert_eq!(ChatError::EmptyRoom.text(), "no valid members");
    assert_eq!(ChatError::AlreadyConnected.text(), "already connected");
    assert_eq!(ChatError::NameTaken.text(), "user already exists");
    assert_eq!(ChatError::CredentialFailure.text(), "credential failure");
}

#[test]
fn action_room_scoping() {
    let m = ServerAction::Message(msg("a", "r1", "x", 1));
    assert_eq!(m.room().unwrap().0, "r1");
    let add = ServerAction::Add { room: rid("r2"), adder: None, added: uid("a") };
    assert_eq!(add.room().unwrap().0, "r2");
    let leave = ServerAction::Leave((rid("r3"), uid("a")));
    assert_eq!(leave.room().unwrap().0, "r3");
    assert!(ServerAction::List(vec![]).room().is_none());
    assert!(ServerAction::TimedIn(true).room().is_none());
    assert!(ServerAction::Error("e".to_string()).room().is_none());
}

fn action_tag(a: &ServerAction) -> &'static str {
    match a {
        ServerAction::Message(_) => "Message",
        ServerAction::Add { .. } => "Add",
        ServerAction::List(_) => "List",
        ServerAction::TimedIn(_) => "TimedIn",
        ServerAction::Leave(_) => "Leave",
        ServerAction::Error(_) => "Error",
    }
}
