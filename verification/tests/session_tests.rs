use chat_server::auth::{decode_jwt, encode_jwt, Jwt};
use chat_server::chat::ChatServer;
use chat_server::dispatch::{dispatch, RoomEgress, RoomEvent};
use chat_server::session::{Session, SessionState};
use chat_server::timing::TimeState;
use chat_server::types::{ChatMessage, ChatRoomID, ServerAction, UserAction, UserID};

const SECRET: &[u8] = b"session-secret";

fn uid(s: &str) -> UserID {
    UserID(s.to_string())
}

fn now() -> u64 {
    jsonwebtoken::get_current_timestamp()
}

fn server_with_alice() -> ChatServer {
    let mut s = ChatServer::new();
    s.register(&uid("alice"), "pw", SECRET, now()).unwrap();
    s.create_room(ChatRoomID("general".to_string()), vec![], uid("alice"), 1).unwrap();
    s
}

#[test]
fn handshake_happy_path() {
    let mut server = server_with_alice();
    let t = now();
    let token = server.login(&uid("alice"), "pw", SECRET, t).unwrap();
    let claims = decode_jwt(&token, SECRET);
    let mut session = Session::new();
    assert!(matches!(session.state, SessionState::Handshaking));
    session.begin_auth();
    let catchup = session.authenticate(&mut server, claims, t).expect("accepted");
    assert!(matches!(session.state, SessionState::CatchUp));
    // the creation message was queued while offline, behind the room notice
    assert_eq!(catchup.len(), 2);
    assert!(matches!(&catchup[0], ServerAction::Add { room, .. } if room.0 == "general"));
    assert!(matches!(&catchup[1], ServerAction::Message(m) if m.content == "alice created the room"));
    session.enter_streaming();
    assert!(matches!(session.state, SessionState::Streaming));
    session.close(&mut server);
    assert!(matches!(session.state, SessionState::Closed));
    // presence returned to disconnected: a new session can authenticate
    let mut again = Session::new();
    again.begin_auth();
    let claims = decode_jwt(&token, SECRET);
    assert!(again.authenticate(&mut server, claims, t).is_some());
}

#[test]
fn handshake_silent_rejects() {
    let mut server = server_with_alice();
    let t = now();
    // no credential frame
    let mut s1 = Session::new();
    s1.begin_auth();
    assert!(s1.authenticate(&mut server, None, t).is_none());
    assert!(matches!(s1.state, SessionState::Closing));
    // expired claim
    let mut s2 = Session::new();
    s2.begin_auth();
    let expired = Some(Jwt { name: uid("alice"), exp: t - 1 });
    assert!(s2.authenticate(&mut server, expired, t).is_none());
    assert!(matches!(s2.state, SessionState::Closing));
    // unknown identity
    let mut s3 = Session::new();
    s3.begin_auth();
    let ghost = Some(Jwt { name: uid("ghost"), exp: t + 100 });
    assert!(s3.authenticate(&mut server, ghost, t).is_none());
    // duplicate session: the first stays, the second is rejected
    let mut s4 = Session::new();
    s4.begin_auth();
    let c = Some(Jwt { name: uid("alice"), exp: t + 100 });
    assert!(s4.authenticate(&mut server, c, t).is_some());
    let mut s5 = Session::new();
    s5.begin_auth();
    let c = Some(Jwt { name: uid("alice"), exp: t + 100 });
    assert!(s5.authenticate(&mut server, c, t).is_none());
    assert!(matches!(s5.state, SessionState::Closing));
}

#[test]
fn dispatch_replies_and_logs() {
    let mut server = server_with_alice();
    let mut time = TimeState::new();
    let t = now();
    let alice = uid("alice");
    // a report becomes a log line
    let out = dispatch(&mut server, &mut time, &alice, UserAction::Report("it broke".to_string()), t);
    assert_eq!(out.log_line.as_deref(), Some("Report: it broke"));
    assert!(out.reply.is_none());
    // listing users answers the requester alone
    let out = dispatch(&mut server, &mut time, &alice, UserAction::ListUsers, t);
    match out.reply {
        Some(ServerAction::List(ids)) => {
            assert_eq!(ids.len(), 1);
            assert_eq!(ids[0].0, "alice");
        },
        _ => panic!("expected a user list"),
    }
    // a message to a missing room draws an error reply
    let bad = ChatMessage {
        sender: uid("alice"),
        room: ChatRoomID("nowhere".to_string()),
        content: "hi".to_string(),
        timestamp: t,
    };
    let out = dispatch(&mut server, &mut time, &alice, UserAction::Message(bad), t);
    assert!(matches!(out.reply, Some(ServerAction::Error(e)) if e == "room not found"));
    // the clock answers through the dispatcher
    let out = dispatch(&mut server, &mut time, &alice, UserAction::CheckTime, t);
    assert!(matches!(out.reply, Some(ServerAction::TimedIn(false))));
    let out = dispatch(&mut server, &mut time, &alice, UserAction::TimeIn(None), t);
    assert!(out.reply.is_none());
    let out = dispatch(&mut server, &mut time, &alice, UserAction::CheckTime, t);
    assert!(matches!(out.reply, Some(ServerAction::TimedIn(true))));
    let _ = dispatch(&mut server, &mut time, &alice, UserAction::TimeOut(None), t + 60);
    let out = dispatch(&mut server, &mut time, &alice, UserAction::CheckTime, t + 60);
    assert!(matches!(out.reply, Some(ServerAction::TimedIn(false))));
}

#[test]
fn streaming_gates_actions() {
    let mut server = server_with_alice();
    let mut time = TimeState::new();
    let t = now();
    let session = Session::new();
    // a session that never authenticated cannot dispatch
    let r = session.on_action(&mut server, &mut time, UserAction::ListUsers, t);
    assert!(r.is_err());
    // a streaming session can
    let mut session = Session::new();
    session.begin_auth();
    let claims = Some(Jwt { name: uid("alice"), exp: t + 100 });
    session.authenticate(&mut server, claims, t).unwrap();
    session.enter_streaming();
    let out = session.on_action(&mut server, &mut time, UserAction::ListUsers, t).unwrap();
    assert!(matches!(out.reply, Some(ServerAction::List(_))));
}

#[test]
fn egress_join_and_leave() {
    let mut server = server_with_alice();
    server.register(&uid("bob"), "pw", SECRET, now()).unwrap();
    let join = RoomEgress {
        room_id: "general".to_string(),
        user_id: "bob".to_string(),
        action: RoomEvent::Join,
    };
    let out = join.handle(&uid("alice"), &mut server);
    assert!(out.reply.is_none());
    let members: Vec<&str> = server.rooms[0].members.iter().map(|m| m.0.as_str()).collect();
    assert_eq!(members, vec!["alice", "bob"]);
    // joining again conflicts, answered with an error event
    let again = RoomEgress {
        room_id: "general".to_string(),
        user_id: "bob".to_string(),
        action: RoomEvent::Join,
    };
    let out = again.handle(&uid("alice"), &mut server);
    assert!(matches!(out.reply, Some(ServerAction::Error(e)) if e == "already a member"));
    let leave = RoomEgress {
        room_id: "general".to_string(),
        user_id: "bob".to_string(),
        action: RoomEvent::Leave,
    };
    let out = leave.handle(&uid("bob"), &mut server);
    assert!(out.reply.is_none());
    let members: Vec<&str> = server.rooms[0].members.iter().map(|m| m.0.as_str()).collect();
    assert_eq!(members, vec!["alice"]);
}

#[test]
fn egress_leave_removes_the_caller_not_the_payload_user() {
    let mut server = server_with_alice();
    server.register(&uid("bob"), "pw", SECRET, now()).unwrap();
    server.add_member(&ChatRoomID("general".to_string()), &uid("bob"), None).unwrap();
    // bob's payload names alice, but only the authenticated caller leaves
    let leave = RoomEgress {
        room_id: "general".to_string(),
        user_id: "alice".to_string(),
        action: RoomEvent::Leave,
    };
    let out = leave.handle(&uid("bob"), &mut server);
    assert!(out.reply.is_none());
    let members: Vec<&str> = server.rooms[0].members.iter().map(|m| m.0.as_str()).collect();
    assert_eq!(members, vec!["alice"]);
}

#[test]
fn token_for_registration_is_current() {
    let mut server = ChatServer::new();
    let t = now();
    let token = server.register(&uid("carol"), "pw", SECRET, t).unwrap();
    let claims = decode_jwt(&token, SECRET).expect("registration token decodes");
    assert_eq!(claims.name.0, "carol");
    assert!(claims.is_current(t));
    // and it matches what encode_jwt issues for the same instant
    let reissued = encode_jwt(&uid("carol"), SECRET, t);
    assert_eq!(token, reissued);
}
