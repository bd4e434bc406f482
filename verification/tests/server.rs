use scp_chat::directory::{Client, ServerState};
use scp_chat::protocol::{ErrorCode, Message, ProtocolFrame, SessionState};
use scp_chat::room::Room;
use scp_chat::server::{ChatServer, Flow};

fn connect(server: &mut ChatServer, cid: &String, name: &str) {
    let f = ProtocolFrame::new(Message::Connect { username: name.to_string() }, None, 0);
    let r = server.process_message(f, cid);
    assert!(r.is_ok());
}

fn join(server: &mut ChatServer, cid: &String, room: &str) {
    let f = ProtocolFrame::new(Message::JoinRoom { room_id: room.to_string() }, None, 0);
    let r = server.process_message(f, cid);
    assert!(r.is_ok());
}

fn drain(server: &mut ChatServer, cid: &String) -> Vec<ProtocolFrame> {
    server.state.take_outbound(cid).unwrap()
}

#[test]
fn second_connect_with_same_username_fails_and_first_is_untouched() {
    let mut server = ChatServer::new();
    let a = "c1".to_string();
    let b = "c2".to_string();
    server.state.add_client(a.clone());
    server.state.add_client(b.clone());
    connect(&mut server, &a, "alice");
    let _ = drain(&mut server, &a);

    let f = ProtocolFrame::new(Message::Connect { username: "alice".to_string() }, None, 0);
    let r = server.process_message(f, &b);
    assert!(r.is_err());

    // the second session got exactly one ConnectError and stayed Connected
    let out = drain(&mut server, &b);
    assert_eq!(out.len(), 1);
    assert!(matches!(out[0].message, Message::ConnectError { .. }));
    assert_eq!(server.state.clients[1].session_state, SessionState::Connected);
    // the first session still holds the name
    assert_eq!(
        server.state.clients[0].session_state,
        SessionState::Authenticated("alice".to_string())
    );
    assert!(drain(&mut server, &a).is_empty());
}

#[test]
fn join_unknown_room_changes_nothing_and_reports_join_room_error() {
    let mut server = ChatServer::new();
    let a = "c1".to_string();
    server.state.add_client(a.clone());
    connect(&mut server, &a, "alice");
    let _ = drain(&mut server, &a);

    let f = ProtocolFrame::new(Message::JoinRoom { room_id: "nowhere".to_string() }, None, 0);
    let r = server.process_message(f, &a);
    assert!(r.is_err());

    let out = drain(&mut server, &a);
    assert_eq!(out.len(), 1);
    assert!(matches!(out[0].message, Message::JoinRoomError { .. }));
    assert_eq!(
        server.state.clients[0].session_state,
        SessionState::Authenticated("alice".to_string())
    );
    assert_eq!(server.state.clients[0].current_room, None);
    for room in &server.state.rooms {
        assert_eq!(room.user_count(), 0);
    }
}

#[test]
fn moving_rooms_sends_exactly_one_user_left_and_keeps_membership_single() {
    let mut server = ChatServer::new();
    let a = "c1".to_string();
    let b = "c2".to_string();
    server.state.add_client(a.clone());
    server.state.add_client(b.clone());
    connect(&mut server, &a, "alice");
    connect(&mut server, &b, "bob");
    join(&mut server, &a, "general");
    join(&mut server, &b, "general");
    let _ = drain(&mut server, &a);
    let _ = drain(&mut server, &b);

    // alice moves from general to tech
    join(&mut server, &a, "tech");

    let to_bob = drain(&mut server, &b);
    let left: Vec<_> = to_bob
        .iter()
        .filter(|f| matches!(&f.message, Message::UserLeft { username, room_id }
            if username == "alice" && room_id == "general"))
        .collect();
    assert_eq!(left.len(), 1);

    // alice is a member of exactly one room, and of the right one
    let mut memberships = 0;
    for room in &server.state.rooms {
        for (cid, _) in &room.users {
            if cid == "c1" {
                memberships += 1;
                assert_eq!(room.id, "tech");
            }
        }
    }
    assert_eq!(memberships, 1);
    assert_eq!(server.state.clients[0].current_room, Some("tech".to_string()));
}

#[test]
fn send_message_outside_a_room_is_rejected_and_reaches_nobody() {
    let mut server = ChatServer::new();
    let a = "c1".to_string();
    let b = "c2".to_string();
    server.state.add_client(a.clone());
    server.state.add_client(b.clone());
    connect(&mut server, &a, "alice");
    connect(&mut server, &b, "bob");
    join(&mut server, &b, "general");
    let _ = drain(&mut server, &a);
    let _ = drain(&mut server, &b);

    // alice is authenticated but in no room
    let f = ProtocolFrame::new(Message::SendMessage { content: "hi".to_string() }, None, 0);
    let r = server.process_message(f, &a);
    assert!(r.is_err());

    let out = drain(&mut server, &a);
    assert_eq!(out.len(), 1);
    assert!(matches!(
        out[0].message,
        Message::Error { code: ErrorCode::InvalidState, .. }
    ));
    // nothing reached the room member
    assert!(drain(&mut server, &b).is_empty());
}

#[test]
fn chat_scenario_between_two_clients() {
    let mut server = ChatServer::new();
    let a = "c-alice".to_string();
    let b = "c-bob".to_string();
    server.state.add_client(a.clone());
    server.state.add_client(b.clone());

    // alice connects
    connect(&mut server, &a, "alice");
    let out = drain(&mut server, &a);
    assert_eq!(out.len(), 1);
    match &out[0].message {
        Message::ConnectAck { client_id, message } => {
            assert!(!client_id.is_empty());
            assert!(message.contains("alice"));
        },
        other => panic!("expected ConnectAck, got {:?}", other),
    }

    // alice joins general
    join(&mut server, &a, "general");
    let out = drain(&mut server, &a);
    assert_eq!(out.len(), 1);
    match &out[0].message {
        Message::JoinRoomAck { room_id, users } => {
            assert_eq!(room_id, "general");
            assert_eq!(users, &vec!["alice".to_string()]);
        },
        other => panic!("expected JoinRoomAck, got {:?}", other),
    }

    // bob connects and joins general: alice hears about it
    connect(&mut server, &b, "bob");
    join(&mut server, &b, "general");
    let out = drain(&mut server, &a);
    assert_eq!(out.len(), 1);
    assert!(matches!(&out[0].message, Message::UserJoined { username, room_id }
        if username == "bob" && room_id == "general"));
    let _ = drain(&mut server, &b);

    // bob speaks: alice receives the room message
    let f = ProtocolFrame::new(Message::SendMessage { content: "hi".to_string() }, None, 0);
    assert!(server.process_message(f, &b).is_ok());
    let out = drain(&mut server, &a);
    assert_eq!(out.len(), 1);
    assert!(matches!(&out[0].message, Message::RoomMessage { from, content, room_id, .. }
        if from == "bob" && content == "hi" && room_id == "general"));
    let _ = drain(&mut server, &b);

    // alice whispers to bob; bob hears it, alice hears nothing else
    let f = ProtocolFrame::new(
        Message::PrivateMessage { target_user: "bob".to_string(), content: "secret".to_string() },
        None,
        0,
    );
    assert!(server.process_message(f, &a).is_ok());
    let out = drain(&mut server, &b);
    assert_eq!(out.len(), 1);
    assert!(matches!(&out[0].message, Message::PrivateMessageReceived { from, content, .. }
        if from == "alice" && content == "secret"));
    assert!(drain(&mut server, &a).is_empty());

    // bob disconnects: alice sees him leave
    let f = ProtocolFrame::new(Message::Disconnect, None, 0);
    assert_eq!(server.process_message(f, &b).unwrap(), Flow::Disconnect);
    server.state.remove_client(&b);
    let out = drain(&mut server, &a);
    assert_eq!(out.len(), 1);
    assert!(matches!(&out[0].message, Message::UserLeft { username, room_id }
        if username == "bob" && room_id == "general"));
}

#[test]
fn private_message_to_unknown_or_self_is_rejected() {
    let mut server = ChatServer::new();
    let a = "c1".to_string();
    server.state.add_client(a.clone());
    connect(&mut server, &a, "alice");
    let _ = drain(&mut server, &a);

    let f = ProtocolFrame::new(
        Message::PrivateMessage { target_user: "ghost".to_string(), content: "x".to_string() },
        None,
        0,
    );
    assert!(server.process_message(f, &a).is_err());
    let out = drain(&mut server, &a);
    assert_eq!(out.len(), 1);
    assert!(matches!(out[0].message, Message::Error { code: ErrorCode::UserNotFound, .. }));

    let f = ProtocolFrame::new(
        Message::PrivateMessage { target_user: "alice".to_string(), content: "x".to_string() },
        None,
        0,
    );
    assert!(server.process_message(f, &a).is_err());
    let out = drain(&mut server, &a);
    assert_eq!(out.len(), 1);
    assert!(matches!(out[0].message, Message::Error { code: ErrorCode::InvalidState, .. }));
}

#[test]
fn list_rooms_and_users_report_counts_and_names() {
    let mut server = ChatServer::new();
    let a = "c1".to_string();
    server.state.add_client(a.clone());
    connect(&mut server, &a, "alice");
    join(&mut server, &a, "general");
    let _ = drain(&mut server, &a);

    let f = ProtocolFrame::new(Message::ListRooms, None, 0);
    assert!(server.process_message(f, &a).is_ok());
    let out = drain(&mut server, &a);
    assert_eq!(out.len(), 1);
    match &out[0].message {
        Message::RoomList { rooms } => {
            assert_eq!(
                rooms,
                &vec![
                    ("general".to_string(), 1u64),
                    ("tech".to_string(), 0u64),
                    ("random".to_string(), 0u64),
                ]
            );
        },
        other => panic!("expected RoomList, got {:?}", other),
    }

    let f = ProtocolFrame::new(Message::ListUsers, None, 0);
    assert!(server.process_message(f, &a).is_ok());
    let out = drain(&mut server, &a);
    assert_eq!(out.len(), 1);
    assert!(matches!(&out[0].message, Message::UserList { users, room_id }
        if users == &vec!["alice".to_string()] && room_id == "general"));
}

#[test]
fn ping_draws_pong_and_oversize_draws_message_too_large() {
    let mut server = ChatServer::new();
    let a = "c1".to_string();
    server.state.add_client(a.clone());

    let f = ProtocolFrame::new(Message::Ping, None, 0);
    assert_eq!(server.process_message(f, &a).unwrap(), Flow::Continue);
    let out = drain(&mut server, &a);
    assert_eq!(out.len(), 1);
    assert!(matches!(out[0].message, Message::Pong));

    server.handle_oversized(&a);
    let out = drain(&mut server, &a);
    assert_eq!(out.len(), 1);
    assert!(matches!(out[0].message, Message::Error { code: ErrorCode::MessageTooLarge, .. }));
}

#[test]
fn undecodable_payload_closes_the_connection_with_invalid_format() {
    let mut server = ChatServer::new();
    let a = "c1".to_string();
    server.state.add_client(a.clone());

    let flow = server.handle_incoming(b"garbage", &a);
    assert_eq!(flow, Flow::Disconnect);
    let out = server.state.take_outbound(&a).unwrap();
    assert_eq!(out.len(), 1);
    assert!(matches!(out[0].message, Message::Error { code: ErrorCode::InvalidFormat, .. }));
}

#[test]
fn leave_room_reverts_to_authenticated_and_tells_the_room() {
    let mut server = ChatServer::new();
    let a = "c1".to_string();
    let b = "c2".to_string();
    server.state.add_client(a.clone());
    server.state.add_client(b.clone());
    connect(&mut server, &a, "alice");
    connect(&mut server, &b, "bob");
    join(&mut server, &a, "general");
    join(&mut server, &b, "general");
    let _ = drain(&mut server, &a);
    let _ = drain(&mut server, &b);

    let f = ProtocolFrame::new(Message::LeaveRoom, None, 0);
    assert!(server.process_message(f, &a).is_ok());
    assert_eq!(
        server.state.clients[0].session_state,
        SessionState::Authenticated("alice".to_string())
    );
    let out = drain(&mut server, &b);
    assert_eq!(out.len(), 1);
    assert!(matches!(&out[0].message, Message::UserLeft { username, room_id }
        if username == "alice" && room_id == "general"));

    // leaving again is an invalid state
    let f = ProtocolFrame::new(Message::LeaveRoom, None, 0);
    assert!(server.process_message(f, &a).is_err());
    let out = drain(&mut server, &a);
    assert_eq!(out.len(), 1);
    assert!(matches!(out[0].message, Message::Error { code: ErrorCode::InvalidState, .. }));
}

#[test]
fn room_membership_helpers_work() {
    let mut room = Room::new("r".to_string(), "Room".to_string());
    room.add_user("c1".to_string(), "alice".to_string());
    room.add_user("c2".to_string(), "bob".to_string());
    room.add_user("c1".to_string(), "alice2".to_string());
    assert_eq!(room.user_count(), 2);
    assert_eq!(room.get_usernames(), vec!["alice2".to_string(), "bob".to_string()]);
    assert_eq!(room.remove_user(&"c1".to_string()), Some("alice2".to_string()));
    assert_eq!(room.remove_user(&"c1".to_string()), None);
    assert_eq!(room.user_count(), 1);
}

#[test]
fn client_sequence_counter_advances() {
    let mut c = Client::new("c1".to_string());
    assert_eq!(c.sequence_number, 0);
    assert_eq!(c.next_sequence(), 1);
    assert_eq!(c.next_sequence(), 2);
    assert_eq!(c.sequence_number, 2);
}

#[test]
fn fresh_directory_has_the_three_startup_rooms() {
    let state = ServerState::new();
    let ids: Vec<&str> = state.rooms.iter().map(|r| r.id.as_str()).collect();
    assert_eq!(ids, vec!["general", "tech", "random"]);
    assert!(state.clients.is_empty());
    assert!(state.username_to_client.is_empty());
}

#[test]
fn dispatcher_refuses_server_to_client_messages() {
    let mut server = ChatServer::new();
    let a = "c1".to_string();
    server.state.add_client(a.clone());

    let f = ProtocolFrame::new(Message::Pong, None, 0);
    assert!(server.process_message(f, &a).is_err());
    let out = drain(&mut server, &a);
    assert_eq!(out.len(), 1);
    assert!(matches!(out[0].message, Message::Error { code: ErrorCode::InvalidFormat, .. }));
    assert_eq!(server.state.clients[0].session_state, SessionState::Connected);
}

#[test]
fn dispatcher_disconnects_on_version_mismatch_and_oversize() {
    let mut server = ChatServer::new();
    let a = "c1".to_string();
    server.state.add_client(a.clone());

    let mut f = ProtocolFrame::new(Message::Ping, None, 0);
    f.version = 9;
    assert_eq!(server.process_message(f, &a).unwrap(), Flow::Disconnect);
    let out = drain(&mut server, &a);
    assert_eq!(out.len(), 1);
    assert!(matches!(out[0].message, Message::Error { code: ErrorCode::InvalidFormat, .. }));

    let big = ProtocolFrame::new(
        Message::SendMessage { content: "b".repeat(70000) },
        None,
        0,
    );
    assert_eq!(server.process_message(big, &a).unwrap(), Flow::Disconnect);
    let out = drain(&mut server, &a);
    assert_eq!(out.len(), 1);
    assert!(matches!(out[0].message, Message::Error { code: ErrorCode::MessageTooLarge, .. }));
}

#[test]
fn list_users_outside_a_room_is_rejected_with_invalid_state() {
    let mut server = ChatServer::new();
    let a = "c1".to_string();
    server.state.add_client(a.clone());
    connect(&mut server, &a, "alice");
    let _ = drain(&mut server, &a);

    let f = ProtocolFrame::new(Message::ListUsers, None, 0);
    assert!(server.process_message(f, &a).is_err());
    let out = drain(&mut server, &a);
    assert_eq!(out.len(), 1);
    assert!(matches!(out[0].message, Message::Error { code: ErrorCode::InvalidState, .. }));
    assert_eq!(
        server.state.clients[0].session_state,
        SessionState::Authenticated("alice".to_string())
    );
}

#[test]
fn decodable_frames_flow_through_the_frame_handler() {
    let mut server = ChatServer::new();
    let a = "c1".to_string();
    server.state.add_client(a.clone());

    let bytes = ProtocolFrame::new(Message::Ping, None, 0).serialize().unwrap();
    assert_eq!(server.handle_incoming(&bytes, &a), Flow::Continue);
    let out = drain(&mut server, &a);
    assert_eq!(out.len(), 1);
    assert!(matches!(out[0].message, Message::Pong));

    // a semantically rejected request keeps the connection serving
    let bytes = ProtocolFrame::new(
        Message::SendMessage { content: "hi".to_string() },
        None,
        0,
    )
    .serialize()
    .unwrap();
    assert_eq!(server.handle_incoming(&bytes, &a), Flow::Continue);
    let out = drain(&mut server, &a);
    assert_eq!(out.len(), 1);
    assert!(matches!(out[0].message, Message::Error { code: ErrorCode::InvalidState, .. }));

    let bytes = ProtocolFrame::new(Message::Disconnect, None, 0).serialize().unwrap();
    // an unauthenticated Disconnect is gated, so the connection keeps serving
    assert_eq!(server.handle_incoming(&bytes, &a), Flow::Continue);
    let _ = drain(&mut server, &a);

    connect(&mut server, &a, "alice");
    let _ = drain(&mut server, &a);
    let bytes = ProtocolFrame::new(Message::Disconnect, None, 0).serialize().unwrap();
    assert_eq!(server.handle_incoming(&bytes, &a), Flow::Disconnect);
}
