use scp_chat::client::{parse_command, process_client_command, ClientCommand, ClientLocalState};
use scp_chat::protocol::{Message, SessionState, PROTOCOL_VERSION};
use scp_chat::wire::{decode_length_prefix, encode_length_prefix};

#[test]
fn command_lines_parse_as_documented() {
    assert_eq!(
        parse_command("/connect alice"),
        Some(ClientCommand::Connect("alice".to_string()))
    );
    assert_eq!(
        parse_command("  /join general \n"),
        Some(ClientCommand::JoinRoom("general".to_string()))
    );
    assert_eq!(parse_command("/leave"), Some(ClientCommand::LeaveRoom));
    assert_eq!(
        parse_command("/msg hello there"),
        Some(ClientCommand::SendMessage("hello there".to_string()))
    );
    assert_eq!(
        parse_command("/priv bob a secret"),
        Some(ClientCommand::PrivateMessage("bob".to_string(), "a secret".to_string()))
    );
    assert_eq!(parse_command("/rooms"), Some(ClientCommand::ListRooms));
    assert_eq!(parse_command("/users"), Some(ClientCommand::ListUsers));
    assert_eq!(parse_command("/ping"), Some(ClientCommand::Ping));
    assert_eq!(parse_command("/quit"), Some(ClientCommand::Disconnect));
    assert_eq!(parse_command(""), None);
    assert_eq!(parse_command("   "), None);
    assert_eq!(parse_command("/connect"), None);
    assert_eq!(parse_command("/priv bob"), None);
    assert_eq!(parse_command("/frobnicate x"), None);
    assert_eq!(parse_command("hello"), None);
}

#[test]
fn commands_become_frames_with_the_mirrored_session_id() {
    let mut state = ClientLocalState::new();
    state.id = Some("session-9".to_string());
    let frame =
        process_client_command(ClientCommand::Connect("alice".to_string()), &state).unwrap();
    assert_eq!(frame.version, PROTOCOL_VERSION);
    assert_eq!(frame.sequence, 0);
    assert_eq!(frame.session_id, Some("session-9".to_string()));
    assert_eq!(frame.message, Message::Connect { username: "alice".to_string() });
}

#[test]
fn server_acknowledgements_update_the_mirror() {
    let mut state = ClientLocalState::new();
    assert_eq!(state.session_state, SessionState::Connected);

    scp_chat::client::apply_server_message(
        &mut state,
        &Message::ConnectAck {
            client_id: "c7".to_string(),
            message: "Bienvenue, alice !".to_string(),
        },
    );
    assert_eq!(state.id, Some("c7".to_string()));
    // the welcome text parser keeps the space before the exclamation mark
    assert_eq!(state.username, Some("alice ".to_string()));
    assert_eq!(state.session_state, SessionState::Authenticated("alice ".to_string()));

    scp_chat::client::apply_server_message(
        &mut state,
        &Message::JoinRoomAck { room_id: "general".to_string(), users: vec![] },
    );
    assert_eq!(state.current_room, Some("general".to_string()));
    assert_eq!(
        state.session_state,
        SessionState::InRoom("alice ".to_string(), "general".to_string())
    );

    // notifications leave the mirror alone
    scp_chat::client::apply_server_message(&mut state, &Message::Pong);
    assert_eq!(state.current_room, Some("general".to_string()));

    scp_chat::client::apply_server_message(
        &mut state,
        &Message::ConnectError { reason: "pris".to_string() },
    );
    assert_eq!(state.session_state, SessionState::Closed);
}

#[test]
fn length_prefix_round_trips_big_endian() {
    let bytes = encode_length_prefix(0x0102_0304);
    assert_eq!(bytes, vec![1, 2, 3, 4]);
    assert_eq!(decode_length_prefix(&bytes), Some(0x0102_0304));
    assert_eq!(decode_length_prefix(&[1, 2, 3]), None);
    assert_eq!(decode_length_prefix(&encode_length_prefix(u32::MAX)), Some(u32::MAX));
    assert_eq!(decode_length_prefix(&encode_length_prefix(0)), Some(0));
}
