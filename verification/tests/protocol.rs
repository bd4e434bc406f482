use scp_chat::codec::CodecError;
use scp_chat::protocol::{ErrorCode, Message, ProtocolFrame, MAX_MESSAGE_SIZE, PROTOCOL_VERSION};

#[test]
fn test_protocol_frame_serialization() {
    let message = Message::Connect { username: "test_user".to_string() };
    let frame = ProtocolFrame::new(message, Some("session123".to_string()), 1);

    let serialized = frame.serialize().unwrap();
    let deserialized = ProtocolFrame::deserialize(&serialized).unwrap();

    assert_eq!(frame, deserialized);
}

#[test]
fn test_message_validation() {
    let message = Message::Connect { username: "test".to_string() };
    assert!(!message.requires_auth());
    assert!(!message.requires_room());

    let message = Message::SendMessage { content: "hello".to_string() };
    assert!(message.requires_auth());
    assert!(message.requires_room());
}

#[test]
fn test_protocol_frame_validation_max_size() {
    let long_content = "a".repeat(MAX_MESSAGE_SIZE / 2);
    let message = Message::SendMessage { content: long_content };
    let frame = ProtocolFrame::new(message, Some("session_id".to_string()), 1);

    let result = frame.validate();
    assert!(result.is_ok(), "Should be OK for a message within size limits: {:?}", result);

    let super_long_content = "b".repeat(MAX_MESSAGE_SIZE + 100);
    let large_message = Message::SendMessage { content: super_long_content };
    let large_frame = ProtocolFrame::new(large_message, Some("session_id_2".to_string()), 2);

    let result_large = large_frame.validate();
    assert!(result_large.is_err());
    assert!(result_large.unwrap_err().contains("Message trop volumineux"));
}

fn round_trip(message: Message) {
    let frame = ProtocolFrame::new(message, Some("sid".to_string()), 7);
    let bytes = frame.serialize().unwrap();
    let back = ProtocolFrame::deserialize(&bytes).unwrap();
    assert_eq!(frame, back);
}

#[test]
fn round_trip_every_message_kind() {
    round_trip(Message::Connect { username: "ülrike".to_string() });
    round_trip(Message::JoinRoom { room_id: "general".to_string() });
    round_trip(Message::LeaveRoom);
    round_trip(Message::SendMessage { content: "hello world: 42".to_string() });
    round_trip(Message::PrivateMessage {
        target_user: "bob".to_string(),
        content: "psst".to_string(),
    });
    round_trip(Message::ListRooms);
    round_trip(Message::ListUsers);
    round_trip(Message::Disconnect);
    round_trip(Message::ConnectAck {
        client_id: "c1".to_string(),
        message: "Bienvenue, a !".to_string(),
    });
    round_trip(Message::ConnectError { reason: "pris".to_string() });
    round_trip(Message::JoinRoomAck {
        room_id: "tech".to_string(),
        users: vec!["a".to_string(), "b".to_string(), "".to_string()],
    });
    round_trip(Message::JoinRoomError { reason: "inexistant".to_string() });
    round_trip(Message::UserJoined { username: "a".to_string(), room_id: "r".to_string() });
    round_trip(Message::UserLeft { username: "a".to_string(), room_id: "r".to_string() });
    round_trip(Message::RoomMessage {
        from: "a".to_string(),
        content: "x".to_string(),
        timestamp: "2021-01-01T00:00:00+00:00".to_string(),
        room_id: "r".to_string(),
    });
    round_trip(Message::PrivateMessageReceived {
        from: "a".to_string(),
        content: "x".to_string(),
        timestamp: "2021-01-01T00:00:00+00:00".to_string(),
    });
    round_trip(Message::RoomList {
        rooms: vec![("general".to_string(), 2), ("tech".to_string(), 0)],
    });
    round_trip(Message::UserList {
        users: vec!["a".to_string()],
        room_id: "general".to_string(),
    });
    round_trip(Message::Error {
        code: ErrorCode::InvalidState,
        message: "nope".to_string(),
    });
    round_trip(Message::Ping);
    round_trip(Message::Pong);
}

#[test]
fn round_trip_every_error_code() {
    for code in [
        ErrorCode::UsernameAlreadyTaken,
        ErrorCode::RoomNotFound,
        ErrorCode::UserNotFound,
        ErrorCode::InvalidState,
        ErrorCode::InvalidFormat,
        ErrorCode::MessageTooLarge,
        ErrorCode::RateLimitExceeded,
        ErrorCode::InternalError,
    ] {
        round_trip(Message::Error { code, message: "m".to_string() });
    }
}

#[test]
fn deserialize_rejects_bad_payloads() {
    // not UTF-8
    let r = ProtocolFrame::deserialize(&[0xff, 0xfe, 0x01]);
    assert_eq!(r.unwrap_err(), CodecError::InvalidUtf8);
    // valid UTF-8 but no frame
    let r = ProtocolFrame::deserialize(b"not a frame at all");
    assert_eq!(r.unwrap_err(), CodecError::Malformed);
    // trailing garbage after a valid frame is refused
    let frame = ProtocolFrame::new(Message::Ping, None, 0);
    let mut bytes = frame.serialize().unwrap();
    bytes.push(b'x');
    assert_eq!(ProtocolFrame::deserialize(&bytes).unwrap_err(), CodecError::Malformed);
}

#[test]
fn frame_new_stamps_version_and_fields() {
    let f = ProtocolFrame::new(Message::Ping, None, 9);
    assert_eq!(f.version, PROTOCOL_VERSION);
    assert_eq!(f.sequence, 9);
    assert_eq!(f.session_id, None);
    assert!(!f.timestamp.is_empty());
}

#[test]
fn validate_rejects_foreign_version() {
    let mut f = ProtocolFrame::new(Message::Ping, None, 0);
    f.version = 2;
    assert!(f.validate().is_err());
}

#[test]
fn encoding_has_the_documented_exact_shape() {
    // fixed-width decimal numbers, length-prefixed strings, tagged payload
    let frame = ProtocolFrame {
        version: 1,
        session_id: None,
        sequence: 5,
        message: Message::Ping,
        timestamp: "t".to_string(),
    };
    let bytes = frame.serialize().unwrap();
    // version, no session id, sequence, timestamp, tagged payload
    let expected = "00000000000000000001\
0\
00000000000000000005\
00000000000000000001t\
00000000000000000004Ping";
    assert_eq!(bytes, expected.as_bytes());
    assert_eq!(ProtocolFrame::deserialize(&bytes).unwrap(), frame);
}

#[test]
fn encoding_with_session_id_and_fields() {
    let frame = ProtocolFrame {
        version: 1,
        session_id: Some("s1".to_string()),
        sequence: 0,
        message: Message::Connect { username: "ab".to_string() },
        timestamp: "".to_string(),
    };
    let bytes = frame.serialize().unwrap();
    let expected = "00000000000000000001\
1\
00000000000000000002s1\
00000000000000000000\
00000000000000000000\
00000000000000000007Connect\
00000000000000000002ab";
    assert_eq!(bytes, expected.as_bytes());
}

#[test]
fn validate_boundary_is_exact() {
    // with these fixed fields the encoded overhead around the content is
    // 112 bytes, so 65424 content bytes sit exactly at MAX_MESSAGE_SIZE
    let at_limit = ProtocolFrame {
        version: 1,
        session_id: None,
        sequence: 0,
        message: Message::SendMessage { content: "a".repeat(65424) },
        timestamp: "".to_string(),
    };
    assert_eq!(at_limit.serialize().unwrap().len(), MAX_MESSAGE_SIZE);
    assert!(at_limit.validate().is_ok());

    let over = ProtocolFrame {
        version: 1,
        session_id: None,
        sequence: 0,
        message: Message::SendMessage { content: "a".repeat(65425) },
        timestamp: "".to_string(),
    };
    assert_eq!(over.validate().unwrap_err(), "Message trop volumineux".to_string());
}
