//! Core protocol data types: session states, message variants, error codes,
//! and the frame envelope exchanged on the wire, together with their
//! mathematical views.

use vstd::prelude::*;

verus! {

/// Protocol version carried in every frame.
pub const PROTOCOL_VERSION: u8 = 1;

/// Upper bound, in bytes, on the encoded payload of a frame (64 KiB).
pub const MAX_MESSAGE_SIZE: usize = 65536;

/// States of one connection's session, as the server tracks it.
#[derive(Debug, PartialEq)]
pub enum SessionState {
    /// Connected but not yet authenticated.
    Connected,
    /// Authenticated under a username.
    Authenticated(String),
    /// Authenticated and member of a room: (username, room id).
    InRoom(String, String),
    /// Session closed.
    Closed,
}

/// Mathematical view of a `SessionState`: usernames and room ids as
/// character sequences.
#[verifier::ext_equal]
pub enum SessionStateV {
    Connected,
    Authenticated(Seq<char>),
    InRoom(Seq<char>, Seq<char>),
    Closed,
}

impl View for SessionState {
    type V = SessionStateV;

    open spec fn view(&self) -> SessionStateV {
        match self {
            SessionState::Connected => SessionStateV::Connected,
            SessionState::Authenticated(u) => SessionStateV::Authenticated(u@),
            SessionState::InRoom(u, r) => SessionStateV::InRoom(u@, r@),
            SessionState::Closed => SessionStateV::Closed,
        }
    }
}

/// Error codes of the protocol.
#[derive(Debug, Clone, Copy, PartialEq, Eq, Structural)]
pub enum ErrorCode {
    /// Username already held by another session.
    UsernameAlreadyTaken,
    /// No room with the requested id.
    RoomNotFound,
    /// No user with the requested name.
    UserNotFound,
    /// The request is not allowed in the session's current state.
    InvalidState,
    /// The frame or payload could not be decoded, or went the wrong way.
    InvalidFormat,
    /// The encoded payload exceeds `MAX_MESSAGE_SIZE`.
    MessageTooLarge,
    /// Reserved; never produced.
    RateLimitExceeded,
    /// Defensive catch-all for states that should be unreachable.
    InternalError,
}

/// The closed set of protocol messages: client requests and server
/// responses/notifications.
#[derive(Debug, PartialEq)]
pub enum Message {
    // Client to server.
    Connect { username: String },
    JoinRoom { room_id: String },
    LeaveRoom,
    SendMessage { content: String },
    PrivateMessage { target_user: String, content: String },
    ListRooms,
    ListUsers,
    Disconnect,
    // Server to client.
    ConnectAck { client_id: String, message: String },
    ConnectError { reason: String },
    JoinRoomAck { room_id: String, users: Vec<String> },
    JoinRoomError { reason: String },
    UserJoined { username: String, room_id: String },
    UserLeft { username: String, room_id: String },
    RoomMessage { from: String, content: String, timestamp: String, room_id: String },
    PrivateMessageReceived { from: String, content: String, timestamp: String },
    RoomList { rooms: Vec<(String, u64)> },
    UserList { users: Vec<String>, room_id: String },
    Error { code: ErrorCode, message: String },
    Ping,
    Pong,
}

/// Mathematical view of a `Message`: every string as a `Seq<char>`.
#[verifier::ext_equal]
pub enum MessageV {
    Connect { username: Seq<char> },
    JoinRoom { room_id: Seq<char> },
    LeaveRoom,
    SendMessage { content: Seq<char> },
    PrivateMessage { target_user: Seq<char>, content: Seq<char> },
    ListRooms,
    ListUsers,
    Disconnect,
    ConnectAck { client_id: Seq<char>, message: Seq<char> },
    ConnectError { reason: Seq<char> },
    JoinRoomAck { room_id: Seq<char>, users: Seq<Seq<char>> },
    JoinRoomError { reason: Seq<char> },
    UserJoined { username: Seq<char>, room_id: Seq<char> },
    UserLeft { username: Seq<char>, room_id: Seq<char> },
    RoomMessage { from: Seq<char>, content: Seq<char>, timestamp: Seq<char>, room_id: Seq<char> },
    PrivateMessageReceived { from: Seq<char>, content: Seq<char>, timestamp: Seq<char> },
    RoomList { rooms: Seq<(Seq<char>, u64)> },
    UserList { users: Seq<Seq<char>>, room_id: Seq<char> },
    Error { code: ErrorCode, message: Seq<char> },
    Ping,
    Pong,
}

impl View for Message {
    type V = MessageV;

    open spec fn view(&self) -> MessageV {
        match self {
            Message::Connect { username } => MessageV::Connect { username: username@ },
            Message::JoinRoom { room_id } => MessageV::JoinRoom { room_id: room_id@ },
            Message::LeaveRoom => MessageV::LeaveRoom,
            Message::SendMessage { content } => MessageV::SendMessage { content: content@ },
            Message::PrivateMessage { target_user, content } => MessageV::PrivateMessage {
                target_user: target_user@,
                content: content@,
            },
            Message::ListRooms => MessageV::ListRooms,
            Message::ListUsers => MessageV::ListUsers,
            Message::Disconnect => MessageV::Disconnect,
            Message::ConnectAck { client_id, message } => MessageV::ConnectAck {
                client_id: client_id@,
                message: message@,
            },
            Message::ConnectError { reason } => MessageV::ConnectError { reason: reason@ },
            Message::JoinRoomAck { room_id, users } => MessageV::JoinRoomAck {
                room_id: room_id@,
                users: users.deep_view(),
            },
            Message::JoinRoomError { reason } => MessageV::JoinRoomError { reason: reason@ },
            Message::UserJoined { username, room_id } => MessageV::UserJoined {
                username: username@,
                room_id: room_id@,
            },
            Message::UserLeft { username, room_id } => MessageV::UserLeft {
                username: username@,
                room_id: room_id@,
            },
            Message::RoomMessage { from, content, timestamp, room_id } => MessageV::RoomMessage {
                from: from@,
                content: content@,
                timestamp: timestamp@,
                room_id: room_id@,
            },
            Message::PrivateMessageReceived { from, content, timestamp } => {
                MessageV::PrivateMessageReceived {
                    from: from@,
                    content: content@,
                    timestamp: timestamp@,
                }
            },
            Message::RoomList { rooms } => MessageV::RoomList { rooms: rooms.deep_view() },
            Message::UserList { users, room_id } => MessageV::UserList {
                users: users.deep_view(),
                room_id: room_id@,
            },
            Message::Error { code, message } => MessageV::Error {
                code: *code,
                message: message@,
            },
            Message::Ping => MessageV::Ping,
            Message::Pong => MessageV::Pong,
        }
    }
}

/// True for the message kinds a client may only send once authenticated.
pub open spec fn spec_requires_auth(m: MessageV) -> bool {
    match m {
        MessageV::JoinRoom { .. } => true,
        MessageV::LeaveRoom => true,
        MessageV::SendMessage { .. } => true,
        MessageV::PrivateMessage { .. } => true,
        MessageV::ListRooms => true,
        MessageV::ListUsers => true,
        MessageV::Disconnect => true,
        _ => false,
    }
}

/// True for the message kinds a client may only send while in a room.
pub open spec fn spec_requires_room(m: MessageV) -> bool {
    match m {
        MessageV::SendMessage { .. } => true,
        MessageV::ListUsers => true,
        _ => false,
    }
}

impl Message {
    /// Whether this request demands an authenticated session.
    pub fn requires_auth(&self) -> (r: bool)
        ensures
            r == spec_requires_auth(self@),
    {
        matches!(self,
            Message::JoinRoom { .. }
            | Message::LeaveRoom
            | Message::SendMessage { .. }
            | Message::PrivateMessage { .. }
            | Message::ListRooms
            | Message::ListUsers
            | Message::Disconnect)
    }

    /// Whether this request demands a session that is in a room.
    pub fn requires_room(&self) -> (r: bool)
        ensures
            r == spec_requires_room(self@),
    {
        matches!(self, Message::SendMessage { .. } | Message::ListUsers)
    }
}

/// The envelope exchanged on the wire: version, optional session id,
/// sequence number, payload, and a send timestamp.
#[derive(Debug, PartialEq)]
pub struct ProtocolFrame {
    pub version: u8,
    pub session_id: Option<String>,
    pub sequence: u64,
    pub message: Message,
    pub timestamp: String,
}

/// Mathematical view of a `ProtocolFrame`.
#[verifier::ext_equal]
pub struct FrameV {
    pub version: u8,
    pub session_id: Option<Seq<char>>,
    pub sequence: u64,
    pub message: MessageV,
    pub timestamp: Seq<char>,
}

impl View for ProtocolFrame {
    type V = FrameV;

    open spec fn view(&self) -> FrameV {
        FrameV {
            version: self.version,
            session_id: self.session_id.deep_view(),
            sequence: self.sequence,
            message: self.message@,
            timestamp: self.timestamp@,
        }
    }
}

impl DeepView for SessionState {
    type V = SessionStateV;

    open spec fn deep_view(&self) -> SessionStateV {
        self.view()
    }
}

impl DeepView for Message {
    type V = MessageV;

    open spec fn deep_view(&self) -> MessageV {
        self.view()
    }
}

impl DeepView for ProtocolFrame {
    type V = FrameV;

    open spec fn deep_view(&self) -> FrameV {
        self.view()
    }
}

/// Copy a list of strings, character for character.
fn clone_strings(v: &Vec<String>) -> (r: Vec<String>)
    ensures
        r@ =~= v@,
{
    let mut r: Vec<String> = Vec::new();
    let mut i: usize = 0;
    while i < v.len()
        invariant
            i <= v.len(),
            r@ =~= v@.take(i as int),
        decreases v.len() - i,
    {
        r.push(v[i].clone());
        proof {
            assert(r@ =~= v@.take(i + 1));
        }
        i += 1;
    }
    proof {
        assert(v@.take(v@.len() as int) =~= v@);
    }
    r
}

/// Copy a list of (string, number) pairs.
fn clone_pairs(v: &Vec<(String, u64)>) -> (r: Vec<(String, u64)>)
    ensures
        r@ =~= v@,
{
    let mut r: Vec<(String, u64)> = Vec::new();
    let mut i: usize = 0;
    while i < v.len()
        invariant
            i <= v.len(),
            r@ =~= v@.take(i as int),
        decreases v.len() - i,
    {
        let p = &v[i];
        r.push((p.0.clone(), p.1));
        proof {
            assert(r@ =~= v@.take(i + 1));
        }
        i += 1;
    }
    proof {
        assert(v@.take(v@.len() as int) =~= v@);
    }
    r
}

impl Clone for SessionState {
    /// A copy that denotes the same state.
    fn clone(&self) -> (r: Self)
        ensures
            r@ == self@,
    {
        match self {
            SessionState::Connected => SessionState::Connected,
            SessionState::Authenticated(u) => SessionState::Authenticated(u.clone()),
            SessionState::InRoom(u, rid) => SessionState::InRoom(u.clone(), rid.clone()),
            SessionState::Closed => SessionState::Closed,
        }
    }
}

impl Clone for Message {
    /// A copy that denotes the same message.
    fn clone(&self) -> (r: Self)
        ensures
            r@ == self@,
    {
        match self {
            Message::Connect { username } => Message::Connect { username: username.clone() },
            Message::JoinRoom { room_id } => Message::JoinRoom { room_id: room_id.clone() },
            Message::LeaveRoom => Message::LeaveRoom,
            Message::SendMessage { content } => Message::SendMessage { content: content.clone() },
            Message::PrivateMessage { target_user, content } => Message::PrivateMessage {
                target_user: target_user.clone(),
                content: content.clone(),
            },
            Message::ListRooms => Message::ListRooms,
            Message::ListUsers => Message::ListUsers,
            Message::Disconnect => Message::Disconnect,
            Message::ConnectAck { client_id, message } => Message::ConnectAck {
                client_id: client_id.clone(),
                message: message.clone(),
            },
            Message::ConnectError { reason } => Message::ConnectError { reason: reason.clone() },
            Message::JoinRoomAck { room_id, users } => Message::JoinRoomAck {
                room_id: room_id.clone(),
                users: clone_strings(users),
            },
            Message::JoinRoomError { reason } => Message::JoinRoomError { reason: reason.clone() },
            Message::UserJoined { username, room_id } => Message::UserJoined {
                username: username.clone(),
                room_id: room_id.clone(),
            },
            Message::UserLeft { username, room_id } => Message::UserLeft {
                username: username.clone(),
                room_id: room_id.clone(),
            },
            Message::RoomMessage { from, content, timestamp, room_id } => Message::RoomMessage {
                from: from.clone(),
                content: content.clone(),
                timestamp: timestamp.clone(),
                room_id: room_id.clone(),
            },
            Message::PrivateMessageReceived { from, content, timestamp } => {
                Message::PrivateMessageReceived {
                    from: from.clone(),
                    content: content.clone(),
                    timestamp: timestamp.clone(),
                }
            },
            Message::RoomList { rooms } => Message::RoomList { rooms: clone_pairs(rooms) },
            Message::UserList { users, room_id } => Message::UserList {
                users: clone_strings(users),
                room_id: room_id.clone(),
            },
            Message::Error { code, message } => Message::Error {
                code: *code,
                message: message.clone(),
            },
            Message::Ping => Message::Ping,
            Message::Pong => Message::Pong,
        }
    }
}

impl Clone for ProtocolFrame {
    /// A copy that denotes the same frame.
    fn clone(&self) -> (r: Self)
        ensures
            r@ == self@,
    {
        ProtocolFrame {
            version: self.version,
            session_id: match &self.session_id {
                None => None,
                Some(s) => Some(s.clone()),
            },
            sequence: self.sequence,
            message: self.message.clone(),
            timestamp: self.timestamp.clone(),
        }
    }
}

} // verus!
