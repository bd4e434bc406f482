//! The reference client's logic: its local mirror of the session state,
//! the command parser that turns input lines into protocol requests, and
//! the state updates drawn from server acknowledgements.

use crate::protocol::{Message, MessageV, ProtocolFrame, SessionState, SessionStateV,
    PROTOCOL_VERSION};
use crate::strutil::str_eq;
use vstd::prelude::*;

verus! {

/// The client's mirror of its server-side session, updated only from
/// server acknowledgements and notifications.
#[derive(Debug)]
pub struct ClientLocalState {
    pub id: Option<String>,
    pub username: Option<String>,
    pub current_room: Option<String>,
    pub session_state: SessionState,
}

/// Mathematical view of the client's local state.
#[verifier::ext_equal]
pub struct LocalV {
    pub id: Option<Seq<char>>,
    pub username: Option<Seq<char>>,
    pub current_room: Option<Seq<char>>,
    pub session_state: SessionStateV,
}

impl View for ClientLocalState {
    type V = LocalV;

    open spec fn view(&self) -> LocalV {
        LocalV {
            id: self.id.deep_view(),
            username: self.username.deep_view(),
            current_room: self.current_room.deep_view(),
            session_state: self.session_state@,
        }
    }
}

impl ClientLocalState {
    /// A fresh mirror: nothing known yet.
    pub fn new() -> (r: ClientLocalState)
        ensures
            (r@.id is None),
            (r@.username is None),
            (r@.current_room is None),
            r@.session_state == SessionStateV::Connected,
    {
        ClientLocalState {
            id: None,
            username: None,
            current_room: None,
            session_state: SessionState::Connected,
        }
    }

    /// Overwrite the mirrored session state.
    pub fn update_state(&mut self, new_state: SessionState)
        ensures
            final(self)@.session_state == new_state@,
            final(self)@.id == old(self)@.id,
            final(self)@.username == old(self)@.username,
            final(self)@.current_room == old(self)@.current_room,
    {
        self.session_state = new_state;
    }
}

/// A command typed at the client.
#[derive(Debug, PartialEq)]
pub enum ClientCommand {
    Connect(String),
    JoinRoom(String),
    LeaveRoom,
    SendMessage(String),
    PrivateMessage(String, String),
    ListRooms,
    ListUsers,
    Disconnect,
    Ping,
}

/// Mathematical view of a command.
#[verifier::ext_equal]
pub enum CmdV {
    Connect(Seq<char>),
    JoinRoom(Seq<char>),
    LeaveRoom,
    SendMessage(Seq<char>),
    PrivateMessage(Seq<char>, Seq<char>),
    ListRooms,
    ListUsers,
    Disconnect,
    Ping,
}

impl View for ClientCommand {
    type V = CmdV;

    open spec fn view(&self) -> CmdV {
        match self {
            ClientCommand::Connect(u) => CmdV::Connect(u@),
            ClientCommand::JoinRoom(r) => CmdV::JoinRoom(r@),
            ClientCommand::LeaveRoom => CmdV::LeaveRoom,
            ClientCommand::SendMessage(t) => CmdV::SendMessage(t@),
            ClientCommand::PrivateMessage(u, t) => CmdV::PrivateMessage(u@, t@),
            ClientCommand::ListRooms => CmdV::ListRooms,
            ClientCommand::ListUsers => CmdV::ListUsers,
            ClientCommand::Disconnect => CmdV::Disconnect,
            ClientCommand::Ping => CmdV::Ping,
        }
    }
}

impl DeepView for ClientCommand {
    type V = CmdV;

    open spec fn deep_view(&self) -> CmdV {
        self.view()
    }
}

pub open spec fn is_space_char(c: char) -> bool {
    c == ' ' || c == '\t' || c == '\r' || c == '\n'
}

/// The first position at or after `i` holding a non-space character, or
/// the length if there is none.
pub open spec fn first_non_space(s: Seq<char>, i: int) -> int
    decreases s.len() - i,
{
    if i < 0 || i >= s.len() {
        s.len() as int
    } else if is_space_char(s[i]) {
        first_non_space(s, i + 1)
    } else {
        i
    }
}

/// One past the last non-space character strictly before `j`, or 0 if
/// there is none.
pub open spec fn last_non_space(s: Seq<char>, j: int) -> int
    decreases j,
{
    if j <= 0 {
        0
    } else if is_space_char(s[j - 1]) {
        last_non_space(s, j - 1)
    } else {
        j
    }
}

/// The line without leading and trailing whitespace.
pub open spec fn trim_spec(s: Seq<char>) -> Seq<char> {
    let a = first_non_space(s, 0);
    let b = last_non_space(s, s.len() as int);
    if a <= b {
        s.subrange(a, b)
    } else {
        Seq::empty()
    }
}

/// The first position at or after `i` holding a space, or the length.
pub open spec fn find_space(s: Seq<char>, i: int) -> int
    decreases s.len() - i,
{
    if i < 0 || i >= s.len() {
        s.len() as int
    } else if s[i] == ' ' {
        i
    } else {
        find_space(s, i + 1)
    }
}

/// What an input line means: the trimmed line is split at its first space
/// into a command word and an argument, and the word selects the request.
/// An empty line, an unknown word, or a missing argument means nothing.
pub open spec fn parse_cmd_spec(line: Seq<char>) -> Option<CmdV> {
    let t = trim_spec(line);
    if t.len() == 0 {
        None
    } else {
        let p = find_space(t, 0);
        let head = t.subrange(0, p);
        let rest: Option<Seq<char>> = if p < t.len() {
            Some(t.subrange(p + 1, t.len() as int))
        } else {
            None
        };
        if head == "/connect"@ {
            match rest {
                Some(a) => Some(CmdV::Connect(a)),
                None => None,
            }
        } else if head == "/join"@ {
            match rest {
                Some(a) => Some(CmdV::JoinRoom(a)),
                None => None,
            }
        } else if head == "/leave"@ {
            Some(CmdV::LeaveRoom)
        } else if head == "/msg"@ {
            match rest {
                Some(a) => Some(CmdV::SendMessage(a)),
                None => None,
            }
        } else if head == "/priv"@ {
            match rest {
                Some(a) => {
                    let q = find_space(a, 0);
                    if q < a.len() {
                        Some(CmdV::PrivateMessage(a.subrange(0, q), a.subrange(q + 1, a.len() as int)))
                    } else {
                        None
                    }
                },
                None => None,
            }
        } else if head == "/rooms"@ {
            Some(CmdV::ListRooms)
        } else if head == "/users"@ {
            Some(CmdV::ListUsers)
        } else if head == "/ping"@ {
            Some(CmdV::Ping)
        } else if head == "/quit"@ {
            Some(CmdV::Disconnect)
        } else {
            None
        }
    }
}

/// Whether a character counts as whitespace for trimming.
fn is_space_c(c: char) -> (r: bool)
    ensures
        r == is_space_char(c),
{
    c == ' ' || c == '\t' || c == '\r' || c == '\n'
}

/// Trim an input line.
fn trim_line(s: &str) -> (r: String)
    ensures
        r@ == trim_spec(s@),
{
    let n = s.unicode_len();
    let mut a: usize = 0;
    while a < n && is_space_c(s.get_char(a))
        invariant
            n == s@.len(),
            a <= n,
            first_non_space(s@, 0) == first_non_space(s@, a as int),
        decreases n - a,
    {
        a += 1;
    }
    let mut b: usize = n;
    while b > 0 && is_space_c(s.get_char(b - 1))
        invariant
            n == s@.len(),
            b <= n,
            last_non_space(s@, n as int) == last_non_space(s@, b as int),
        decreases b,
    {
        b -= 1;
    }
    if a <= b {
        String::from_str(s.substring_char(a, b))
    } else {
        String::new()
    }
}

/// The position of the first space in `s`, or its length.
fn find_space_at(s: &str) -> (r: usize)
    ensures
        r == find_space(s@, 0),
        r <= s@.len(),
{
    let n = s.unicode_len();
    let mut i: usize = 0;
    while i < n && s.get_char(i) != ' '
        invariant
            n == s@.len(),
            i <= n,
            find_space(s@, 0) == find_space(s@, i as int),
        decreases n - i,
    {
        i += 1;
    }
    i
}

/// Parse one input line into a command, if it means one.
pub fn parse_command(line: &str) -> (r: Option<ClientCommand>)
    ensures
        r.deep_view() == parse_cmd_spec(line@),
{
    let t = trim_line(line);
    let n = t.unicode_len();
    if n == 0 {
        return None;
    }
    let p = find_space_at(t.as_str());
    let head = String::from_str(t.as_str().substring_char(0, p));
    let rest: Option<String> = if p < n {
        Some(String::from_str(t.as_str().substring_char(p + 1, n)))
    } else {
        None
    };
    proof {
        assert(head@ =~= trim_spec(line@).subrange(0, find_space(trim_spec(line@), 0)));
        if p < n {
            assert(rest.deep_view() matches Some(a) && a =~= trim_spec(line@).subrange(
                p + 1,
                trim_spec(line@).len() as int,
            ));
        }
    }
    let h = head.as_str();
    if str_eq(h, "/connect") {
        match rest {
            Some(a) => Some(ClientCommand::Connect(a)),
            None => None,
        }
    } else if str_eq(h, "/join") {
        match rest {
            Some(a) => Some(ClientCommand::JoinRoom(a)),
            None => None,
        }
    } else if str_eq(h, "/leave") {
        Some(ClientCommand::LeaveRoom)
    } else if str_eq(h, "/msg") {
        match rest {
            Some(a) => Some(ClientCommand::SendMessage(a)),
            None => None,
        }
    } else if str_eq(h, "/priv") {
        match rest {
            Some(a) => {
                let q = find_space_at(a.as_str());
                let alen = a.unicode_len();
                if q < alen {
                    let target = String::from_str(a.as_str().substring_char(0, q));
                    let text = String::from_str(a.as_str().substring_char(q + 1, alen));
                    proof {
                        assert(target@ =~= a@.subrange(0, find_space(a@, 0)));
                        assert(text@ =~= a@.subrange(find_space(a@, 0) + 1, a@.len() as int));
                    }
                    Some(ClientCommand::PrivateMessage(target, text))
                } else {
                    None
                }
            },
            None => None,
        }
    } else if str_eq(h, "/rooms") {
        Some(ClientCommand::ListRooms)
    } else if str_eq(h, "/users") {
        Some(ClientCommand::ListUsers)
    } else if str_eq(h, "/ping") {
        Some(ClientCommand::Ping)
    } else if str_eq(h, "/quit") {
        Some(ClientCommand::Disconnect)
    } else {
        None
    }
}

/// The protocol request a command stands for.
pub open spec fn msg_of_cmd(c: CmdV) -> MessageV {
    match c {
        CmdV::Connect(u) => MessageV::Connect { username: u },
        CmdV::JoinRoom(r) => MessageV::JoinRoom { room_id: r },
        CmdV::LeaveRoom => MessageV::LeaveRoom,
        CmdV::SendMessage(t) => MessageV::SendMessage { content: t },
        CmdV::PrivateMessage(u, t) => MessageV::PrivateMessage { target_user: u, content: t },
        CmdV::ListRooms => MessageV::ListRooms,
        CmdV::ListUsers => MessageV::ListUsers,
        CmdV::Disconnect => MessageV::Disconnect,
        CmdV::Ping => MessageV::Ping,
    }
}

/// Wrap a command in a request frame carrying the mirrored session id and
/// sequence zero.
pub fn process_client_command(command: ClientCommand, client_state: &ClientLocalState) -> (r:
    Result<ProtocolFrame, String>)
    ensures
        r matches Ok(f) && f@.message == msg_of_cmd(command@) && f@.session_id == client_state@.id
            && f@.sequence == 0 && f@.version == PROTOCOL_VERSION,
{
    let message = match command {
        ClientCommand::Connect(username) => Message::Connect { username },
        ClientCommand::JoinRoom(room_id) => Message::JoinRoom { room_id },
        ClientCommand::LeaveRoom => Message::LeaveRoom,
        ClientCommand::SendMessage(content) => Message::SendMessage { content },
        ClientCommand::PrivateMessage(target_user, content) => Message::PrivateMessage {
            target_user,
            content,
        },
        ClientCommand::ListRooms => Message::ListRooms,
        ClientCommand::ListUsers => Message::ListUsers,
        ClientCommand::Disconnect => Message::Disconnect,
        ClientCommand::Ping => Message::Ping,
    };
    let session_id = match &client_state.id {
        None => None,
        Some(s) => Some(s.clone()),
    };
    Ok(ProtocolFrame::new(message, session_id, 0))
}

/// The position of the last occurrence of the welcome prefix at or before
/// `i`, or -1 if there is none.
pub open spec fn last_welcome_at(s: Seq<char>, i: int) -> int
    decreases i + 1,
{
    if i < 0 {
        -1
    } else if s.subrange(i, i + 11) == "Bienvenue, "@ {
        i
    } else {
        last_welcome_at(s, i - 1)
    }
}

/// The text without its trailing exclamation marks.
pub open spec fn strip_excl(s: Seq<char>) -> Seq<char>
    decreases s.len(),
{
    if s.len() > 0 && s.last() == '!' {
        strip_excl(s.drop_last())
    } else {
        s
    }
}

/// The username read out of a welcome text: what follows the last
/// occurrence of the welcome prefix (or the whole text if it is absent),
/// without trailing exclamation marks.
pub open spec fn welcome_name(m: Seq<char>) -> Seq<char> {
    let j = last_welcome_at(m, m.len() - 11);
    let tail = if j >= 0 {
        m.skip(j + 11)
    } else {
        m
    };
    strip_excl(tail)
}

/// Drop trailing exclamation marks.
fn strip_excl_str(s: &str) -> (r: String)
    ensures
        r@ == strip_excl(s@),
{
    let n = s.unicode_len();
    proof {
        assert(s@.subrange(0, n as int) =~= s@);
    }
    let mut b: usize = n;
    while b > 0 && s.get_char(b - 1) == '!'
        invariant
            n == s@.len(),
            b <= n,
            strip_excl(s@) == strip_excl(s@.subrange(0, b as int)),
        decreases b,
    {
        proof {
            assert(s@.subrange(0, b as int).drop_last() =~= s@.subrange(0, b - 1));
        }
        b -= 1;
    }
    proof {
        if b > 0 {
            assert(strip_excl(s@.subrange(0, b as int)) == s@.subrange(0, b as int));
        } else {
            assert(s@.subrange(0, 0) =~= Seq::<char>::empty());
        }
    }
    String::from_str(s.substring_char(0, b))
}

/// Read the username out of a welcome text.
fn extract_welcome_name(m: &str) -> (r: String)
    ensures
        r@ == welcome_name(m@),
{
    let n = m.unicode_len();
    if n >= 11 {
        let mut i: usize = n - 10;
        while i > 0
            invariant
                n == m@.len(),
                n >= 11,
                i <= n - 10,
                last_welcome_at(m@, n - 11) == last_welcome_at(m@, i - 1),
            decreases i,
        {
            let pos = i - 1;
            let sub = m.substring_char(pos, pos + 11);
            if str_eq(sub, "Bienvenue, ") {
                proof {
                    assert(m@.subrange(pos as int, pos + 11) == "Bienvenue, "@);
                    assert(last_welcome_at(m@, n - 11) == pos);
                }
                let tail = m.substring_char(pos + 11, n);
                proof {
                    assert(tail@ =~= m@.skip(pos + 11));
                }
                return strip_excl_str(tail);
            }
            proof {
                assert(m@.subrange(pos as int, pos + 11) != "Bienvenue, "@);
            }
            i -= 1;
        }
        proof {
            assert(last_welcome_at(m@, n - 11) == -1);
        }
    } else {
        proof {
            assert(last_welcome_at(m@, n - 11) == -1) by {
                assert(n - 11 < 0);
            }
        }
    }
    strip_excl_str(m)
}

/// Update the mirror from one server message: acknowledgements set the
/// identity, the username and the state; everything else leaves the
/// mirror as it was.
pub fn apply_server_message(state: &mut ClientLocalState, message: &Message)
    ensures
        (message@ matches MessageV::ConnectAck { client_id, message: text } ==> final(state)@
            == (LocalV {
            id: Some(client_id),
            username: Some(welcome_name(text)),
            session_state: SessionStateV::Authenticated(welcome_name(text)),
            ..old(state)@
        })),
        (message@ matches MessageV::ConnectError { .. } ==> final(state)@ == (LocalV {
            session_state: SessionStateV::Closed,
            ..old(state)@
        })),
        (message@ matches MessageV::JoinRoomAck { room_id, users: _ } ==> final(state)@
            == (LocalV {
            current_room: Some(room_id),
            session_state: match old(state)@.username {
                Some(u) => SessionStateV::InRoom(u, room_id),
                None => old(state)@.session_state,
            },
            ..old(state)@
        })),
        !((message@ matches MessageV::ConnectAck { .. }) || (
        message@ matches MessageV::ConnectError { .. }) || (
        message@ matches MessageV::JoinRoomAck { .. })) ==> final(state)@ == old(state)@,
{
    match message {
        Message::ConnectAck { client_id, message: text } => {
            state.id = Some(client_id.clone());
            let name = extract_welcome_name(text.as_str());
            state.username = Some(name.clone());
            state.update_state(SessionState::Authenticated(name));
            proof {
                assert(state@ =~= (LocalV {
                    id: Some(client_id@),
                    username: Some(welcome_name(text@)),
                    session_state: SessionStateV::Authenticated(welcome_name(text@)),
                    ..old(state)@
                }));
            }
        },
        Message::ConnectError { .. } => {
            state.update_state(SessionState::Closed);
            proof {
                assert(state@ =~= (LocalV { session_state: SessionStateV::Closed, ..old(state)@ }));
            }
        },
        Message::JoinRoomAck { room_id, .. } => {
            state.current_room = Some(room_id.clone());
            match &state.username {
                Some(u) => {
                    let uu = u.clone();
                    state.update_state(SessionState::InRoom(uu, room_id.clone()));
                },
                None => {},
            }
            proof {
                assert(state@ =~= (LocalV {
                    current_room: Some(room_id@),
                    session_state: match old(state)@.username {
                        Some(u) => SessionStateV::InRoom(u, room_id@),
                        None => old(state)@.session_state,
                    },
                    ..old(state)@
                }));
            }
        },
        _ => {},
    }
}

} // verus!
