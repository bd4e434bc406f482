//! The per-message server logic: frame validation, the session state
//! machine's precondition checks, and dispatch to the directory's
//! operations, with every response and notification enqueued on the
//! affected clients' outbound queues.

use crate::codec::frame_enc;
use crate::directory::{has_client, has_room, has_user, join_ok, join_ok_at,
    lemma_wf_same_components, pushed_msg, pushed_private, wf_state, ServerState, StateV};
use crate::protocol::{spec_requires_auth, spec_requires_room, ErrorCode, FrameV, Message,
    MessageV, ProtocolFrame, SessionState, SessionStateV, MAX_MESSAGE_SIZE, PROTOCOL_VERSION};
use vstd::prelude::*;

verus! {

/// What the connection handler should do after one inbound frame.
#[derive(Debug, Clone, Copy, PartialEq, Eq, Structural)]
pub enum Flow {
    /// Keep serving the connection.
    Continue,
    /// Tear the connection down.
    Disconnect,
}

/// Exactly one frame carrying this message was pushed onto queue `i`; all
/// other queues and the rest of the directory are unchanged.
pub open spec fn replied_only(os: StateV, ns: StateV, i: int, m: MessageV) -> bool {
    &&& ns.clients == os.clients
    &&& ns.rooms == os.rooms
    &&& ns.registry == os.registry
    &&& ns.outbound.len() == os.outbound.len()
    &&& 0 <= i < os.clients.len()
    &&& pushed_msg(os.outbound[i], ns.outbound[i], m, Some(os.clients[i].id))
    &&& forall|j: int|
        0 <= j < os.outbound.len() && j != i ==> #[trigger] ns.outbound[j] == os.outbound[j]
}

/// An `Error` frame with this code was pushed onto queue `i` and nothing
/// else in the directory changed.
pub open spec fn rejected_only(os: StateV, ns: StateV, i: int, code: ErrorCode) -> bool {
    &&& ns.clients == os.clients
    &&& ns.rooms == os.rooms
    &&& ns.registry == os.registry
    &&& ns.outbound.len() == os.outbound.len()
    &&& 0 <= i < os.clients.len()
    &&& (ns.outbound[i].len() == os.outbound[i].len() + 1 && ns.outbound[i].subrange(
        0,
        os.outbound[i].len() as int,
    ) == os.outbound[i] && (ns.outbound[i].last().message matches MessageV::Error {
        code: c,
        message: _,
    } && c == code))
    &&& forall|j: int|
        0 <= j < os.outbound.len() && j != i ==> #[trigger] ns.outbound[j] == os.outbound[j]
}


/// The queue gained exactly one room-message frame from this sender with
/// this content in this room (its timestamp is whatever the clock gave).
pub open spec fn pushed_room(
    oldq: Seq<FrameV>,
    newq: Seq<FrameV>,
    from: Seq<char>,
    content: Seq<char>,
    rid: Seq<char>,
) -> bool {
    &&& newq.len() == oldq.len() + 1
    &&& newq.subrange(0, oldq.len() as int) == oldq
    &&& (newq.last().message matches MessageV::RoomMessage {
        from: f,
        content: c,
        timestamp: _,
        room_id: r,
    } && f == from && c == content && r == rid)
    &&& (newq.last().session_id is None)
    &&& newq.last().version == PROTOCOL_VERSION
    &&& newq.last().sequence == 0
}


/// What `handle_connect` did, as a relation between the directory before
/// and after: on success the session is authenticated, registered, and
/// acknowledged with the welcome text; on failure nothing changes but one
/// `ConnectError` frame, and only for a taken name, an unknown client, or
/// a session past `Connected`.
pub open spec fn connect_post(
    os: StateV,
    ns: StateV,
    cid: Seq<char>,
    username: Seq<char>,
    r: Result<(), String>,
) -> bool {
    match r {
        Ok(()) => {
            &&& !has_user(os, username)
            &&& ns.registry =~= os.registry.push((username, cid))
            &&& ns.rooms == os.rooms
            &&& exists|i: int|
                {
                    &&& 0 <= i < os.clients.len()
                    &&& (#[trigger] os.clients[i]).id == cid
                    &&& os.clients[i].session_state == SessionStateV::Connected
                    &&& ns.clients[i].session_state == SessionStateV::Authenticated(username)
                    &&& pushed_msg(
                        os.outbound[i],
                        ns.outbound[i],
                        MessageV::ConnectAck {
                            client_id: cid,
                            message: "Bienvenue, "@ + username + " !"@,
                        },
                        Some(cid),
                    )
                    &&& (forall|j: int|
                        0 <= j < os.outbound.len() && j != i ==> #[trigger] ns.outbound[j]
                            == os.outbound[j])
                }
        },
        Err(e) => {
            &&& ns.clients == os.clients
            &&& ns.rooms == os.rooms
            &&& ns.registry == os.registry
            &&& (has_client(os, cid) ==> exists|i: int|
                0 <= i < os.clients.len() && (#[trigger] os.clients[i]).id == cid && replied_only(
                    os,
                    ns,
                    i,
                    MessageV::ConnectError { reason: e@ },
                ))
            &&& (!has_client(os, cid) ==> ns.outbound == os.outbound)
            &&& (has_user(os, username) || !has_client(os, cid) || exists|i: int|
                0 <= i < os.clients.len() && (#[trigger] os.clients[i]).id == cid
                    && os.clients[i].session_state != SessionStateV::Connected)
        },
    }
}

/// What `handle_join_room` did: on success the join effect, the
/// acknowledgement to the mover and a `UserJoined` to the room's other
/// members; on failure one `JoinRoomError` frame and nothing else, and
/// only for an unknown client, an unauthenticated session, or an unknown
/// room.
pub open spec fn join_room_post(
    os: StateV,
    ns: StateV,
    cid: Seq<char>,
    rid: Seq<char>,
    r: Result<(), String>,
) -> bool {
    match r {
        Ok(()) => exists|mid: StateV, i: int, users: Seq<Seq<char>>|
            {
                &&& #[trigger] join_ok(os, mid, cid, rid, users)
                &&& 0 <= i < os.clients.len()
                &&& (#[trigger] os.clients[i]).id == cid
                &&& ns.clients == mid.clients
                &&& ns.rooms == mid.rooms
                &&& ns.registry == mid.registry
                &&& ns.outbound.len() == mid.outbound.len()
                &&& pushed_msg(
                    mid.outbound[i],
                    ns.outbound[i],
                    MessageV::JoinRoomAck { room_id: rid, users },
                    Some(cid),
                )
                &&& (forall|j: int|
                    0 <= j < mid.clients.len() && j != i ==> (if mid.clients[j].current_room
                        == Some(rid) {
                        pushed_msg(
                            mid.outbound[j],
                            #[trigger] ns.outbound[j],
                            MessageV::UserJoined {
                                username: os.clients[i].username->0,
                                room_id: rid,
                            },
                            None,
                        )
                    } else {
                        ns.outbound[j] == mid.outbound[j]
                    }))
            },
        Err(e) => {
            &&& ns.clients == os.clients
            &&& ns.rooms == os.rooms
            &&& ns.registry == os.registry
            &&& (has_client(os, cid) ==> exists|i: int|
                0 <= i < os.clients.len() && (#[trigger] os.clients[i]).id == cid && replied_only(
                    os,
                    ns,
                    i,
                    MessageV::JoinRoomError { reason: e@ },
                ))
            &&& (!has_client(os, cid) ==> ns.outbound == os.outbound)
            &&& (!has_client(os, cid) || (exists|i: int|
                0 <= i < os.clients.len() && (#[trigger] os.clients[i]).id == cid
                    && os.clients[i].username is None) || !has_room(os, rid))
        },
    }
}

/// What `handle_leave_room` did: on success the leave effect with its
/// `UserLeft` notices; on failure one `InvalidState` error frame and
/// nothing else, and only for an unknown client or a session that is not
/// in a room.
pub open spec fn leave_room_post(os: StateV, ns: StateV, cid: Seq<char>, r: Result<
    (),
    String,
>) -> bool {
    match r {
        Ok(()) => exists|i: int|
            0 <= i < os.clients.len() && (#[trigger] os.clients[i]).id == cid && (
            os.clients[i].current_room matches Some(rid) && os.clients[i].username matches Some(u)
                && ns.clients =~= os.clients.update(
                i,
                (crate::directory::ClientV {
                    current_room: None,
                    session_state: SessionStateV::Authenticated(u),
                    ..os.clients[i]
                }),
            ) && ns.registry == os.registry && (exists|k: int|
                0 <= k < os.rooms.len() && (#[trigger] os.rooms[k]).id == rid
                    && crate::directory::room_lost_member(os.rooms, ns.rooms, k, cid))
                && crate::directory::left_notice_sent(os, ns.outbound, i, u, rid)),
        Err(_) => {
            &&& ns.clients == os.clients
            &&& ns.rooms == os.rooms
            &&& ns.registry == os.registry
            &&& (has_client(os, cid) ==> exists|i: int|
                0 <= i < os.clients.len() && (#[trigger] os.clients[i]).id == cid && rejected_only(
                    os,
                    ns,
                    i,
                    ErrorCode::InvalidState,
                ))
            &&& (!has_client(os, cid) ==> ns.outbound == os.outbound)
            &&& (!has_client(os, cid) || (exists|i: int|
                0 <= i < os.clients.len() && (#[trigger] os.clients[i]).id == cid && (
                os.clients[i].username is None || os.clients[i].current_room is None)))
        },
    }
}

/// What `handle_send_message` did: on success every member of the
/// sender's room, the sender included, got exactly one room message; on
/// failure nothing changed at all, and only for an unknown client or a
/// session with no name or no room.
pub open spec fn send_message_post(
    os: StateV,
    ns: StateV,
    cid: Seq<char>,
    content: Seq<char>,
    r: Result<(), String>,
) -> bool {
    match r {
        Ok(()) => exists|i: int|
            0 <= i < os.clients.len() && (#[trigger] os.clients[i]).id == cid && (
            os.clients[i].current_room matches Some(rid) && os.clients[i].username matches Some(u)
                && ns.clients == os.clients && ns.rooms == os.rooms && ns.registry == os.registry
                && ns.outbound.len() == os.outbound.len() && (forall|j: int|
                0 <= j < os.clients.len() ==> (if os.clients[j].current_room == Some(rid) {
                    pushed_room(os.outbound[j], #[trigger] ns.outbound[j], u, content, rid)
                } else {
                    ns.outbound[j] == os.outbound[j]
                }))),
        Err(_) => ns == os && (!has_client(os, cid) || exists|i: int|
            0 <= i < os.clients.len() && (#[trigger] os.clients[i]).id == cid && (
            os.clients[i].username is None || os.clients[i].current_room is None)),
    }
}

/// What `handle_private_message` did: on success exactly the target's
/// queue gained the private message; on failure nothing changed but at
/// most one error frame, and only for an unknown client, an unnamed
/// session, a self-addressed message, or an unknown target.
pub open spec fn private_message_post(
    os: StateV,
    ns: StateV,
    cid: Seq<char>,
    target: Seq<char>,
    content: Seq<char>,
    r: Result<(), String>,
) -> bool {
    match r {
        Ok(()) => has_user(os, target) && (exists|i: int|
            0 <= i < os.clients.len() && (#[trigger] os.clients[i]).id == cid && (
            os.clients[i].username matches Some(u) && u != target && (forall|j: int|
                0 <= j < os.clients.len() ==> (if (exists|t: int|
                    0 <= t < os.registry.len() && (#[trigger] os.registry[t]).0 == target
                        && os.registry[t].1 == os.clients[j].id) {
                    pushed_private(
                        os.outbound[j],
                        #[trigger] ns.outbound[j],
                        u,
                        content,
                        Some(os.clients[j].id),
                    )
                } else {
                    ns.outbound[j] == os.outbound[j]
                })))) && ns.clients == os.clients && ns.rooms == os.rooms && ns.registry
            == os.registry,
        Err(_) => {
            &&& ns.clients == os.clients
            &&& ns.rooms == os.rooms
            &&& ns.registry == os.registry
            &&& (!has_client(os, cid) ==> ns == os)
            &&& (has_client(os, cid) ==> exists|i: int|
                0 <= i < os.clients.len() && (#[trigger] os.clients[i]).id == cid && (((
                os.clients[i].username is None) && ns == os) || (
                os.clients[i].username matches Some(u) && u == target && rejected_only(
                    os,
                    ns,
                    i,
                    ErrorCode::InvalidState,
                )) || (os.clients[i].username matches Some(u) && u != target && !has_user(
                    os,
                    target,
                ) && rejected_only(os, ns, i, ErrorCode::UserNotFound))))
        },
    }
}

/// What `handle_list_rooms` did: the asking session got exactly one
/// `RoomList` with every room's id and member count, in room order.
pub open spec fn list_rooms_post(os: StateV, ns: StateV, cid: Seq<char>, r: Result<
    (),
    String,
>) -> bool {
    &&& (r is Ok)
    &&& (has_client(os, cid) ==> exists|i: int|
        0 <= i < os.clients.len() && (#[trigger] os.clients[i]).id == cid && replied_only(
            os,
            ns,
            i,
            MessageV::RoomList {
                rooms: Seq::new(
                    os.rooms.len(),
                    |k: int| (os.rooms[k].id, os.rooms[k].users.len() as u64),
                ),
            },
        ))
    &&& (!has_client(os, cid) ==> ns == os)
}

/// What `handle_list_users` did: the asking session got exactly one
/// `UserList` with its room's member usernames; on failure nothing
/// changed, and only for an unknown client or a session in no room.
pub open spec fn list_users_post(os: StateV, ns: StateV, cid: Seq<char>, r: Result<
    (),
    String,
>) -> bool {
    match r {
        Ok(()) => exists|i: int, rk: int|
            {
                &&& 0 <= i < os.clients.len()
                &&& (#[trigger] os.clients[i]).id == cid
                &&& os.clients[i].current_room matches Some(rid) && 0 <= rk < os.rooms.len() && (
                #[trigger] os.rooms[rk]).id == rid && replied_only(
                    os,
                    ns,
                    i,
                    MessageV::UserList {
                        users: crate::directory::room_names(os.rooms[rk]),
                        room_id: rid,
                    },
                )
            },
        Err(_) => ns == os && (!has_client(os, cid) || exists|i: int|
            0 <= i < os.clients.len() && (#[trigger] os.clients[i]).id == cid
                && os.clients[i].current_room is None),
    }
}

/// What `handle_ping` did: the asking session got exactly one `Pong`.
pub open spec fn ping_post(os: StateV, ns: StateV, cid: Seq<char>, r: Result<(), String>) -> bool {
    &&& (r is Ok)
    &&& (has_client(os, cid) ==> exists|i: int|
        0 <= i < os.clients.len() && (#[trigger] os.clients[i]).id == cid && replied_only(
            os,
            ns,
            i,
            MessageV::Pong,
        ))
    &&& (!has_client(os, cid) ==> ns == os)
}


/// A message kind the server sends and a client must never send.
pub open spec fn server_to_client(m: MessageV) -> bool {
    match m {
        MessageV::ConnectAck { .. } => true,
        MessageV::ConnectError { .. } => true,
        MessageV::JoinRoomAck { .. } => true,
        MessageV::JoinRoomError { .. } => true,
        MessageV::UserJoined { .. } => true,
        MessageV::UserLeft { .. } => true,
        MessageV::RoomMessage { .. } => true,
        MessageV::PrivateMessageReceived { .. } => true,
        MessageV::RoomList { .. } => true,
        MessageV::UserList { .. } => true,
        MessageV::Error { .. } => true,
        MessageV::Pong => true,
        _ => false,
    }
}

/// The dispatcher's result without its `Flow`, for handing to the
/// per-request relations.
pub open spec fn as_unit(r: Result<Flow, String>) -> Result<(), String> {
    match r {
        Ok(_) => Ok(()),
        Err(e) => Err(e),
    }
}

/// What the dispatcher did for the session at position `i`, by request
/// kind: the state machine's gates reject with exactly one `InvalidState`
/// error, a server-to-client kind with one `InvalidFormat` error, and
/// each admitted request has its handler's stated effect.
pub open spec fn process_dispatch(
    os: StateV,
    ns: StateV,
    cid: Seq<char>,
    m: MessageV,
    i: int,
    r: Result<Flow, String>,
) -> bool {
    let st = os.clients[i].session_state;
    let authed = (st matches SessionStateV::Authenticated(_)) || (st matches SessionStateV::InRoom(
        _,
        _,
    ));
    let in_room = st matches SessionStateV::InRoom(_, _);
    &&& (m matches MessageV::Connect { username } ==> (if st == SessionStateV::Connected {
        (r matches Ok(f) ==> f == Flow::Continue) && connect_post(os, ns, cid, username, as_unit(r))
    } else {
        (r is Err) && rejected_only(os, ns, i, ErrorCode::InvalidState)
    }))
    &&& (spec_requires_auth(m) && !authed ==> (r is Err) && rejected_only(
        os,
        ns,
        i,
        ErrorCode::InvalidState,
    ))
    &&& (spec_requires_room(m) && !in_room ==> (r is Err) && rejected_only(
        os,
        ns,
        i,
        ErrorCode::InvalidState,
    ))
    &&& (m matches MessageV::JoinRoom { room_id } ==> (authed ==> (r matches Ok(f) ==> f
        == Flow::Continue) && join_room_post(os, ns, cid, room_id, as_unit(r))))
    &&& (m == MessageV::LeaveRoom && authed ==> (r matches Ok(f) ==> f == Flow::Continue)
        && leave_room_post(os, ns, cid, as_unit(r)))
    &&& (m matches MessageV::SendMessage { content } ==> (in_room ==> (r matches Ok(f) ==> f
        == Flow::Continue) && send_message_post(os, ns, cid, content, as_unit(r))))
    &&& (m matches MessageV::PrivateMessage { target_user, content } ==> (authed ==> (
    r matches Ok(f) ==> f == Flow::Continue) && private_message_post(
        os,
        ns,
        cid,
        target_user,
        content,
        as_unit(r),
    )))
    &&& (m == MessageV::ListRooms && authed ==> (r matches Ok(f) ==> f == Flow::Continue)
        && list_rooms_post(os, ns, cid, as_unit(r)))
    &&& (m == MessageV::ListUsers && in_room ==> (r matches Ok(f) ==> f == Flow::Continue)
        && list_users_post(os, ns, cid, as_unit(r)))
    &&& (m == MessageV::Disconnect && authed ==> r == Ok::<Flow, String>(Flow::Disconnect) && ns
        == os)
    &&& (m == MessageV::Ping ==> (r matches Ok(f) ==> f == Flow::Continue) && ping_post(
        os,
        ns,
        cid,
        as_unit(r),
    ))
    &&& (server_to_client(m) ==> (r is Err) && rejected_only(os, ns, i, ErrorCode::InvalidFormat))
}

/// What `process_message` did for one inbound frame: a foreign version or
/// an oversize payload asks for disconnection; past those, an unknown
/// session draws an internal error and no change, and the session's
/// request is dispatched as `process_dispatch` says.
pub open spec fn process_post(
    os: StateV,
    ns: StateV,
    cid: Seq<char>,
    fv: FrameV,
    r: Result<Flow, String>,
) -> bool {
    let oversize = vstd::utf8::encode_utf8(frame_enc(fv)).len() > MAX_MESSAGE_SIZE;
    &&& (fv.version != PROTOCOL_VERSION ==> r == Ok::<Flow, String>(Flow::Disconnect) && (
    has_client(os, cid) ==> exists|i: int|
        0 <= i < os.clients.len() && (#[trigger] os.clients[i]).id == cid && rejected_only(
            os,
            ns,
            i,
            ErrorCode::InvalidFormat,
        )))
    &&& (fv.version == PROTOCOL_VERSION && oversize ==> r == Ok::<Flow, String>(Flow::Disconnect)
        && (has_client(os, cid) ==> exists|i: int|
        0 <= i < os.clients.len() && (#[trigger] os.clients[i]).id == cid && rejected_only(
            os,
            ns,
            i,
            ErrorCode::MessageTooLarge,
        )))
    &&& (fv.version == PROTOCOL_VERSION && !oversize ==> {
        &&& (!has_client(os, cid) ==> (r is Err) && ns == os)
        &&& (forall|i: int|
            0 <= i < os.clients.len() && (#[trigger] os.clients[i]).id == cid
                ==> process_dispatch(os, ns, cid, fv.message, i, r))
    })
}

/// The chat server: it owns the directory and translates each inbound
/// message into directory operations, responses and notifications.
pub struct ChatServer {
    pub state: ServerState,
}

impl ChatServer {
    /// A server over a fresh directory with the startup rooms.
    pub fn new() -> (r: ChatServer)
        ensures
            wf_state(r.state@),
            r.state@.clients.len() == 0,
            r.state@.rooms.len() == 3,
    {
        ChatServer { state: ServerState::new() }
    }

    /// Authenticate the session and acknowledge with a welcome text, or
    /// report why the connection was refused.
    pub fn handle_connect(&mut self, client_id: &String, username: String) -> (r: Result<
        (),
        String,
    >)
        requires
            wf_state(old(self).state@),
        ensures
            wf_state(final(self).state@),
            connect_post(old(self).state@, final(self).state@, client_id@, username@, r),
    {
        let uc = username.clone();
        match self.state.authenticate_client(client_id, username) {
            Ok(()) => {
                let ghost mid = self.state@;
                let text = String::from_str("Bienvenue, ").concat(uc.as_str()).concat(" !");
                let response = Message::ConnectAck {
                    client_id: client_id.clone(),
                    message: text,
                };
                self.state.send_message_to_client(client_id, response);
                proof {
                    let s = self.state@;
                    let os = old(self).state@;
                    let i = choose|i: int|
                        0 <= i < os.clients.len() && #[trigger] os.clients[i].id == client_id@
                            && os.clients[i].session_state == SessionStateV::Connected
                            && mid.clients =~= os.clients.update(
                            i,
                            (crate::directory::ClientV {
                                username: Some(username@),
                                session_state: SessionStateV::Authenticated(username@),
                                ..os.clients[i]
                            }),
                        );
                    assert(mid.clients[i].id == client_id@);
                    assert forall|j: int|
                        0 <= j < mid.clients.len() && j != i implies mid.clients[j].id
                        != client_id@ by {
                        assert(mid.clients[j].id == os.clients[j].id);
                        assert(os.clients[j].id != os.clients[i].id);
                    }
                    assert(s.outbound.len() == s.clients.len());
                    lemma_wf_same_components(mid, s);
                }
                Ok(())
            },
            Err(e) => {
                let ghost mid = self.state@;
                let ec = e.clone();
                let response = Message::ConnectError { reason: ec };
                self.state.send_message_to_client(client_id, response);
                proof {
                    let s = self.state@;
                    assert(s.outbound.len() == s.clients.len());
                    lemma_wf_same_components(mid, s);
                    if has_client(mid, client_id@) {
                        let i = choose|i: int|
                            0 <= i < mid.clients.len() && #[trigger] mid.clients[i].id
                                == client_id@;
                        assert forall|j: int|
                            0 <= j < mid.clients.len() && j != i implies mid.clients[j].id
                            != client_id@ by {}
                        assert(replied_only(
                            mid,
                            s,
                            i,
                            MessageV::ConnectError { reason: e@ },
                        ));
                    }
                }
                Err(e)
            },
        }
    }

    /// Pong a ping.
    pub fn handle_ping(&mut self, client_id: &String) -> (r: Result<(), String>)
        requires
            wf_state(old(self).state@),
        ensures
            wf_state(final(self).state@),
            ping_post(old(self).state@, final(self).state@, client_id@, r),
    {
        let ghost os = self.state@;
        self.state.send_message_to_client(client_id, Message::Pong);
        proof {
            let s = self.state@;
            assert(s.outbound.len() == s.clients.len());
            lemma_wf_same_components(os, s);
            if has_client(os, client_id@) {
                let i = choose|i: int|
                    0 <= i < os.clients.len() && #[trigger] os.clients[i].id == client_id@;
                assert(replied_only(os, s, i, MessageV::Pong));
            } else {
                assert(s.outbound == os.outbound);
                assert(s =~= os);
            }
        }
        Ok(())
    }

    /// Send one `Error` frame with this code and text to the client, if it
    /// is known; nothing else changes.
    fn reject(&mut self, client_id: &String, code: ErrorCode, text: &str) -> (r: String)
        requires
            wf_state(old(self).state@),
        ensures
            wf_state(final(self).state@),
            r@ == text@,
            has_client(old(self).state@, client_id@) ==> exists|i: int|
                0 <= i < old(self).state@.clients.len() && (#[trigger] old(self).state@.clients[i]).id == client_id@ && rejected_only(
                    old(self).state@,
                    final(self).state@,
                    i,
                    code,
                ),
            !has_client(old(self).state@, client_id@) ==> final(self).state@ == old(self).state@,
    {
        let ghost os = self.state@;
        let msg = String::from_str(text);
        let out = msg.clone();
        self.state.send_message_to_client(
            client_id,
            Message::Error { code, message: msg },
        );
        proof {
            let s = self.state@;
            assert(s.outbound.len() == s.clients.len());
            lemma_wf_same_components(os, s);
            if has_client(os, client_id@) {
                let i = choose|i: int|
                    0 <= i < os.clients.len() && #[trigger] os.clients[i].id == client_id@;
                assert(rejected_only(os, s, i, code));
            } else {
                assert(s =~= os);
            }
        }
        out
    }

    /// Report that a frame announced on the wire was larger than
    /// `MAX_MESSAGE_SIZE`; the caller then tears the connection down.
    pub fn handle_oversized(&mut self, client_id: &String)
        requires
            wf_state(old(self).state@),
        ensures
            wf_state(final(self).state@),
            has_client(old(self).state@, client_id@) ==> exists|i: int|
                0 <= i < old(self).state@.clients.len() && (#[trigger] old(self).state@.clients[i]).id == client_id@ && rejected_only(
                    old(self).state@,
                    final(self).state@,
                    i,
                    ErrorCode::MessageTooLarge,
                ),
            !has_client(old(self).state@, client_id@) ==> final(self).state@ == old(self).state@,
    {
        let _ = self.reject(client_id, ErrorCode::MessageTooLarge, "Message trop volumineux");
    }

    /// Admit the session to a room, acknowledge with the member list, and
    /// tell the room's other members; or report why it was refused.
    pub fn handle_join_room(&mut self, client_id: &String, room_id: String) -> (r: Result<
        (),
        String,
    >)
        requires
            wf_state(old(self).state@),
        ensures
            wf_state(final(self).state@),
            join_room_post(old(self).state@, final(self).state@, client_id@, room_id@, r),
    {
        let ghost os = self.state@;
        match self.state.join_room(client_id, room_id.as_str()) {
            Ok(users) => {
                let ghost mid = self.state@;
                let ghost usersv = users.deep_view();
                let i = match self.state.find_client_idx(client_id.as_str()) {
                    Some(i) => i,
                    None => {
                        proof {
                            let (w, rk) = choose|w: int, rk: int|
                                #[trigger] join_ok_at(
                                    os,
                                    mid,
                                    client_id@,
                                    room_id@,
                                    usersv,
                                    w,
                                    rk,
                                );
                            assert(mid.clients[w].id == client_id@) by {
                                assert(os.clients[w].id == client_id@);
                            }
                            assert(false);
                        }
                        return Err(String::new());
                    },
                };
                let u = match &self.state.clients[i].username {
                    Some(u) => u.clone(),
                    None => {
                        proof {
                            assert(false);
                        }
                        return Err(String::new());
                    },
                };
                let ack = Message::JoinRoomAck { room_id: room_id.clone(), users };
                self.state.send_message_to_client(client_id, ack);
                let ghost mid2 = self.state@;
                let notif = Message::UserJoined { username: u, room_id: room_id.clone() };
                let frame = ProtocolFrame::new(notif, None, 0);
                self.state.broadcast_to_room(room_id.as_str(), frame, Some(client_id));
                proof {
                    let s = self.state@;
                    let ii = i as int;
                    assert(s.outbound.len() == s.clients.len());
                    lemma_wf_same_components(mid, s);
                    let (w, rk) = choose|w: int, rk: int|
                        #[trigger] join_ok_at(os, mid, client_id@, room_id@, usersv, w, rk);
                    assert(mid.clients[w].id == client_id@) by {
                        assert(os.clients[w].id == client_id@);
                        assert(mid.clients[w].id == os.clients[w].id);
                    }
                    assert(w == ii);
                    assert(os.clients[ii].id == client_id@);
                    assert(mid.clients[ii].username == os.clients[ii].username) by {
                        assert(os.clients[ii].username is Some);
                    }
                    assert forall|j: int|
                        0 <= j < mid.clients.len() && j != ii implies mid.clients[j].id
                        != client_id@ by {}
                    assert(pushed_msg(
                        mid.outbound[ii],
                        mid2.outbound[ii],
                        MessageV::JoinRoomAck { room_id: room_id@, users: usersv },
                        Some(client_id@),
                    ));
                    assert(s.outbound[ii] == mid2.outbound[ii]) by {
                        assert(mid2.clients[ii].id == client_id@);
                    }
                    assert forall|j: int| 0 <= j < mid.clients.len() && j != ii implies (
                    if mid.clients[j].current_room == Some(room_id@) {
                        pushed_msg(
                            mid.outbound[j],
                            #[trigger] s.outbound[j],
                            MessageV::UserJoined {
                                username: os.clients[ii].username->0,
                                room_id: room_id@,
                            },
                            None,
                        )
                    } else {
                        s.outbound[j] == mid.outbound[j]
                    }) by {
                        assert(mid2.outbound[j] == mid.outbound[j]);
                        assert(mid2.clients[j] == mid.clients[j]);
                        if mid.clients[j].current_room == Some(room_id@) {
                            assert(mid2.clients[j].id != client_id@);
                            assert(s.outbound[j] == mid2.outbound[j].push(frame@));
                            assert(s.outbound[j].subrange(0, mid.outbound[j].len() as int)
                                =~= mid.outbound[j]);
                        }
                    }
                }
                Ok(())
            },
            Err(e) => {
                let ghost mid = self.state@;
                let ec = e.clone();
                self.state.send_message_to_client(
                    client_id,
                    Message::JoinRoomError { reason: ec },
                );
                proof {
                    let s = self.state@;
                    assert(s.outbound.len() == s.clients.len());
                    lemma_wf_same_components(mid, s);
                    if has_client(mid, client_id@) {
                        let i = choose|i: int|
                            0 <= i < mid.clients.len() && #[trigger] mid.clients[i].id
                                == client_id@;
                        assert(replied_only(
                            mid,
                            s,
                            i,
                            MessageV::JoinRoomError { reason: e@ },
                        ));
                    }
                }
                Err(e)
            },
        }
    }

    /// Put the session back to `Authenticated` and tell its old room, or
    /// report the invalid state.
    pub fn handle_leave_room(&mut self, client_id: &String) -> (r: Result<(), String>)
        requires
            wf_state(old(self).state@),
        ensures
            wf_state(final(self).state@),
            leave_room_post(old(self).state@, final(self).state@, client_id@, r),
    {
        match self.state.leave_room(client_id) {
            Ok(()) => Ok(()),
            Err(e) => {
                let ghost mid = self.state@;
                let ec = e.clone();
                self.state.send_message_to_client(
                    client_id,
                    Message::Error { code: ErrorCode::InvalidState, message: ec },
                );
                proof {
                    let s = self.state@;
                    assert(s.outbound.len() == s.clients.len());
                    lemma_wf_same_components(mid, s);
                    if has_client(mid, client_id@) {
                        let i = choose|i: int|
                            0 <= i < mid.clients.len() && #[trigger] mid.clients[i].id
                                == client_id@;
                        assert(rejected_only(mid, s, i, ErrorCode::InvalidState));
                    }
                }
                Err(e)
            },
        }
    }

    /// Relay a room message from the session to every member of its room,
    /// the sender included.
    pub fn handle_send_message(&mut self, client_id: &String, content: String) -> (r: Result<
        (),
        String,
    >)
        requires
            wf_state(old(self).state@),
        ensures
            wf_state(final(self).state@),
            send_message_post(old(self).state@, final(self).state@, client_id@, content@, r),
    {
        let i = match self.state.find_client_idx(client_id.as_str()) {
            Some(i) => i,
            None => {
                return Err(String::from_str("Client non trouve"));
            },
        };
        let u = match &self.state.clients[i].username {
            Some(u) => u.clone(),
            None => {
                return Err(String::from_str("Client non authentifie"));
            },
        };
        let rid = match &self.state.clients[i].current_room {
            Some(r) => r.clone(),
            None => {
                return Err(String::from_str("Client absent de tout salon"));
            },
        };
        let ghost os = self.state@;
        let msg = Message::RoomMessage {
            from: u.clone(),
            content,
            timestamp: crate::clock::now_rfc3339(),
            room_id: rid.clone(),
        };
        let frame = ProtocolFrame::new(msg, None, 0);
        self.state.broadcast_to_room(rid.as_str(), frame, None);
        proof {
            let s = self.state@;
            assert(s.outbound.len() == s.clients.len());
            lemma_wf_same_components(os, s);
            assert forall|j: int| 0 <= j < os.clients.len() implies (if os.clients[
            j].current_room == Some(rid@) {
                pushed_room(os.outbound[j], #[trigger] s.outbound[j], u@, content@, rid@)
            } else {
                s.outbound[j] == os.outbound[j]
            }) by {
                if os.clients[j].current_room == Some(rid@) {
                    assert(s.outbound[j] == os.outbound[j].push(frame@));
                    assert(s.outbound[j].subrange(0, os.outbound[j].len() as int)
                        =~= os.outbound[j]);
                }
            }
        }
        Ok(())
    }

    /// Deliver a private message, refusing self-addressed ones and unknown
    /// targets.
    pub fn handle_private_message(
        &mut self,
        client_id: &String,
        target_user: String,
        content: String,
    ) -> (r: Result<(), String>)
        requires
            wf_state(old(self).state@),
        ensures
            wf_state(final(self).state@),
            private_message_post(old(self).state@, final(self).state@, client_id@, target_user@, content@, r),
    {
        let ghost os = self.state@;
        let i = match self.state.find_client_idx(client_id.as_str()) {
            Some(i) => i,
            None => {
                return Err(String::from_str("Client non trouve"));
            },
        };
        proof {
            assert forall|j: int|
                0 <= j < os.clients.len() && j != i as int implies os.clients[j].id
                != client_id@ by {}
        }
        let u = match &self.state.clients[i].username {
            Some(u) => u.clone(),
            None => {
                return Err(String::from_str("Client non authentifie"));
            },
        };
        if crate::strutil::str_eq(u.as_str(), target_user.as_str()) {
            let e = self.reject(
                client_id,
                ErrorCode::InvalidState,
                "Impossible de s'envoyer un message prive a soi-meme",
            );
            return Err(e);
        }
        match self.state.send_private_message(u.as_str(), target_user.as_str(), content.as_str()) {
            Ok(()) => Ok(()),
            Err(e) => {
                let ec = e.clone();
                let _ = self.reject(client_id, ErrorCode::UserNotFound, ec.as_str());
                Err(e)
            },
        }
    }

    /// Send the session the list of rooms with their member counts.
    pub fn handle_list_rooms(&mut self, client_id: &String) -> (r: Result<(), String>)
        requires
            wf_state(old(self).state@),
        ensures
            wf_state(final(self).state@),
            list_rooms_post(old(self).state@, final(self).state@, client_id@, r),
    {
        let ghost os = self.state@;
        let mut rooms: Vec<(String, u64)> = Vec::new();
        let mut k: usize = 0;
        while k < self.state.rooms.len()
            invariant
                k <= self.state.rooms@.len(),
                self.state@ == os,
                rooms@.len() == k,
                forall|t: int|
                    0 <= t < k ==> (#[trigger] rooms@[t]).0@ == os.rooms[t].id && rooms@[t].1
                        == os.rooms[t].users.len() as u64,
            decreases self.state.rooms.len() - k,
        {
            let id = self.state.rooms[k].id.clone();
            let count = self.state.rooms[k].user_count();
            rooms.push((id, count as u64));
            k += 1;
        }
        proof {
            assert forall|t: int| 0 <= t < rooms@.len() implies #[trigger] rooms.deep_view()[t]
                == ((os.rooms[t].id, os.rooms[t].users.len() as u64)) by {
                assert(rooms@[t].0@ == os.rooms[t].id && rooms@[t].1 == os.rooms[t].users.len()
                    as u64);
            }
            assert(rooms.deep_view() =~= Seq::new(
                os.rooms.len(),
                |t: int| (os.rooms[t].id, os.rooms[t].users.len() as u64),
            ));
        }
        let response = Message::RoomList { rooms };
        self.state.send_message_to_client(client_id, response);
        proof {
            let s = self.state@;
            assert(s.outbound.len() == s.clients.len());
            lemma_wf_same_components(os, s);
            if has_client(os, client_id@) {
                let i = choose|i: int|
                    0 <= i < os.clients.len() && #[trigger] os.clients[i].id == client_id@;
                assert(replied_only(
                    os,
                    s,
                    i,
                    MessageV::RoomList {
                        rooms: Seq::new(
                            os.rooms.len(),
                            |t: int| (os.rooms[t].id, os.rooms[t].users.len() as u64),
                        ),
                    },
                ));
            } else {
                assert(s =~= os);
            }
        }
        Ok(())
    }

    /// Send the session the member usernames of its current room.
    pub fn handle_list_users(&mut self, client_id: &String) -> (r: Result<(), String>)
        requires
            wf_state(old(self).state@),
        ensures
            wf_state(final(self).state@),
            list_users_post(old(self).state@, final(self).state@, client_id@, r),
    {
        let ghost os = self.state@;
        let i = match self.state.find_client_idx(client_id.as_str()) {
            Some(i) => i,
            None => {
                return Err(String::from_str("Client non trouve"));
            },
        };
        let rid = match &self.state.clients[i].current_room {
            Some(r) => r.clone(),
            None => {
                return Err(String::from_str("Client absent de tout salon"));
            },
        };
        let rk = match self.state.find_room_idx(rid.as_str()) {
            Some(rk) => rk,
            None => {
                proof {
                    let a = choose|a: int|
                        0 <= a < os.rooms.len() && (#[trigger] os.rooms[a]).id == os.clients[
                        i as int].current_room->0 && crate::room::is_member(
                            os.rooms[a],
                            os.clients[i as int].id,
                        );
                    assert(false);
                }
                return Err(String::new());
            },
        };
        let users = self.state.rooms[rk].get_usernames();
        let response = Message::UserList { users, room_id: rid.clone() };
        self.state.send_message_to_client(client_id, response);
        proof {
            let s = self.state@;
            assert(s.outbound.len() == s.clients.len());
            lemma_wf_same_components(os, s);
            assert forall|j: int|
                0 <= j < os.clients.len() && j != i as int implies os.clients[j].id
                != client_id@ by {}
            assert(replied_only(
                os,
                s,
                i as int,
                MessageV::UserList {
                    users: crate::directory::room_names(os.rooms[rk as int]),
                    room_id: rid@,
                },
            ));
        }
        Ok(())
    }

    /// Validate a frame, check the state machine's preconditions, and
    /// dispatch to the matching operation. Protocol-level faults ask the
    /// caller to disconnect; semantic faults are answered with exactly one
    /// `Error` frame and the connection goes on.
    #[verifier::rlimit(100)]
    #[verifier::spinoff_prover]
    pub fn process_message(&mut self, frame: ProtocolFrame, client_id: &String) -> (r: Result<
        Flow,
        String,
    >)
        requires
            wf_state(old(self).state@),
        ensures
            wf_state(final(self).state@),
            process_post(old(self).state@, final(self).state@, client_id@, frame@, r),
    {
        let ghost os = self.state@;
        let ghost fv = frame@;
        if frame.version != PROTOCOL_VERSION {
            let _ = self.reject(
                client_id,
                ErrorCode::InvalidFormat,
                "Version de protocole non supportee",
            );
            return Ok(Flow::Disconnect);
        }
        match frame.validate() {
            Err(_) => {
                proof {
                    assert(vstd::utf8::encode_utf8(frame_enc(fv)).len() > MAX_MESSAGE_SIZE);
                }
                let _ = self.reject(
                    client_id,
                    ErrorCode::MessageTooLarge,
                    "Message trop volumineux",
                );
                return Ok(Flow::Disconnect);
            },
            Ok(()) => {},
        }
        let i = match self.state.find_client_idx(client_id.as_str()) {
            Some(i) => i,
            None => {
                return Err(String::from_str("Client non trouve"));
            },
        };
        let ghost ii = i as int;
        let (is_connected, is_authed, in_room) = match &self.state.clients[i].session_state {
            SessionState::Connected => (true, false, false),
            SessionState::Authenticated(_) => (false, true, false),
            SessionState::InRoom(_, _) => (false, true, true),
            SessionState::Closed => (false, false, false),
        };
        proof {
            assert forall|j: int|
                0 <= j < os.clients.len() && j != ii implies os.clients[j].id != client_id@ by {}
            assert(is_connected == (os.clients[ii].session_state == SessionStateV::Connected));
            assert(is_authed == ((os.clients[ii].session_state matches
                SessionStateV::Authenticated(_)) || (os.clients[ii].session_state matches
                SessionStateV::InRoom(_, _))));
            assert(in_room == (os.clients[ii].session_state matches SessionStateV::InRoom(_, _)));
        }
        match &frame.message {
            Message::Connect { .. } => {
                if !is_connected {
                    let e = self.reject(
                        client_id,
                        ErrorCode::InvalidState,
                        "Action non autorisee dans l'etat actuel",
                    );
                    proof {
                        let s = self.state@;
                        let w0 = choose|w0: int|
                            0 <= w0 < os.clients.len() && #[trigger] os.clients[w0].id
                                == client_id@ && rejected_only(os, s, w0, ErrorCode::InvalidState);
                        assert forall|w: int|
                            0 <= w < os.clients.len() && (#[trigger] os.clients[w]).id
                                == client_id@ implies process_dispatch(
                            os,
                            s,
                            client_id@,
                            fv.message,
                            w,
                            Err(e),
                        ) by {
                            assert(w == ii && w0 == ii);
                        }
                    }
                    return Err(e);
                }
            },
            _ => {
                if frame.message.requires_auth() && !is_authed {
                    let e = self.reject(
                        client_id,
                        ErrorCode::InvalidState,
                        "Authentification requise",
                    );
                    proof {
                        let s = self.state@;
                        let w0 = choose|w0: int|
                            0 <= w0 < os.clients.len() && #[trigger] os.clients[w0].id
                                == client_id@ && rejected_only(os, s, w0, ErrorCode::InvalidState);
                        assert forall|w: int|
                            0 <= w < os.clients.len() && (#[trigger] os.clients[w]).id
                                == client_id@ implies process_dispatch(
                            os,
                            s,
                            client_id@,
                            fv.message,
                            w,
                            Err(e),
                        ) by {
                            assert(w == ii && w0 == ii);
                        }
                    }
                    return Err(e);
                }
                if frame.message.requires_room() && !in_room {
                    let e = self.reject(
                        client_id,
                        ErrorCode::InvalidState,
                        "Vous devez etre dans un salon",
                    );
                    proof {
                        let s = self.state@;
                        let w0 = choose|w0: int|
                            0 <= w0 < os.clients.len() && #[trigger] os.clients[w0].id
                                == client_id@ && rejected_only(os, s, w0, ErrorCode::InvalidState);
                        assert forall|w: int|
                            0 <= w < os.clients.len() && (#[trigger] os.clients[w]).id
                                == client_id@ implies process_dispatch(
                            os,
                            s,
                            client_id@,
                            fv.message,
                            w,
                            Err(e),
                        ) by {
                            assert(w == ii && w0 == ii);
                        }
                    }
                    return Err(e);
                }
            },
        }
        let res: Result<(), String> = match frame.message {
            Message::Connect { username } => self.handle_connect(client_id, username),
            Message::JoinRoom { room_id } => self.handle_join_room(client_id, room_id),
            Message::LeaveRoom => self.handle_leave_room(client_id),
            Message::SendMessage { content } => self.handle_send_message(client_id, content),
            Message::PrivateMessage { target_user, content } => self.handle_private_message(
                client_id,
                target_user,
                content,
            ),
            Message::ListRooms => self.handle_list_rooms(client_id),
            Message::ListUsers => self.handle_list_users(client_id),
            Message::Ping => self.handle_ping(client_id),
            Message::Disconnect => {
                proof {
                    let s = self.state@;
                    assert forall|w: int|
                        0 <= w < os.clients.len() && (#[trigger] os.clients[w]).id == client_id@
                            implies process_dispatch(
                        os,
                        s,
                        client_id@,
                        fv.message,
                        w,
                        Ok(Flow::Disconnect),
                    ) by {
                        assert(w == ii);
                    }
                }
                return Ok(Flow::Disconnect);
            },
            _ => {
                let e = self.reject(
                    client_id,
                    ErrorCode::InvalidFormat,
                    "Type de message inattendu",
                );
                proof {
                    let s = self.state@;
                    let w0 = choose|w0: int|
                        0 <= w0 < os.clients.len() && #[trigger] os.clients[w0].id == client_id@
                            && rejected_only(os, s, w0, ErrorCode::InvalidFormat);
                    assert forall|w: int|
                        0 <= w < os.clients.len() && (#[trigger] os.clients[w]).id == client_id@
                            implies process_dispatch(os, s, client_id@, fv.message, w, Err(e)) by {
                        assert(w == ii && w0 == ii);
                        assert(server_to_client(fv.message));
                    }
                }
                return Err(e);
            },
        };
        let ghost gres = res;
        let r2: Result<Flow, String> = match res {
            Ok(()) => Ok(Flow::Continue),
            Err(e) => Err(e),
        };
        proof {
            let s = self.state@;
            assert(as_unit(r2) == gres) by {
                if gres is Ok {
                    assert(r2 == Ok::<Flow, String>(Flow::Continue));
                    assert(gres == Ok::<(), String>(gres->Ok_0));
                    assert(gres->Ok_0 == ());
                } else {
                    assert(r2 == Err::<Flow, String>(gres->Err_0));
                    assert(gres == Err::<(), String>(gres->Err_0));
                }
            }
            assert forall|w: int|
                0 <= w < os.clients.len() && (#[trigger] os.clients[w]).id == client_id@
                    implies process_dispatch(os, s, client_id@, fv.message, w, r2) by {
                assert(w == ii);
            }
        }
        r2
    }

    /// Decode one payload read off the wire and process it. A payload
    /// that does not decode draws one `InvalidFormat` error and closes the
    /// connection; a decoded frame has `process_message`'s stated effect,
    /// and a semantic rejection keeps the connection serving.
    pub fn handle_incoming(&mut self, data: &[u8], client_id: &String) -> (flow: Flow)
        requires
            wf_state(old(self).state@),
        ensures
            wf_state(final(self).state@),
            (!vstd::utf8::valid_utf8(data@) || (vstd::utf8::valid_utf8(data@)
                && crate::codec::frame_dec(vstd::utf8::decode_utf8(data@)) is None)) ==> (flow
                == Flow::Disconnect && (has_client(old(self).state@, client_id@) ==> exists|i: int|
                0 <= i < old(self).state@.clients.len() && (#[trigger] old(
                    self,
                ).state@.clients[i]).id == client_id@ && rejected_only(
                    old(self).state@,
                    final(self).state@,
                    i,
                    ErrorCode::InvalidFormat,
                ))),
            vstd::utf8::valid_utf8(data@) ==> (crate::codec::frame_dec(
                vstd::utf8::decode_utf8(data@),
            ) matches Some(fv) ==> exists|r: Result<Flow, String>|
                #[trigger] process_post(old(self).state@, final(self).state@, client_id@, fv, r)
                    && flow == (match r {
                    Ok(f) => f,
                    Err(_) => Flow::Continue,
                })),
    {
        match ProtocolFrame::deserialize(data) {
            Ok(frame) => {
                let ghost fv = frame@;
                let res = self.process_message(frame, client_id);
                let flow = match &res {
                    Ok(f) => *f,
                    Err(_) => Flow::Continue,
                };
                proof {
                    assert(process_post(
                        old(self).state@,
                        self.state@,
                        client_id@,
                        fv,
                        res,
                    ));
                }
                flow
            },
            Err(_) => {
                let _ = self.reject(
                    client_id,
                    ErrorCode::InvalidFormat,
                    "Format de message invalide",
                );
                Flow::Disconnect
            },
        }
    }
}

} // verus!