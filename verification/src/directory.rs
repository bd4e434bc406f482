//! The server-side directory: the authoritative map of sessions, rooms,
//! the username registry, and the per-client outbound queues, with the
//! consistency invariant that ties them together.

use crate::protocol::{FrameV, Message, MessageV, ProtocolFrame, SessionState, SessionStateV,
    PROTOCOL_VERSION};
use crate::room::{is_member, wf_room, Room, RoomV};
use crate::strutil::str_eq;
use vstd::prelude::*;

verus! {

/// One connection's session record.
#[derive(Debug)]
pub struct Client {
    pub id: String,
    pub username: Option<String>,
    pub current_room: Option<String>,
    pub session_state: SessionState,
    pub sequence_number: u64,
}

/// Mathematical view of a `Client`.
#[verifier::ext_equal]
pub struct ClientV {
    pub id: Seq<char>,
    pub username: Option<Seq<char>>,
    pub current_room: Option<Seq<char>>,
    pub session_state: SessionStateV,
    pub sequence_number: u64,
}

impl View for Client {
    type V = ClientV;

    open spec fn view(&self) -> ClientV {
        ClientV {
            id: self.id@,
            username: self.username.deep_view(),
            current_room: self.current_room.deep_view(),
            session_state: self.session_state@,
            sequence_number: self.sequence_number,
        }
    }
}

impl DeepView for Client {
    type V = ClientV;

    open spec fn deep_view(&self) -> ClientV {
        self.view()
    }
}

/// A session's username is set exactly when it is authenticated, its room
/// exactly when it is in one, and the directory never keeps a closed
/// session.
pub open spec fn wf_client(c: ClientV) -> bool {
    match c.session_state {
        SessionStateV::Connected => c.username is None && c.current_room is None,
        SessionStateV::Authenticated(u) => c.username == Some(u) && c.current_room is None,
        SessionStateV::InRoom(u, r) => c.username == Some(u) && c.current_room == Some(r),
        SessionStateV::Closed => false,
    }
}

impl Client {
    /// A fresh, unauthenticated session.
    pub fn new(id: String) -> (r: Client)
        ensures
            r@.id == id@,
            (r@.username is None),
            (r@.current_room is None),
            r@.session_state == SessionStateV::Connected,
            r@.sequence_number == 0,
            wf_client(r@),
    {
        Client {
            id,
            username: None,
            current_room: None,
            session_state: SessionState::Connected,
            sequence_number: 0,
        }
    }

    /// Advance this session's outbound sequence counter and yield the new
    /// value.
    pub fn next_sequence(&mut self) -> (r: u64)
        requires
            old(self).sequence_number < u64::MAX,
        ensures
            final(self).sequence_number == old(self).sequence_number + 1,
            r == final(self).sequence_number,
            final(self)@ == (ClientV {
                sequence_number: final(self)@.sequence_number,
                ..old(self)@
            }),
    {
        self.sequence_number = self.sequence_number + 1;
        self.sequence_number
    }
}

/// The whole directory, seen mathematically.
#[verifier::ext_equal]
pub struct StateV {
    pub clients: Seq<ClientV>,
    pub rooms: Seq<RoomV>,
    pub registry: Seq<(Seq<char>, Seq<char>)>,
    pub outbound: Seq<Seq<FrameV>>,
}

/// The directory itself. `outbound[i]` is the queue of `clients[i]`.
pub struct ServerState {
    pub clients: Vec<Client>,
    pub rooms: Vec<Room>,
    pub username_to_client: Vec<(String, String)>,
    pub outbound: Vec<Vec<ProtocolFrame>>,
}

impl View for ServerState {
    type V = StateV;

    open spec fn view(&self) -> StateV {
        StateV {
            clients: self.clients.deep_view(),
            rooms: self.rooms.deep_view(),
            registry: self.username_to_client.deep_view(),
            outbound: self.outbound.deep_view(),
        }
    }
}

/// Whether some session carries this client id.
pub open spec fn has_client(s: StateV, cid: Seq<char>) -> bool {
    exists|i: int| 0 <= i < s.clients.len() && #[trigger] s.clients[i].id == cid
}

/// Whether this username is in the registry.
pub open spec fn has_user(s: StateV, u: Seq<char>) -> bool {
    exists|k: int| 0 <= k < s.registry.len() && #[trigger] s.registry[k].0 == u
}

/// Whether a room with this id exists.
pub open spec fn has_room(s: StateV, rid: Seq<char>) -> bool {
    exists|k: int| 0 <= k < s.rooms.len() && #[trigger] s.rooms[k].id == rid
}

/// No two sessions share a client id.
pub open spec fn distinct_clients(cs: Seq<ClientV>) -> bool {
    forall|i: int, j: int|
        0 <= i < cs.len() && 0 <= j < cs.len() && i != j ==> #[trigger] cs[i].id != #[trigger] cs[j].id
}

/// One outbound queue per session.
pub open spec fn wf_queues(s: StateV) -> bool {
    s.outbound.len() == s.clients.len()
}

/// Sessions carry distinct ids and are each well formed.
pub open spec fn wf_clients_seq(s: StateV) -> bool {
    &&& distinct_clients(s.clients)
    &&& (forall|i: int| 0 <= i < s.clients.len() ==> wf_client(#[trigger] s.clients[i]))
}

/// Rooms carry distinct ids and are each well formed.
pub open spec fn wf_rooms_seq(s: StateV) -> bool {
    &&& (forall|i: int, j: int|
        0 <= i < s.rooms.len() && 0 <= j < s.rooms.len() && i != j ==> #[trigger] s.rooms[i].id
            != #[trigger] s.rooms[j].id)
    &&& (forall|k: int| 0 <= k < s.rooms.len() ==> wf_room(#[trigger] s.rooms[k]))
}

/// Registry entry `k` names an existing session holding that username.
pub open spec fn registry_entry_ok(s: StateV, k: int) -> bool {
    exists|i: int|
        0 <= i < s.clients.len() && #[trigger] s.clients[i].id == s.registry[k].1
            && s.clients[i].username == Some(s.registry[k].0)
}

/// Member entry `m` of room `k` names an existing session that is in that
/// room under that username.
pub open spec fn member_entry_ok(s: StateV, k: int, m: int) -> bool {
    exists|i: int|
        0 <= i < s.clients.len() && #[trigger] s.clients[i].id == s.rooms[k].users[m].0
            && s.clients[i].current_room == Some(s.rooms[k].id) && s.clients[i].username == Some(
            s.rooms[k].users[m].1,
        )
}

/// The registry holds exactly one entry for each authenticated session,
/// under distinct usernames.
pub open spec fn wf_registry(s: StateV) -> bool {
    &&& (forall|k: int| 0 <= k < s.registry.len() ==> #[trigger] registry_entry_ok(s, k))
    &&& (forall|i: int|
        0 <= i < s.clients.len() && (#[trigger] s.clients[i]).username is Some ==> exists|k: int|
            0 <= k < s.registry.len() && #[trigger] s.registry[k] == (
            s.clients[i].username->0, s.clients[i].id))
    &&& (forall|k: int, l: int|
        0 <= k < s.registry.len() && 0 <= l < s.registry.len() && k != l
            ==> (#[trigger] s.registry[k]).0 != (#[trigger] s.registry[l]).0)
}

/// Room membership agrees exactly with each session's current room.
pub open spec fn wf_membership(s: StateV) -> bool {
    &&& (forall|k: int, m: int|
        0 <= k < s.rooms.len() && 0 <= m < s.rooms[k].users.len()
            ==> #[trigger] member_entry_ok(s, k, m))
    &&& (forall|i: int|
        0 <= i < s.clients.len() && (#[trigger] s.clients[i]).current_room is Some
            ==> exists|k: int|
            0 <= k < s.rooms.len() && (#[trigger] s.rooms[k]).id == s.clients[i].current_room->0
                && is_member(s.rooms[k], s.clients[i].id))
}

/// The directory's invariant: one queue per session; distinct client ids,
/// room ids and usernames; every session well formed; a registry entry
/// exactly for each authenticated session; and room membership that agrees
/// exactly with each session's current room.
pub open spec fn wf_state(s: StateV) -> bool {
    &&& wf_queues(s)
    &&& wf_clients_seq(s)
    &&& wf_rooms_seq(s)
    &&& wf_registry(s)
    &&& wf_membership(s)
}


/// The room at position `k` lost exactly the member entry carrying this
/// client id; every other room is unchanged.
pub open spec fn room_lost_member(
    old_rooms: Seq<RoomV>,
    new_rooms: Seq<RoomV>,
    k: int,
    cid: Seq<char>,
) -> bool {
    exists|m: int|
        0 <= m < old_rooms[k].users.len() && (#[trigger] old_rooms[k].users[m]).0 == cid
            && new_rooms =~= old_rooms.update(
            k,
            (RoomV { users: old_rooms[k].users.remove(m), ..old_rooms[k] }),
        )
}

/// Every session still in the room, other than the departing one, got
/// exactly one `UserLeft` notification; every other queue is unchanged.
pub open spec fn left_notice_sent(
    os: StateV,
    new_outbound: Seq<Seq<FrameV>>,
    i: int,
    u: Seq<char>,
    rid: Seq<char>,
) -> bool {
    &&& new_outbound.len() == os.outbound.len()
    &&& forall|j: int|
        0 <= j < os.clients.len() ==> if os.clients[j].current_room == Some(rid) && j != i {
            pushed_msg(
                os.outbound[j],
                new_outbound[j],
                MessageV::UserLeft { username: u, room_id: rid },
                None,
            )
        } else {
            new_outbound[j] == os.outbound[j]
        }
}


/// What a successful join did, witnessed by the session position `i` and
/// the joined room position `rk`: the session is now in the room, the
/// room's member list gained it, and if it came from another room, that
/// room lost it and its remaining members were told.
pub open spec fn join_ok_at(
    os: StateV,
    ns: StateV,
    cid: Seq<char>,
    rid: Seq<char>,
    out: Seq<Seq<char>>,
    i: int,
    rk: int,
) -> bool {
    let u = os.clients[i].username->0;
    &&& 0 <= i < os.clients.len() && os.clients[i].id == cid
    &&& os.clients[i].username is Some
    &&& 0 <= rk < os.rooms.len() && os.rooms[rk].id == rid
    &&& ns.clients =~= os.clients.update(
        i,
        (ClientV {
            current_room: Some(rid),
            session_state: SessionStateV::InRoom(u, rid),
            ..os.clients[i]
        }),
    )
    &&& ns.registry == os.registry
    &&& match os.clients[i].current_room {
        None => ns.rooms =~= os.rooms.update(
            rk,
            (RoomV { users: os.rooms[rk].users.push((cid, u)), ..os.rooms[rk] }),
        ) && ns.outbound == os.outbound,
        Some(old_rid) => exists|mid: Seq<RoomV>, ok_: int|
            {
                &&& 0 <= ok_ < os.rooms.len() && os.rooms[ok_].id == old_rid
                &&& #[trigger] room_lost_member(os.rooms, mid, ok_, cid)
                &&& ns.rooms =~= mid.update(
                    rk,
                    (RoomV { users: mid[rk].users.push((cid, u)), ..mid[rk] }),
                )
                &&& left_notice_sent(os, ns.outbound, i, u, old_rid)
            },
    }
    &&& out =~= room_names(ns.rooms[rk])
}

/// A successful join, seen from outside.
pub open spec fn join_ok(
    os: StateV,
    ns: StateV,
    cid: Seq<char>,
    rid: Seq<char>,
    out: Seq<Seq<char>>,
) -> bool {
    exists|i: int, rk: int| #[trigger] join_ok_at(os, ns, cid, rid, out, i, rk)
}


/// The queue gained exactly one private-message frame from this sender
/// with this content (its timestamp is whatever the clock gave).
pub open spec fn pushed_private(
    oldq: Seq<FrameV>,
    newq: Seq<FrameV>,
    from: Seq<char>,
    content: Seq<char>,
    sid: Option<Seq<char>>,
) -> bool {
    &&& newq.len() == oldq.len() + 1
    &&& newq.subrange(0, oldq.len() as int) == oldq
    &&& (newq.last().message matches MessageV::PrivateMessageReceived { from: f, content: c, timestamp: _ }
        && f == from && c == content)
    &&& newq.last().version == PROTOCOL_VERSION
    &&& newq.last().session_id == sid
    &&& newq.last().sequence == 0
}

/// The usernames a room's member list holds, in member order.
pub open spec fn room_names(r: RoomV) -> Seq<Seq<char>> {
    Seq::new(r.users.len(), |m: int| r.users[m].1)
}

/// The queue gained exactly one frame, carrying this message, this session
/// id, the protocol version, and sequence zero.
pub open spec fn pushed_msg(
    oldq: Seq<FrameV>,
    newq: Seq<FrameV>,
    m: MessageV,
    sid: Option<Seq<char>>,
) -> bool {
    &&& newq.len() == oldq.len() + 1
    &&& newq.subrange(0, oldq.len() as int) == oldq
    &&& newq.last().message == m
    &&& newq.last().version == PROTOCOL_VERSION
    &&& newq.last().session_id == sid
    &&& newq.last().sequence == 0
}


/// Removing a session, together with its registry entry and room
/// membership, leaves the directory invariant intact.
#[verifier::rlimit(100)]
#[verifier::spinoff_prover]
proof fn lemma_wf_after_removal(
    os: StateV,
    s: StateV,
    ii: int,
    removed_at: int,
    det_k: int,
    det_m: int,
    detached: bool,
    had_name: bool,
    cid: Seq<char>,
)
    requires
        wf_state(os),
        0 <= ii < os.clients.len(),
        os.clients[ii].id == cid,
        s.clients =~= os.clients.remove(ii),
        s.outbound.len() == s.clients.len(),
        had_name <==> (os.clients[ii].username is Some),
        detached <==> (os.clients[ii].current_room is Some),
        had_name ==> 0 <= removed_at < os.registry.len() && os.registry[removed_at] == (
            os.clients[ii].username->0,
            cid,
        ) && s.registry =~= os.registry.remove(removed_at),
        !had_name ==> s.registry == os.registry,
        detached ==> 0 <= det_k < os.rooms.len()
            && os.rooms[det_k].id == os.clients[ii].current_room->0
            && 0 <= det_m < os.rooms[det_k].users.len()
            && os.rooms[det_k].users[det_m].0 == cid && s.rooms =~= os.rooms.update(
            det_k,
            (RoomV { users: os.rooms[det_k].users.remove(det_m), ..os.rooms[det_k] }),
        ),
        !detached ==> s.rooms == os.rooms,
    ensures
        wf_state(s),
{
    let ghost ra = if had_name {
        removed_at
    } else {
        os.registry.len() as int
    };
    assert forall|a: int, b: int|
        0 <= a < s.clients.len() && 0 <= b < s.clients.len() && a != b implies (
    #[trigger] s.clients[a].id) != (#[trigger] s.clients[b].id) by {
        let oa = if a < ii {
            a
        } else {
            a + 1
        };
        let ob = if b < ii {
            b
        } else {
            b + 1
        };
        assert(s.clients[a] == os.clients[oa]);
        assert(s.clients[b] == os.clients[ob]);
    }
    assert forall|a: int| 0 <= a < s.clients.len() implies wf_client(#[trigger] s.clients[a]) by {
        let oa = if a < ii {
            a
        } else {
            a + 1
        };
        assert(s.clients[a] == os.clients[oa]);
    }
    assert forall|a: int, b: int|
        0 <= a < s.rooms.len() && 0 <= b < s.rooms.len() && a != b implies (
    #[trigger] s.rooms[a].id) != (#[trigger] s.rooms[b].id) by {
        assert(s.rooms[a].id == os.rooms[a].id);
        assert(s.rooms[b].id == os.rooms[b].id);
    }
    assert forall|a: int| 0 <= a < s.rooms.len() implies wf_room(#[trigger] s.rooms[a]) by {
        if !(detached && a == det_k) {
            assert(s.rooms[a] == os.rooms[a]);
        } else {
            assert(s.rooms[a].users =~= os.rooms[a].users.remove(det_m));
            assert(wf_room(os.rooms[a]));
            assert forall|x: int, y: int|
                0 <= x < s.rooms[a].users.len() && 0 <= y < s.rooms[a].users.len() && x != y implies (
            #[trigger] s.rooms[a].users[x]).0 != (#[trigger] s.rooms[a].users[y]).0 by {
                let ox = if x < det_m {
                    x
                } else {
                    x + 1
                };
                let oy = if y < det_m {
                    y
                } else {
                    y + 1
                };
                assert(s.rooms[a].users[x] == os.rooms[a].users[ox]);
                assert(s.rooms[a].users[y] == os.rooms[a].users[oy]);
            }
        }
    }
    assert forall|q: int| 0 <= q < s.registry.len() implies #[trigger] registry_entry_ok(s, q) by {
        let oq = if q < ra {
            q
        } else {
            q + 1
        };
        assert(s.registry[q] == os.registry[oq]);
        assert(registry_entry_ok(os, oq));
        let w = choose|w: int|
            0 <= w < os.clients.len() && #[trigger] os.clients[w].id == os.registry[oq].1
                && os.clients[w].username == Some(os.registry[oq].0);
        assert(w != ii) by {
            if w == ii {
                assert(os.clients[ii].username is Some);
                assert(os.registry[oq].0 == os.clients[ii].username->0);
                assert(os.registry[ra].0 == os.clients[ii].username->0);
                assert(oq != ra);
            }
        }
        let nw = if w < ii {
            w
        } else {
            w - 1
        };
        assert(s.clients[nw] == os.clients[w]);
        assert(0 <= nw < s.clients.len());
        assert(s.clients[nw].id == s.registry[q].1 && s.clients[nw].username == Some(
            s.registry[q].0,
        ));
    }
    assert forall|w: int|
        0 <= w < s.clients.len() && (#[trigger] s.clients[w]).username is Some implies exists|q: int|
        0 <= q < s.registry.len() && #[trigger] s.registry[q] == (
        s.clients[w].username->0, s.clients[w].id) by {
        let ow = if w < ii {
            w
        } else {
            w + 1
        };
        assert(s.clients[w] == os.clients[ow]);
        let q = choose|q: int|
            0 <= q < os.registry.len() && #[trigger] os.registry[q] == (
            os.clients[ow].username->0, os.clients[ow].id);
        assert(q != ra) by {
            if q == ra && had_name {
                assert(os.registry[ra].1 == os.clients[ii].id);
                assert(os.clients[ow].id == os.clients[ii].id);
            }
        }
        let nq = if q < ra {
            q
        } else {
            q - 1
        };
        assert(s.registry[nq] == os.registry[q]);
        assert(0 <= nq < s.registry.len());
        assert(s.registry[nq] == (s.clients[w].username->0, s.clients[w].id));
    }
    assert forall|q: int, l: int|
        0 <= q < s.registry.len() && 0 <= l < s.registry.len() && q != l implies (
    #[trigger] s.registry[q]).0 != (#[trigger] s.registry[l]).0 by {
        let oq = if q < ra {
            q
        } else {
            q + 1
        };
        let ol = if l < ra {
            l
        } else {
            l + 1
        };
        assert(s.registry[q] == os.registry[oq]);
        assert(s.registry[l] == os.registry[ol]);
    }
    assert forall|a: int, b: int|
        0 <= a < s.rooms.len() && 0 <= b < s.rooms[a].users.len() implies #[trigger] member_entry_ok(s, a, b) by {
        let ob = if detached && a == det_k && b >= det_m {
            b + 1
        } else {
            b
        };
        assert(s.rooms[a].users[b] == os.rooms[a].users[ob]);
        assert(s.rooms[a].id == os.rooms[a].id);
        assert(member_entry_ok(os, a, ob));
        let w = choose|w: int|
            0 <= w < os.clients.len() && #[trigger] os.clients[w].id == os.rooms[a].users[ob].0
                && os.clients[w].current_room == Some(os.rooms[a].id) && os.clients[w].username
                == Some(os.rooms[a].users[ob].1);
        assert(w != ii) by {
            if w == ii {
                assert(detached);
                assert(os.rooms[a].id == os.clients[ii].current_room->0);
                assert(a == det_k);
                assert(os.rooms[det_k].users[ob].0 == cid);
                assert(wf_room(os.rooms[det_k]));
                assert(ob == det_m);
                assert(false);
            }
        }
        let nw = if w < ii {
            w
        } else {
            w - 1
        };
        assert(s.clients[nw] == os.clients[w]);
        assert(0 <= nw < s.clients.len());
        assert(s.clients[nw].id == s.rooms[a].users[b].0 && s.clients[nw].current_room == Some(
            s.rooms[a].id,
        ) && s.clients[nw].username == Some(s.rooms[a].users[b].1));
    }
    assert forall|w: int|
        0 <= w < s.clients.len() && (#[trigger] s.clients[w]).current_room is Some implies exists|a: int|
        0 <= a < s.rooms.len() && (#[trigger] s.rooms[a]).id == s.clients[w].current_room->0
            && is_member(s.rooms[a], s.clients[w].id) by {
        let ow = if w < ii {
            w
        } else {
            w + 1
        };
        assert(s.clients[w] == os.clients[ow]);
        let a = choose|a: int|
            0 <= a < os.rooms.len() && (#[trigger] os.rooms[a]).id == os.clients[
            ow].current_room->0 && is_member(os.rooms[a], os.clients[ow].id);
        let b = choose|b: int|
            0 <= b < os.rooms[a].users.len() && (#[trigger] os.rooms[a].users[b]).0 == os.clients[
            ow].id;
        if detached && a == det_k {
            assert(b != det_m) by {
                if b == det_m {
                    assert(os.clients[ow].id == cid);
                    assert(os.clients[ii].id == cid);
                }
            }
            let nb = if b < det_m {
                b
            } else {
                b - 1
            };
            assert(s.rooms[a].users[nb] == os.rooms[a].users[b]);
            assert(is_member(s.rooms[a], s.clients[w].id));
        } else {
            assert(s.rooms[a] == os.rooms[a]);
            assert(is_member(s.rooms[a], s.clients[w].id));
        }
        assert(s.rooms[a].id == s.clients[w].current_room->0);
    }
    assert(wf_queues(s));
    assert(wf_clients_seq(s));
    assert(wf_rooms_seq(s));
    assert(wf_registry(s));
    assert(wf_membership(s));
    assert(wf_state(s));
}



/// Law: in a well-formed directory, at most one session holds any given
/// username, whether `Authenticated` or `InRoom`.
pub proof fn lemma_username_unique(s: StateV, i: int, j: int)
    requires
        wf_state(s),
        0 <= i < s.clients.len(),
        0 <= j < s.clients.len(),
        (s.clients[i].username is Some),
        s.clients[i].username == s.clients[j].username,
    ensures
        i == j,
{
    let k = choose|k: int|
        0 <= k < s.registry.len() && #[trigger] s.registry[k] == (
        s.clients[i].username->0, s.clients[i].id);
    let l = choose|l: int|
        0 <= l < s.registry.len() && #[trigger] s.registry[l] == (
        s.clients[j].username->0, s.clients[j].id);
    assert(s.registry[k].0 == s.registry[l].0);
    assert(k == l);
    assert(s.clients[i].id == s.clients[j].id);
    if i != j {
        assert(s.clients[i].id != s.clients[j].id);
    }
}

/// Law: a session state names a username exactly when the session is
/// authenticated, and a room exactly when it is in one.
pub proof fn lemma_session_shape(s: StateV, i: int)
    requires
        wf_state(s),
        0 <= i < s.clients.len(),
    ensures
        (s.clients[i].username is Some) <==> (s.clients[i].session_state matches
            SessionStateV::Authenticated(_) || s.clients[i].session_state matches
            SessionStateV::InRoom(_, _)),
        (s.clients[i].current_room is Some) <==> (s.clients[i].session_state matches
            SessionStateV::InRoom(_, _)),
{
    assert(wf_client(s.clients[i]));
}


/// Law: in a well-formed directory, a client appears in at most one
/// room's member list, and only once there.
pub proof fn lemma_membership_unique(s: StateV, k1: int, m1: int, k2: int, m2: int)
    requires
        wf_state(s),
        0 <= k1 < s.rooms.len(),
        0 <= m1 < s.rooms[k1].users.len(),
        0 <= k2 < s.rooms.len(),
        0 <= m2 < s.rooms[k2].users.len(),
        s.rooms[k1].users[m1].0 == s.rooms[k2].users[m2].0,
    ensures
        k1 == k2,
        m1 == m2,
{
    assert(member_entry_ok(s, k1, m1));
    assert(member_entry_ok(s, k2, m2));
    let w1 = choose|w1: int|
        0 <= w1 < s.clients.len() && #[trigger] s.clients[w1].id == s.rooms[k1].users[m1].0
            && s.clients[w1].current_room == Some(s.rooms[k1].id) && s.clients[w1].username
            == Some(s.rooms[k1].users[m1].1);
    let w2 = choose|w2: int|
        0 <= w2 < s.clients.len() && #[trigger] s.clients[w2].id == s.rooms[k2].users[m2].0
            && s.clients[w2].current_room == Some(s.rooms[k2].id) && s.clients[w2].username
            == Some(s.rooms[k2].users[m2].1);
    assert(w1 == w2) by {
        if w1 != w2 {
            assert(s.clients[w1].id != s.clients[w2].id);
        }
    }
    assert(s.rooms[k1].id == s.rooms[k2].id);
    assert(k1 == k2) by {
        if k1 != k2 {
            assert(s.rooms[k1].id != s.rooms[k2].id);
        }
    }
    assert(wf_room(s.rooms[k1]));
}

/// A state whose sessions, rooms and registry are those of a well-formed
/// state, and whose queues still number one per session, is well formed.
pub(crate) proof fn lemma_wf_same_components(os: StateV, s: StateV)
    requires
        wf_state(os),
        s.clients == os.clients,
        s.rooms == os.rooms,
        s.registry == os.registry,
        s.outbound.len() == s.clients.len(),
    ensures
        wf_state(s),
{
    assert forall|k: int| 0 <= k < s.registry.len() implies #[trigger] registry_entry_ok(
        s,
        k,
    ) by {
        assert(registry_entry_ok(os, k));
        let w = choose|w: int|
            0 <= w < os.clients.len() && #[trigger] os.clients[w].id == os.registry[k].1
                && os.clients[w].username == Some(os.registry[k].0);
        assert(s.clients[w].id == s.registry[k].1 && s.clients[w].username == Some(
            s.registry[k].0,
        ));
    }
    assert forall|k: int, m: int|
        0 <= k < s.rooms.len() && 0 <= m < s.rooms[k].users.len() implies #[trigger] member_entry_ok(
        s,
        k,
        m,
    ) by {
        assert(member_entry_ok(os, k, m));
        let w = choose|w: int|
            0 <= w < os.clients.len() && #[trigger] os.clients[w].id == os.rooms[k].users[m].0
                && os.clients[w].current_room == Some(os.rooms[k].id) && os.clients[w].username
                == Some(os.rooms[k].users[m].1);
        assert(s.clients[w].id == s.rooms[k].users[m].0 && s.clients[w].current_room == Some(
            s.rooms[k].id,
        ) && s.clients[w].username == Some(s.rooms[k].users[m].1));
    }
    assert(wf_state(s));
}

impl ServerState {
    /// An empty directory holding the rooms that exist at startup:
    /// "general", "tech" and "random".
    pub fn new() -> (r: ServerState)
        ensures
            r@.clients.len() == 0,
            r@.registry.len() == 0,
            r@.outbound.len() == 0,
            r@.rooms.len() == 3,
            r@.rooms[0].id == "general"@ && r@.rooms[0].users.len() == 0,
            r@.rooms[1].id == "tech"@ && r@.rooms[1].users.len() == 0,
            r@.rooms[2].id == "random"@ && r@.rooms[2].users.len() == 0,
            wf_state(r@),
    {
        let mut rooms: Vec<Room> = Vec::new();
        rooms.push(
            Room::new(String::from_str("general"), String::from_str("Salon General")),
        );
        rooms.push(
            Room::new(String::from_str("tech"), String::from_str("Discussions Tech")),
        );
        rooms.push(
            Room::new(String::from_str("random"), String::from_str("Discussions Libres")),
        );
        let r = ServerState {
            clients: Vec::new(),
            rooms,
            username_to_client: Vec::new(),
            outbound: Vec::new(),
        };
        proof {
            reveal_strlit("general");
            reveal_strlit("tech");
            reveal_strlit("random");
            assert(r@.rooms.len() == 3);
            assert("general"@.len() == 7 && "tech"@.len() == 4 && "random"@.len() == 6);
            assert("general"@ != "tech"@ && "general"@ != "random"@ && "tech"@ != "random"@);
        }
        r
    }

    /// Whether a session with this client id is registered.
    pub fn contains_client(&self, client_id: &str) -> (r: bool)
        ensures
            r == has_client(self@, client_id@),
    {
        self.find_client_idx(client_id).is_some()
    }

    /// The position of this client's session, scanning in registration
    /// order.
    pub(crate) fn find_client_idx(&self, client_id: &str) -> (r: Option<usize>)
        ensures
            match r {
                Some(i) => i < self@.clients.len() && self@.clients[i as int].id == client_id@,
                None => !has_client(self@, client_id@),
            },
    {
        let mut i: usize = 0;
        while i < self.clients.len()
            invariant
                i <= self.clients@.len(),
                self@.clients.len() == self.clients@.len(),
                forall|j: int| 0 <= j < i ==> #[trigger] self@.clients[j].id != client_id@,
            decreases self.clients.len() - i,
        {
            if str_eq(self.clients[i].id.as_str(), client_id) {
                return Some(i);
            }
            i += 1;
        }
        None
    }

    /// The position of this room, if it exists.
    pub(crate) fn find_room_idx(&self, room_id: &str) -> (r: Option<usize>)
        ensures
            match r {
                Some(k) => k < self@.rooms.len() && self@.rooms[k as int].id == room_id@,
                None => !has_room(self@, room_id@),
            },
    {
        let mut k: usize = 0;
        while k < self.rooms.len()
            invariant
                k <= self.rooms@.len(),
                self@.rooms.len() == self.rooms@.len(),
                forall|j: int| 0 <= j < k ==> #[trigger] self@.rooms[j].id != room_id@,
            decreases self.rooms.len() - k,
        {
            if str_eq(self.rooms[k].id.as_str(), room_id) {
                return Some(k);
            }
            k += 1;
        }
        None
    }

    /// The position of this username's registry entry, if it has one.
    fn find_user_idx(&self, username: &str) -> (r: Option<usize>)
        ensures
            match r {
                Some(k) => k < self@.registry.len() && self@.registry[k as int].0 == username@,
                None => !has_user(self@, username@),
            },
    {
        let mut k: usize = 0;
        while k < self.username_to_client.len()
            invariant
                k <= self.username_to_client@.len(),
                self@.registry.len() == self.username_to_client@.len(),
                forall|j: int| 0 <= j < k ==> #[trigger] self@.registry[j].0 != username@,
            decreases self.username_to_client.len() - k,
        {
            if str_eq(self.username_to_client[k].0.as_str(), username) {
                return Some(k);
            }
            k += 1;
        }
        None
    }

    /// Register a fresh connection: a `Connected` session and an empty
    /// outbound queue.
    pub fn add_client(&mut self, client_id: String)
        requires
            wf_state(old(self)@),
            !has_client(old(self)@, client_id@),
        ensures
            wf_state(final(self)@),
            final(self)@.clients.len() == old(self)@.clients.len() + 1,
            final(self)@.clients.last() == (ClientV {
                id: client_id@,
                username: None,
                current_room: None,
                session_state: SessionStateV::Connected,
                sequence_number: 0,
            }),
            final(self)@.clients.subrange(0, old(self)@.clients.len() as int) == old(
                self,
            )@.clients,
            final(self)@.outbound == old(self)@.outbound.push(Seq::<FrameV>::empty()),
            final(self)@.rooms == old(self)@.rooms,
            final(self)@.registry == old(self)@.registry,
    {
        self.clients.push(Client::new(client_id));
        self.outbound.push(Vec::new());
        proof {
            let s = self@;
            let os = old(self)@;
            assert(s.clients =~= os.clients.push(s.clients.last()));
            assert(self.outbound@.last().deep_view() =~= Seq::<FrameV>::empty());
            assert(s.outbound =~= os.outbound.push(Seq::<FrameV>::empty()));
            assert(s.clients.subrange(0, os.clients.len() as int) =~= os.clients);
            let n = os.clients.len() as int;
            assert forall|k: int| 0 <= k < s.registry.len() implies #[trigger] registry_entry_ok(s, k) by {
                assert(registry_entry_ok(os, k));
                let i = choose|i: int|
                    0 <= i < os.clients.len() && #[trigger] os.clients[i].id == os.registry[k].1
                        && os.clients[i].username == Some(os.registry[k].0);
                assert(s.clients[i].id == s.registry[k].1 && s.clients[i].username == Some(
                    s.registry[k].0,
                ));
            }
            assert forall|k: int, m: int|
                0 <= k < s.rooms.len() && 0 <= m < s.rooms[k].users.len() implies #[trigger] member_entry_ok(s, k, m) by {
                assert(member_entry_ok(os, k, m));
                let i = choose|i: int|
                    0 <= i < os.clients.len() && #[trigger] os.clients[i].id == os.rooms[k].users[m].0
                        && os.clients[i].current_room == Some(os.rooms[k].id)
                        && os.clients[i].username == Some(os.rooms[k].users[m].1);
                assert(s.clients[i].id == s.rooms[k].users[m].0 && s.clients[i].current_room
                    == Some(s.rooms[k].id) && s.clients[i].username == Some(s.rooms[k].users[m].1));
            }
            assert forall|i: int|
                0 <= i < s.clients.len() && (#[trigger] s.clients[i]).username is Some implies exists|k: int|
                0 <= k < s.registry.len() && #[trigger] s.registry[k] == (
                s.clients[i].username->0, s.clients[i].id) by {
                assert(i < n);
                assert(s.clients[i] == os.clients[i]);
                let k = choose|k: int|
                    0 <= k < os.registry.len() && #[trigger] os.registry[k] == (
                    os.clients[i].username->0, os.clients[i].id);
                assert(s.registry[k] == (s.clients[i].username->0, s.clients[i].id));
            }
            assert forall|i: int|
                0 <= i < s.clients.len() && (#[trigger] s.clients[i]).current_room is Some implies exists|k: int|
                0 <= k < s.rooms.len() && (#[trigger] s.rooms[k]).id == s.clients[i].current_room->0
                    && is_member(s.rooms[k], s.clients[i].id) by {
                assert(i < n);
                assert(s.clients[i] == os.clients[i]);
                let k = choose|k: int|
                    0 <= k < os.rooms.len() && (#[trigger] os.rooms[k]).id
                        == os.clients[i].current_room->0 && is_member(
                        os.rooms[k],
                        os.clients[i].id,
                    );
                assert(s.rooms[k].id == s.clients[i].current_room->0 && is_member(
                    s.rooms[k],
                    s.clients[i].id,
                ));
            }
        }
    }


    /// Append one frame to the queue at position `i`.
    fn enqueue(&mut self, i: usize, frame: ProtocolFrame)
        requires
            i < old(self)@.outbound.len(),
        ensures
            final(self)@.clients == old(self)@.clients,
            final(self)@.rooms == old(self)@.rooms,
            final(self)@.registry == old(self)@.registry,
            final(self)@.outbound =~= old(self)@.outbound.update(
                i as int,
                old(self)@.outbound[i as int].push(frame@),
            ),
    {
        let ghost f = frame@;
        self.outbound[i].push(frame);
        proof {
            assert(self.outbound@[i as int].deep_view() =~= old(self)@.outbound[i as int].push(f));
            assert(self@.outbound =~= old(self)@.outbound.update(
                i as int,
                old(self)@.outbound[i as int].push(f),
            ));
        }
    }

    /// Wrap a message in a frame addressed to this client and put it on
    /// its queue; a message to an unknown client is dropped.
    pub fn send_message_to_client(&mut self, client_id: &String, message: Message)
        requires
            old(self)@.outbound.len() == old(self)@.clients.len(),
            distinct_clients(old(self)@.clients),
        ensures
            final(self)@.clients == old(self)@.clients,
            final(self)@.rooms == old(self)@.rooms,
            final(self)@.registry == old(self)@.registry,
            final(self)@.outbound.len() == old(self)@.outbound.len(),
            forall|j: int|
                0 <= j < old(self)@.clients.len() ==> if old(self)@.clients[j].id == client_id@ {
                    pushed_msg(
                        old(self)@.outbound[j],
                        final(self)@.outbound[j],
                        message@,
                        Some(client_id@),
                    )
                } else {
                    final(self)@.outbound[j] == old(self)@.outbound[j]
                },
            !has_client(old(self)@, client_id@) ==> final(self)@.outbound == old(self)@.outbound,
    {
        let ghost mv = message@;
        match self.find_client_idx(client_id.as_str()) {
            Some(i) => {
                let frame = ProtocolFrame::new(message, Some(client_id.clone()), 0);
                self.enqueue(i, frame);
                proof {
                    let s = self@;
                    let os = old(self)@;
                    assert(s.outbound[i as int].subrange(0, os.outbound[i as int].len() as int)
                        =~= os.outbound[i as int]);
                    assert(pushed_msg(
                        os.outbound[i as int],
                        s.outbound[i as int],
                        mv,
                        Some(client_id@),
                    ));
                }
            },
            None => {},
        }
    }

    /// Deliver a copy of this frame to the queue of every session now in
    /// the room, except an excluded one; an unknown room reaches nobody.
    pub fn broadcast_to_room(&mut self, room_id: &str, frame: ProtocolFrame, exclude: Option<&String>)
        requires
            old(self)@.outbound.len() == old(self)@.clients.len(),
        ensures
            final(self)@.clients == old(self)@.clients,
            final(self)@.rooms == old(self)@.rooms,
            final(self)@.registry == old(self)@.registry,
            final(self)@.outbound.len() == old(self)@.outbound.len(),
            forall|j: int|
                0 <= j < old(self)@.clients.len() ==> if (old(self)@.clients[j].current_room
                    == Some(room_id@) && (match exclude {
                    Some(x) => old(self)@.clients[j].id != x@,
                    None => true,
                })) {
                    final(self)@.outbound[j] == old(self)@.outbound[j].push(frame@)
                } else {
                    final(self)@.outbound[j] == old(self)@.outbound[j]
                },
    {
        let ghost f = frame@;
        let mut j: usize = 0;
        while j < self.clients.len()
            invariant
                self@.clients == old(self)@.clients,
                self@.rooms == old(self)@.rooms,
                self@.registry == old(self)@.registry,
                self@.outbound.len() == old(self)@.outbound.len(),
                j <= self.clients@.len(),
                self@.clients.len() == self.clients@.len(),
                old(self)@.outbound.len() == old(self)@.clients.len(),
                f == frame@,
                forall|t: int|
                    0 <= t < j ==> if (old(self)@.clients[t].current_room == Some(room_id@) && (
                    match exclude {
                        Some(x) => old(self)@.clients[t].id != x@,
                        None => true,
                    })) {
                        self@.outbound[t] == old(self)@.outbound[t].push(f)
                    } else {
                        self@.outbound[t] == old(self)@.outbound[t]
                    },
                forall|t: int|
                    j <= t < old(self)@.outbound.len() ==> self@.outbound[t] == old(
                        self,
                    )@.outbound[t],
            decreases self.clients.len() - j,
        {
            let in_room = match &self.clients[j].current_room {
                Some(r) => str_eq(r.as_str(), room_id),
                None => false,
            };
            let excluded = match exclude {
                Some(x) => str_eq(self.clients[j].id.as_str(), x.as_str()),
                None => false,
            };
            if in_room && !excluded {
                let copy = frame.clone();
                let ghost pre = self@.outbound;
                self.outbound[j].push(copy);
                proof {
                    assert(self.outbound@[j as int].deep_view() =~= old(self)@.outbound[
                        j as int].push(f));
                    assert(self@.outbound =~= pre.update(
                        j as int,
                        old(self)@.outbound[j as int].push(f),
                    ));
                }
            }
            j += 1;
        }
    }

    /// Move a `Connected` session to `Authenticated` under a username that
    /// no other session holds, and index it in the registry.
    pub fn authenticate_client(&mut self, client_id: &String, username: String) -> (r: Result<
        (),
        String,
    >)
        requires
            wf_state(old(self)@),
        ensures
            wf_state(final(self)@),
            match r {
                Ok(()) => {
                    &&& !has_user(old(self)@, username@)
                    &&& exists|i: int|
                        0 <= i < old(self)@.clients.len() && #[trigger] old(self)@.clients[i].id
                            == client_id@ && old(self)@.clients[i].session_state
                            == SessionStateV::Connected && final(self)@.clients =~= old(
                            self,
                        )@.clients.update(
                            i,
                            (ClientV {
                                username: Some(username@),
                                session_state: SessionStateV::Authenticated(username@),
                                ..old(self)@.clients[i]
                            }),
                        )
                    &&& final(self)@.registry =~= old(self)@.registry.push(
                        (username@, client_id@),
                    )
                    &&& final(self)@.rooms == old(self)@.rooms
                    &&& final(self)@.outbound == old(self)@.outbound
                },
                Err(e) => {
                    &&& final(self)@ == old(self)@
                    &&& (has_user(old(self)@, username@) || !has_client(old(self)@, client_id@)
                        || exists|i: int|
                        0 <= i < old(self)@.clients.len() && #[trigger] old(self)@.clients[i].id
                            == client_id@ && old(self)@.clients[i].session_state
                            != SessionStateV::Connected)
                    &&& (has_user(old(self)@, username@) ==> e@ == "Nom d'utilisateur deja pris"@)
                    &&& (!has_user(old(self)@, username@) && !has_client(old(self)@, client_id@)
                        ==> e@ == "Client non trouve"@)
                    &&& (!has_user(old(self)@, username@) && has_client(old(self)@, client_id@)
                        ==> e@ == "Action non autorisee"@)
                },
            },
    {
        if self.find_user_idx(username.as_str()).is_some() {
            return Err(String::from_str("Nom d'utilisateur deja pris"));
        }
        let i = match self.find_client_idx(client_id.as_str()) {
            Some(i) => i,
            None => {
                return Err(String::from_str("Client non trouve"));
            },
        };
        let connected = match self.clients[i].session_state {
            SessionState::Connected => true,
            _ => false,
        };
        if !connected {
            return Err(String::from_str("Action non autorisee"));
        }
        let sn = self.clients[i].sequence_number;
        self.clients[i] = Client {
            id: client_id.clone(),
            username: Some(username.clone()),
            current_room: None,
            session_state: SessionState::Authenticated(username.clone()),
            sequence_number: sn,
        };
        self.username_to_client.push((username, client_id.clone()));
        proof {
            let s = self@;
            let os = old(self)@;
            let ii = i as int;
            let nc = (ClientV {
                username: Some(username@),
                session_state: SessionStateV::Authenticated(username@),
                ..os.clients[ii]
            });
            assert(s.clients[ii] =~= nc);
            assert(s.clients =~= os.clients.update(ii, nc));
            assert(s.registry =~= os.registry.push((username@, client_id@)));
            assert(s.rooms == os.rooms);
            assert(s.outbound == os.outbound);
            assert(distinct_clients(s.clients)) by {
                assert forall|a: int, b: int|
                    0 <= a < s.clients.len() && 0 <= b < s.clients.len() && a != b implies (
                #[trigger] s.clients[a].id) != (#[trigger] s.clients[b].id) by {
                    assert(s.clients[a].id == os.clients[a].id);
                    assert(s.clients[b].id == os.clients[b].id);
                }
            }
            assert forall|k: int| 0 <= k < s.registry.len() implies #[trigger] registry_entry_ok(s, k) by {
                if k < os.registry.len() {
                    assert(registry_entry_ok(os, k));
                    let w = choose|w: int|
                        0 <= w < os.clients.len() && #[trigger] os.clients[w].id == os.registry[k].1
                            && os.clients[w].username == Some(os.registry[k].0);
                    assert(w != ii) by {
                        if w == ii {
                            assert(os.clients[ii].username is None);
                        }
                    }
                    assert(s.clients[w].id == s.registry[k].1 && s.clients[w].username == Some(
                        s.registry[k].0,
                    ));
                } else {
                    assert(s.registry[k] == (username@, client_id@));
                    assert(s.clients[ii].id == client_id@ && s.clients[ii].username == Some(
                        username@,
                    ));
                }
            }
            assert forall|w: int|
                0 <= w < s.clients.len() && (#[trigger] s.clients[w]).username is Some implies exists|k: int|
                0 <= k < s.registry.len() && #[trigger] s.registry[k] == (
                s.clients[w].username->0, s.clients[w].id) by {
                if w == ii {
                    assert(s.registry[os.registry.len() as int] == (username@, client_id@));
                    assert(s.clients[ii].id == client_id@);
                } else {
                    let k = choose|k: int|
                        0 <= k < os.registry.len() && #[trigger] os.registry[k] == (
                        os.clients[w].username->0, os.clients[w].id);
                    assert(s.registry[k] == (s.clients[w].username->0, s.clients[w].id));
                }
            }
            assert forall|k: int, l: int|
                0 <= k < s.registry.len() && 0 <= l < s.registry.len() && k != l implies (
            #[trigger] s.registry[k]).0 != (#[trigger] s.registry[l]).0 by {
                if k == os.registry.len() as int {
                    assert(os.registry[l].0 != username@);
                } else if l == os.registry.len() as int {
                    assert(os.registry[k].0 != username@);
                }
            }
            assert forall|k: int, m: int|
                0 <= k < s.rooms.len() && 0 <= m < s.rooms[k].users.len() implies #[trigger] member_entry_ok(s, k, m) by {
                assert(member_entry_ok(os, k, m));
                let w = choose|w: int|
                    0 <= w < os.clients.len() && #[trigger] os.clients[w].id == os.rooms[k].users[m].0
                        && os.clients[w].current_room == Some(os.rooms[k].id)
                        && os.clients[w].username == Some(os.rooms[k].users[m].1);
                assert(w != ii) by {
                    if w == ii {
                        assert(os.clients[ii].current_room is None);
                    }
                }
                assert(s.clients[w].id == s.rooms[k].users[m].0 && s.clients[w].current_room
                    == Some(s.rooms[k].id) && s.clients[w].username == Some(s.rooms[k].users[m].1));
            }
            assert forall|w: int|
                0 <= w < s.clients.len() && (#[trigger] s.clients[w]).current_room is Some implies exists|k: int|
                0 <= k < s.rooms.len() && (#[trigger] s.rooms[k]).id == s.clients[w].current_room->0
                    && is_member(s.rooms[k], s.clients[w].id) by {
                assert(w != ii);
                let k = choose|k: int|
                    0 <= k < os.rooms.len() && (#[trigger] os.rooms[k]).id
                        == os.clients[w].current_room->0 && is_member(os.rooms[k], os.clients[w].id);
                assert(s.rooms[k].id == s.clients[w].current_room->0 && is_member(
                    s.rooms[k],
                    s.clients[w].id,
                ));
            }
            assert(wf_state(s));
        }
        Ok(())
    }


    /// Take session `i` out of the room it is in and notify that room's
    /// remaining members. The session record itself is left as it was, so
    /// the caller must restore the membership invariant.
    fn detach_from_room(&mut self, i: usize, u: &String, rid: &String)
        requires
            wf_queues(old(self)@),
            wf_clients_seq(old(self)@),
            wf_rooms_seq(old(self)@),
            wf_membership(old(self)@),
            i < old(self)@.clients.len(),
            old(self)@.clients[i as int].current_room == Some(rid@),
            old(self)@.clients[i as int].username == Some(u@),
        ensures
            final(self)@.clients == old(self)@.clients,
            final(self)@.registry == old(self)@.registry,
            wf_queues(final(self)@),
            wf_rooms_seq(final(self)@),
            final(self)@.rooms.len() == old(self)@.rooms.len(),
            exists|k: int|
                0 <= k < old(self)@.rooms.len() && (#[trigger] old(self)@.rooms[k]).id == rid@
                    && room_lost_member(
                    old(self)@.rooms,
                    final(self)@.rooms,
                    k,
                    old(self)@.clients[i as int].id,
                ),
            left_notice_sent(old(self)@, final(self)@.outbound, i as int, u@, rid@),
    {
        let ghost os = old(self)@;
        let cid = self.clients[i].id.clone();
        let k = match self.find_room_idx(rid.as_str()) {
            Some(k) => k,
            None => {
                proof {
                    assert(os.clients[i as int].current_room is Some);
                    let kk = choose|kk: int|
                        0 <= kk < os.rooms.len() && (#[trigger] os.rooms[kk]).id
                            == os.clients[i as int].current_room->0 && is_member(
                            os.rooms[kk],
                            os.clients[i as int].id,
                        );
                    assert(os.rooms[kk].id == rid@);
                    assert(false);
                }
                return ;
            },
        };
        proof {
            let kk = choose|kk: int|
                0 <= kk < os.rooms.len() && (#[trigger] os.rooms[kk]).id
                    == os.clients[i as int].current_room->0 && is_member(
                    os.rooms[kk],
                    os.clients[i as int].id,
                );
            assert(kk == k as int);
            assert(is_member(os.rooms[k as int], cid@));
        }
        let removed = self.rooms[k].remove_user(&cid);
        proof {
            let s = self@;
            assert(s.rooms =~= os.rooms.update(k as int, s.rooms[k as int]));
            match removed {
                Some(_) => {
                    let m = choose|m: int|
                        0 <= m < os.rooms[k as int].users.len() && os.rooms[k as int].users[m].0
                            == cid@ && s.rooms[k as int].users =~= os.rooms[
                        k as int].users.remove(m);
                    assert(s.rooms[k as int] =~= (RoomV {
                        users: os.rooms[k as int].users.remove(m),
                        ..os.rooms[k as int]
                    }));
                    assert(room_lost_member(os.rooms, s.rooms, k as int, cid@));
                },
                None => {
                    assert(false);
                },
            }
            assert(wf_rooms_seq(s)) by {
                assert forall|a: int, b: int|
                    0 <= a < s.rooms.len() && 0 <= b < s.rooms.len() && a != b implies (
                #[trigger] s.rooms[a].id) != (#[trigger] s.rooms[b].id) by {
                    assert(s.rooms[a].id == os.rooms[a].id);
                    assert(s.rooms[b].id == os.rooms[b].id);
                }
                assert forall|a: int| 0 <= a < s.rooms.len() implies wf_room(
                    #[trigger] s.rooms[a],
                ) by {
                    if a != k as int {
                        assert(s.rooms[a] == os.rooms[a]);
                    }
                }
            }
        }
        let frame = ProtocolFrame::new(
            Message::UserLeft { username: u.clone(), room_id: rid.clone() },
            None,
            0,
        );
        let ghost mid = self@;
        self.broadcast_to_room(rid.as_str(), frame, Some(&cid));
        proof {
            let s = self@;
            assert(left_notice_sent(os, s.outbound, i as int, u@, rid@)) by {
                assert forall|j: int| 0 <= j < os.clients.len() implies (if os.clients[
                j].current_room == Some(rid@) && j != i as int {
                    pushed_msg(
                        os.outbound[j],
                        s.outbound[j],
                        MessageV::UserLeft { username: u@, room_id: rid@ },
                        None,
                    )
                } else {
                    s.outbound[j] == os.outbound[j]
                }) by {
                    if os.clients[j].current_room == Some(rid@) && j != i as int {
                        assert(os.clients[j].id != os.clients[i as int].id);
                        assert(s.outbound[j] == os.outbound[j].push(frame@));
                        assert(s.outbound[j].subrange(0, os.outbound[j].len() as int)
                            =~= os.outbound[j]);
                    } else if j == i as int {
                        assert(os.clients[j].id == cid@);
                    }
                }
            }
        }
    }

    /// Put an in-room session back to `Authenticated`, take it out of its
    /// room, and notify the room's remaining members.
    #[verifier::rlimit(100)]
    #[verifier::spinoff_prover]
    pub fn leave_room(&mut self, client_id: &String) -> (r: Result<(), String>)
        requires
            wf_state(old(self)@),
        ensures
            wf_state(final(self)@),
            match r {
                Ok(()) => exists|i: int|
                    0 <= i < old(self)@.clients.len() && (#[trigger] old(self)@.clients[i]).id
                        == client_id@ && (old(self)@.clients[i].current_room matches Some(rid)
                        && old(self)@.clients[i].username matches Some(u) && final(self)@.clients
                        =~= old(self)@.clients.update(
                        i,
                        (ClientV {
                            current_room: None,
                            session_state: SessionStateV::Authenticated(u),
                            ..old(self)@.clients[i]
                        }),
                    ) && final(self)@.registry == old(self)@.registry && (exists|k: int|
                        0 <= k < old(self)@.rooms.len() && (#[trigger] old(self)@.rooms[k]).id
                            == rid && room_lost_member(
                            old(self)@.rooms,
                            final(self)@.rooms,
                            k,
                            client_id@,
                        )) && left_notice_sent(old(self)@, final(self)@.outbound, i, u, rid)),
                Err(e) => {
                    &&& final(self)@ == old(self)@
                    &&& (!has_client(old(self)@, client_id@) ==> e@ == "Client non trouve"@)
                    &&& ((exists|i: int|
                        0 <= i < old(self)@.clients.len() && (#[trigger] old(
                            self,
                        )@.clients[i]).id == client_id@ && old(self)@.clients[i].username is None)
                        ==> e@ == "Client non authentifie"@)
                    &&& ((exists|i: int|
                        0 <= i < old(self)@.clients.len() && (#[trigger] old(
                            self,
                        )@.clients[i]).id == client_id@ && old(self)@.clients[i].username is Some
                            && old(self)@.clients[i].current_room is None) ==> e@
                        == "Vous n'etes pas dans un salon"@)
                    &&& (has_client(old(self)@, client_id@) ==> (exists|i: int|
                        0 <= i < old(self)@.clients.len() && (#[trigger] old(
                            self,
                        )@.clients[i]).id == client_id@ && (old(self)@.clients[i].username is None
                            || old(self)@.clients[i].current_room is None)))
                },
            },
    {
        let ghost os = old(self)@;
        let i = match self.find_client_idx(client_id.as_str()) {
            Some(i) => i,
            None => {
                return Err(String::from_str("Client non trouve"));
            },
        };
        let u = match &self.clients[i].username {
            Some(u) => u.clone(),
            None => {
                return Err(String::from_str("Client non authentifie"));
            },
        };
        let rid = match &self.clients[i].current_room {
            Some(rid) => rid.clone(),
            None => {
                return Err(String::from_str("Vous n'etes pas dans un salon"));
            },
        };
        self.detach_from_room(i, &u, &rid);
        let sn = self.clients[i].sequence_number;
        let cid_kept = self.clients[i].id.clone();
        self.clients[i] = Client {
            id: cid_kept,
            username: Some(u.clone()),
            current_room: None,
            session_state: SessionState::Authenticated(u.clone()),
            sequence_number: sn,
        };
        proof {
            let s = self@;
            let ii = i as int;
            let nc = (ClientV {
                current_room: None,
                session_state: SessionStateV::Authenticated(u@),
                ..os.clients[ii]
            });
            assert(s.clients[ii] =~= nc);
            assert(s.clients =~= os.clients.update(ii, nc));
            assert(s.registry == os.registry);
            let k = choose|k: int|
                0 <= k < os.rooms.len() && (#[trigger] os.rooms[k]).id == rid@ && room_lost_member(
                    os.rooms,
                    s.rooms,
                    k,
                    client_id@,
                );
            let m = choose|m: int|
                0 <= m < os.rooms[k].users.len() && (#[trigger] os.rooms[k].users[m]).0
                    == client_id@ && s.rooms =~= os.rooms.update(
                    k,
                    (RoomV { users: os.rooms[k].users.remove(m), ..os.rooms[k] }),
                );
            assert(wf_clients_seq(s)) by {
                assert forall|a: int, b: int|
                    0 <= a < s.clients.len() && 0 <= b < s.clients.len() && a != b implies (
                #[trigger] s.clients[a].id) != (#[trigger] s.clients[b].id) by {
                    assert(s.clients[a].id == os.clients[a].id);
                    assert(s.clients[b].id == os.clients[b].id);
                }
            }
            assert(wf_registry(s)) by {
                assert forall|t: int| 0 <= t < s.registry.len() implies #[trigger] registry_entry_ok(
                    s,
                    t,
                ) by {
                    assert(registry_entry_ok(os, t));
                    let w = choose|w: int|
                        0 <= w < os.clients.len() && #[trigger] os.clients[w].id == os.registry[t].1
                            && os.clients[w].username == Some(os.registry[t].0);
                    assert(s.clients[w].id == s.registry[t].1 && s.clients[w].username == Some(
                        s.registry[t].0,
                    ));
                }
                assert forall|w: int|
                    0 <= w < s.clients.len() && (#[trigger] s.clients[w]).username is Some implies exists|t: int|
                    0 <= t < s.registry.len() && #[trigger] s.registry[t] == (
                    s.clients[w].username->0, s.clients[w].id) by {
                    let t = choose|t: int|
                        0 <= t < os.registry.len() && #[trigger] os.registry[t] == (
                        os.clients[w].username->0, os.clients[w].id);
                    assert(s.registry[t] == (s.clients[w].username->0, s.clients[w].id));
                }
            }
            assert(wf_membership(s)) by {
                assert forall|a: int, b: int|
                    0 <= a < s.rooms.len() && 0 <= b < s.rooms[a].users.len() implies #[trigger] member_entry_ok(s, a, b) by {
                    let entry = s.rooms[a].users[b];
                    let ob = if a == k && b >= m {
                        b + 1
                    } else {
                        b
                    };
                    assert(os.rooms[a].users[ob] == entry);
                    assert(member_entry_ok(os, a, ob));
                    let w = choose|w: int|
                        0 <= w < os.clients.len() && #[trigger] os.clients[w].id == os.rooms[
                        a].users[ob].0 && os.clients[w].current_room == Some(os.rooms[a].id)
                            && os.clients[w].username == Some(os.rooms[a].users[ob].1);
                    assert(w != ii) by {
                        if w == ii {
                            assert(os.rooms[a].id == rid@);
                            assert(a == k);
                            assert(entry.0 == client_id@);
                            assert(os.rooms[k].users[ob].0 == os.rooms[k].users[m].0);
                            assert(wf_room(os.rooms[k]));
                        }
                    }
                    assert(s.clients[w].id == entry.0 && s.clients[w].current_room == Some(
                        s.rooms[a].id,
                    ) && s.clients[w].username == Some(entry.1));
                }
                assert forall|w: int|
                    0 <= w < s.clients.len() && (#[trigger] s.clients[w]).current_room is Some implies exists|a: int|
                    0 <= a < s.rooms.len() && (#[trigger] s.rooms[a]).id
                        == s.clients[w].current_room->0 && is_member(
                        s.rooms[a],
                        s.clients[w].id,
                    ) by {
                    assert(w != ii);
                    let a = choose|a: int|
                        0 <= a < os.rooms.len() && (#[trigger] os.rooms[a]).id == os.clients[
                        w].current_room->0 && is_member(os.rooms[a], os.clients[w].id);
                    if a == k {
                        let b = choose|b: int|
                            0 <= b < os.rooms[a].users.len() && (#[trigger] os.rooms[
                            a].users[b]).0 == os.clients[w].id;
                        assert(b != m) by {
                            if b == m {
                                assert(os.clients[w].id == client_id@);
                                assert(os.clients[ii].id == client_id@);
                            }
                        }
                        let nb = if b < m {
                            b
                        } else {
                            b - 1
                        };
                        assert(s.rooms[a].users[nb] == os.rooms[a].users[b]);
                        assert(is_member(s.rooms[a], s.clients[w].id));
                    } else {
                        assert(s.rooms[a] == os.rooms[a]);
                        assert(is_member(s.rooms[a], s.clients[w].id));
                    }
                }
            }
            assert(wf_state(s));
        }
        Ok(())
    }


    /// Admit an authenticated session to an existing room, leaving and
    /// notifying its old room first if it was in one, and yield the new
    /// room's member usernames.
    #[verifier::rlimit(100)]
    #[verifier::spinoff_prover]
    pub fn join_room(&mut self, client_id: &String, room_id: &str) -> (r: Result<
        Vec<String>,
        String,
    >)
        requires
            wf_state(old(self)@),
        ensures
            wf_state(final(self)@),
            match r {
                Ok(users) => join_ok(
                    old(self)@,
                    final(self)@,
                    client_id@,
                    room_id@,
                    users.deep_view(),
                ),
                Err(e) => {
                    &&& final(self)@ == old(self)@
                    &&& (!has_client(old(self)@, client_id@) ==> e@ == "Client non trouve"@)
                    &&& ((exists|i: int|
                        0 <= i < old(self)@.clients.len() && (#[trigger] old(
                            self,
                        )@.clients[i]).id == client_id@ && old(self)@.clients[i].username is None)
                        ==> e@ == "Client non authentifie"@)
                    &&& ((exists|i: int|
                        0 <= i < old(self)@.clients.len() && (#[trigger] old(
                            self,
                        )@.clients[i]).id == client_id@ && old(self)@.clients[i].username is Some)
                        && !has_room(old(self)@, room_id@) ==> e@ == "Salon inexistant"@)
                    &&& (has_client(old(self)@, client_id@) ==> ((exists|i: int|
                        0 <= i < old(self)@.clients.len() && (#[trigger] old(
                            self,
                        )@.clients[i]).id == client_id@ && old(self)@.clients[i].username is None)
                        || !has_room(old(self)@, room_id@)))
                },
            },
    {
        let ghost os = old(self)@;
        let i = match self.find_client_idx(client_id.as_str()) {
            Some(i) => i,
            None => {
                return Err(String::from_str("Client non trouve"));
            },
        };
        let u = match &self.clients[i].username {
            Some(u) => u.clone(),
            None => {
                return Err(String::from_str("Client non authentifie"));
            },
        };
        let rk = match self.find_room_idx(room_id) {
            Some(rk) => rk,
            None => {
                return Err(String::from_str("Salon inexistant"));
            },
        };
        let old_room = match &self.clients[i].current_room {
            Some(r) => Some(r.clone()),
            None => None,
        };
        match &old_room {
            Some(old_rid) => {
                self.detach_from_room(i, &u, old_rid);
            },
            None => {},
        }
        let ghost midv = self@;
        proof {
            let ii = i as int;
            let rkk = rk as int;
            assert(!is_member(midv.rooms[rkk], client_id@)) by {
                match os.clients[ii].current_room {
                    None => {
                        assert(midv.rooms == os.rooms);
                        if is_member(os.rooms[rkk], client_id@) {
                            let b = choose|b: int|
                                0 <= b < os.rooms[rkk].users.len() && (#[trigger] os.rooms[
                                rkk].users[b]).0 == client_id@;
                            assert(member_entry_ok(os, rkk, b));
                            let w = choose|w: int|
                                0 <= w < os.clients.len() && #[trigger] os.clients[w].id
                                    == os.rooms[rkk].users[b].0 && os.clients[w].current_room
                                    == Some(os.rooms[rkk].id) && os.clients[w].username == Some(
                                    os.rooms[rkk].users[b].1,
                                );
                            assert(w == ii);
                            assert(false);
                        }
                    },
                    Some(old_ridv) => {
                        let ok_ = choose|ok_: int|
                            0 <= ok_ < os.rooms.len() && (#[trigger] os.rooms[ok_]).id == old_ridv
                                && room_lost_member(os.rooms, midv.rooms, ok_, client_id@);
                        let m = choose|m: int|
                            0 <= m < os.rooms[ok_].users.len() && (#[trigger] os.rooms[
                            ok_].users[m]).0 == client_id@ && midv.rooms =~= os.rooms.update(
                                ok_,
                                (RoomV {
                                    users: os.rooms[ok_].users.remove(m),
                                    ..os.rooms[ok_]
                                }),
                            );
                        if ok_ == rkk {
                            if is_member(midv.rooms[rkk], client_id@) {
                                let b = choose|b: int|
                                    0 <= b < midv.rooms[rkk].users.len() && (#[trigger] midv.rooms[
                                    rkk].users[b]).0 == client_id@;
                                let ob = if b < m {
                                    b
                                } else {
                                    b + 1
                                };
                                assert(os.rooms[rkk].users[ob].0 == client_id@);
                                assert(wf_room(os.rooms[rkk]));
                                assert(false);
                            }
                        } else {
                            assert(midv.rooms[rkk] == os.rooms[rkk]);
                            if is_member(os.rooms[rkk], client_id@) {
                                let b = choose|b: int|
                                    0 <= b < os.rooms[rkk].users.len() && (#[trigger] os.rooms[
                                    rkk].users[b]).0 == client_id@;
                                assert(member_entry_ok(os, rkk, b));
                                let w = choose|w: int|
                                    0 <= w < os.clients.len() && #[trigger] os.clients[w].id
                                        == os.rooms[rkk].users[b].0 && os.clients[w].current_room
                                        == Some(os.rooms[rkk].id) && os.clients[w].username
                                        == Some(os.rooms[rkk].users[b].1);
                                assert(w == ii);
                                assert(os.rooms[rkk].id == old_ridv);
                                assert(false);
                            }
                        }
                    },
                }
            }
        }
        let sn = self.clients[i].sequence_number;
        let cid_kept = self.clients[i].id.clone();
        self.clients[i] = Client {
            id: cid_kept,
            username: Some(u.clone()),
            current_room: Some(String::from_str(room_id)),
            session_state: SessionState::InRoom(u.clone(), String::from_str(room_id)),
            sequence_number: sn,
        };
        self.rooms[rk].add_user(client_id.clone(), u.clone());
        let users = self.rooms[rk].get_usernames();
        proof {
            let s = self@;
            let ii = i as int;
            let rkk = rk as int;
            let uu = os.clients[ii].username->0;
            let nc = (ClientV {
                current_room: Some(room_id@),
                session_state: SessionStateV::InRoom(uu, room_id@),
                ..os.clients[ii]
            });
            assert(s.clients[ii] =~= nc);
            assert(s.clients =~= os.clients.update(ii, nc));
            assert(s.registry == os.registry);
            assert(s.rooms =~= midv.rooms.update(
                rkk,
                (RoomV {
                    users: midv.rooms[rkk].users.push((client_id@, uu)),
                    ..midv.rooms[rkk]
                }),
            ));
            assert(join_ok_at(os, s, client_id@, room_id@, users.deep_view(), ii, rkk)) by {
                match os.clients[ii].current_room {
                    None => {
                        assert(midv.rooms == os.rooms);
                        assert(midv.outbound == os.outbound);
                    },
                    Some(old_ridv) => {
                        let ok_ = choose|ok_: int|
                            0 <= ok_ < os.rooms.len() && (#[trigger] os.rooms[ok_]).id == old_ridv
                                && room_lost_member(os.rooms, midv.rooms, ok_, client_id@);
                        assert({
                            &&& 0 <= ok_ < os.rooms.len() && (#[trigger] os.rooms[ok_]).id
                                == old_ridv
                            &&& room_lost_member(os.rooms, midv.rooms, ok_, client_id@)
                            &&& s.rooms =~= (#[trigger] midv.rooms.update(
                                rkk,
                                (RoomV {
                                    users: midv.rooms[rkk].users.push((client_id@, uu)),
                                    ..midv.rooms[rkk]
                                }),
                            ))
                            &&& left_notice_sent(os, s.outbound, ii, uu, old_ridv)
                        });
                    },
                }
            }
            assert(join_ok(os, s, client_id@, room_id@, users.deep_view()));
            assert(wf_clients_seq(s)) by {
                assert forall|a: int, b: int|
                    0 <= a < s.clients.len() && 0 <= b < s.clients.len() && a != b implies (
                #[trigger] s.clients[a].id) != (#[trigger] s.clients[b].id) by {
                    assert(s.clients[a].id == os.clients[a].id);
                    assert(s.clients[b].id == os.clients[b].id);
                }
            }
            assert(wf_rooms_seq(s)) by {
                assert forall|a: int, b: int|
                    0 <= a < s.rooms.len() && 0 <= b < s.rooms.len() && a != b implies (
                #[trigger] s.rooms[a].id) != (#[trigger] s.rooms[b].id) by {
                    assert(s.rooms[a].id == midv.rooms[a].id && midv.rooms[a].id == os.rooms[a].id);
                    assert(s.rooms[b].id == midv.rooms[b].id && midv.rooms[b].id == os.rooms[b].id);
                }
                assert forall|a: int| 0 <= a < s.rooms.len() implies wf_room(
                    #[trigger] s.rooms[a],
                ) by {
                    if a != rkk {
                        assert(s.rooms[a] == midv.rooms[a]);
                    }
                }
            }
            assert(wf_registry(s)) by {
                assert forall|t: int| 0 <= t < s.registry.len() implies #[trigger] registry_entry_ok(
                    s,
                    t,
                ) by {
                    assert(registry_entry_ok(os, t));
                    let w = choose|w: int|
                        0 <= w < os.clients.len() && #[trigger] os.clients[w].id == os.registry[t].1
                            && os.clients[w].username == Some(os.registry[t].0);
                    assert(s.clients[w].id == s.registry[t].1 && s.clients[w].username == Some(
                        s.registry[t].0,
                    ));
                }
                assert forall|w: int|
                    0 <= w < s.clients.len() && (#[trigger] s.clients[w]).username is Some implies exists|t: int|
                    0 <= t < s.registry.len() && #[trigger] s.registry[t] == (
                    s.clients[w].username->0, s.clients[w].id) by {
                    let t = choose|t: int|
                        0 <= t < os.registry.len() && #[trigger] os.registry[t] == (
                        os.clients[w].username->0, os.clients[w].id);
                    assert(s.registry[t] == (s.clients[w].username->0, s.clients[w].id));
                }
            }
            assert(wf_membership(s)) by {
                let ghost detached: bool = os.clients[ii].current_room is Some;
                let ok_ = if detached {
                    choose|ok_: int|
                        0 <= ok_ < os.rooms.len() && (#[trigger] os.rooms[ok_]).id == os.clients[
                        ii].current_room->0 && room_lost_member(
                            os.rooms,
                            midv.rooms,
                            ok_,
                            client_id@,
                        )
                } else {
                    -1
                };
                let m = if detached {
                    choose|m: int|
                        0 <= m < os.rooms[ok_].users.len() && (#[trigger] os.rooms[
                        ok_].users[m]).0 == client_id@ && midv.rooms =~= os.rooms.update(
                            ok_,
                            (RoomV { users: os.rooms[ok_].users.remove(m), ..os.rooms[ok_] }),
                        )
                } else {
                    -1
                };
                assert forall|a: int, b: int|
                    0 <= a < s.rooms.len() && 0 <= b < s.rooms[a].users.len() implies #[trigger] member_entry_ok(s, a, b) by {
                    if a == rkk && b == s.rooms[rkk].users.len() - 1 {
                        assert(s.rooms[a].users[b] == (client_id@, uu));
                        assert(s.clients[ii].id == client_id@ && s.clients[ii].current_room
                            == Some(s.rooms[a].id) && s.clients[ii].username == Some(uu));
                    } else {
                        assert(s.rooms[a].users[b] == midv.rooms[a].users[b]);
                        let ob = if detached && a == ok_ && b >= m {
                            b + 1
                        } else {
                            b
                        };
                        assert(os.rooms[a].users[ob] == midv.rooms[a].users[b]);
                        assert(member_entry_ok(os, a, ob));
                        let w = choose|w: int|
                            0 <= w < os.clients.len() && #[trigger] os.clients[w].id == os.rooms[
                            a].users[ob].0 && os.clients[w].current_room == Some(os.rooms[a].id)
                                && os.clients[w].username == Some(os.rooms[a].users[ob].1);
                        assert(w != ii) by {
                            if w == ii {
                                assert(detached);
                                assert(os.rooms[a].id == os.clients[ii].current_room->0);
                                assert(a == ok_);
                                assert(os.rooms[ok_].users[ob].0 == client_id@);
                                assert(wf_room(os.rooms[ok_]));
                                assert(ob == m);
                                assert(false);
                            }
                        }
                        assert(s.clients[w].id == s.rooms[a].users[b].0 && s.clients[
                        w].current_room == Some(s.rooms[a].id) && s.clients[w].username == Some(
                            s.rooms[a].users[b].1,
                        ));
                    }
                }
                assert forall|w: int|
                    0 <= w < s.clients.len() && (#[trigger] s.clients[w]).current_room is Some implies exists|a: int|
                    0 <= a < s.rooms.len() && (#[trigger] s.rooms[a]).id
                        == s.clients[w].current_room->0 && is_member(
                        s.rooms[a],
                        s.clients[w].id,
                    ) by {
                    if w == ii {
                        assert(s.rooms[rkk].users.last() == (client_id@, uu));
                        assert(s.rooms[rkk].users[s.rooms[rkk].users.len() - 1].0 == client_id@);
                        assert(is_member(s.rooms[rkk], s.clients[ii].id));
                        assert(s.rooms[rkk].id == room_id@);
                    } else {
                        let a = choose|a: int|
                            0 <= a < os.rooms.len() && (#[trigger] os.rooms[a]).id == os.clients[
                            w].current_room->0 && is_member(os.rooms[a], os.clients[w].id);
                        let b = choose|b: int|
                            0 <= b < os.rooms[a].users.len() && (#[trigger] os.rooms[
                            a].users[b]).0 == os.clients[w].id;
                        let bm = if detached && a == ok_ {
                            if b < m {
                                b
                            } else {
                                b - 1
                            }
                        } else {
                            b
                        };
                        assert(b != m || !detached || a != ok_) by {
                            if detached && a == ok_ && b == m {
                                assert(os.clients[w].id == client_id@);
                                assert(os.clients[ii].id == client_id@);
                            }
                        }
                        assert(midv.rooms[a].users[bm] == os.rooms[a].users[b]);
                        if a == rkk {
                            assert(s.rooms[a].users[bm] == midv.rooms[a].users[bm]);
                        } else {
                            assert(s.rooms[a] == midv.rooms[a]);
                        }
                        assert(is_member(s.rooms[a], s.clients[w].id));
                        assert(s.rooms[a].id == s.clients[w].current_room->0);
                    }
                }
            }
            assert(wf_queues(s));
            assert(wf_state(s));
        }
        Ok(users)
    }


    /// Deliver a private message to the session holding the target
    /// username, stamped with the current time.
    pub fn send_private_message(
        &mut self,
        from_username: &str,
        to_username: &str,
        content: &str,
    ) -> (r: Result<(), String>)
        requires
            wf_state(old(self)@),
        ensures
            wf_state(final(self)@),
            final(self)@.clients == old(self)@.clients,
            final(self)@.rooms == old(self)@.rooms,
            final(self)@.registry == old(self)@.registry,
            match r {
                Ok(()) => has_user(old(self)@, to_username@) && (forall|j: int|
                    0 <= j < old(self)@.clients.len() ==> if (exists|t: int|
                        0 <= t < old(self)@.registry.len() && (#[trigger] old(
                            self,
                        )@.registry[t]).0 == to_username@ && old(self)@.registry[t].1 == old(
                            self,
                        )@.clients[j].id) {
                        pushed_private(
                            old(self)@.outbound[j],
                            final(self)@.outbound[j],
                            from_username@,
                            content@,
                            Some(old(self)@.clients[j].id),
                        )
                    } else {
                        final(self)@.outbound[j] == old(self)@.outbound[j]
                    }),
                Err(e) => !has_user(old(self)@, to_username@) && final(self)@ == old(self)@ && e@
                    == "Utilisateur destinataire non trouve"@,
            },
    {
        let ghost os = old(self)@;
        let t = match self.find_user_idx(to_username) {
            Some(t) => t,
            None => {
                return Err(String::from_str("Utilisateur destinataire non trouve"));
            },
        };
        let target_id = self.username_to_client[t].1.clone();
        let w = match self.find_client_idx(target_id.as_str()) {
            Some(w) => w,
            None => {
                proof {
                    assert(registry_entry_ok(os, 
                        t as int));
                    let ww = choose|ww: int|
                        0 <= ww < os.clients.len() && #[trigger] os.clients[ww].id == os.registry[
                        t as int].1 && os.clients[ww].username == Some(os.registry[t as int].0);
                    assert(false);
                }
                return Err(String::from_str("Utilisateur destinataire non trouve"));
            },
        };
        let msg = Message::PrivateMessageReceived {
            from: String::from_str(from_username),
            content: String::from_str(content),
            timestamp: crate::clock::now_rfc3339(),
        };
        let frame = ProtocolFrame::new(msg, Some(target_id.clone()), 0);
        self.enqueue(w, frame);
        proof {
            let s = self@;
            let ww = w as int;
            let tt = t as int;
            assert(s.outbound[ww].subrange(0, os.outbound[ww].len() as int) =~= os.outbound[ww]);
            assert(pushed_private(
                os.outbound[ww],
                s.outbound[ww],
                from_username@,
                content@,
                Some(os.clients[ww].id),
            ));
            assert forall|j: int| 0 <= j < os.clients.len() implies (if (exists|q: int|
                0 <= q < os.registry.len() && (#[trigger] os.registry[q]).0 == to_username@
                    && os.registry[q].1 == os.clients[j].id) {
                pushed_private(
                    os.outbound[j],
                    s.outbound[j],
                    from_username@,
                    content@,
                    Some(os.clients[j].id),
                )
            } else {
                s.outbound[j] == os.outbound[j]
            }) by {
                if j != ww {
                    if exists|q: int|
                        0 <= q < os.registry.len() && (#[trigger] os.registry[q]).0 == to_username@
                            && os.registry[q].1 == os.clients[j].id {
                        let q = choose|q: int|
                            0 <= q < os.registry.len() && (#[trigger] os.registry[q]).0
                                == to_username@ && os.registry[q].1 == os.clients[j].id;
                        assert(q == tt);
                        assert(os.clients[j].id == os.clients[ww].id);
                        assert(false);
                    }
                }
            }
            assert(s.clients == os.clients && s.rooms == os.rooms && s.registry == os.registry);
            assert(s.outbound.len() == s.clients.len());
            lemma_wf_same_components(os, s);
        }
        Ok(())
    }

    /// Forget a session entirely: its registry entry and room membership
    /// go first (telling the room), then the session and its queue.
    #[verifier::rlimit(100)]
    #[verifier::spinoff_prover]
    pub fn remove_client(&mut self, client_id: &String)
        requires
            wf_state(old(self)@),
        ensures
            wf_state(final(self)@),
            !has_client(old(self)@, client_id@) ==> final(self)@ == old(self)@,
            has_client(old(self)@, client_id@) ==> exists|i: int|
                {
                    &&& 0 <= i < old(self)@.clients.len() && (#[trigger] old(
                        self,
                    )@.clients[i]).id == client_id@
                    &&& final(self)@.clients =~= old(self)@.clients.remove(i)
                    &&& (old(self)@.clients[i].username matches Some(u) ==> exists|t: int|
                        0 <= t < old(self)@.registry.len() && #[trigger] old(self)@.registry[t]
                            == (u, client_id@) && final(self)@.registry =~= old(
                            self,
                        )@.registry.remove(t))
                    &&& (old(self)@.clients[i].username is None ==> final(self)@.registry == old(
                        self,
                    )@.registry)
                    &&& (old(self)@.clients[i].current_room matches Some(rid) ==> (exists|k: int|
                        0 <= k < old(self)@.rooms.len() && (#[trigger] old(self)@.rooms[k]).id
                            == rid && room_lost_member(
                            old(self)@.rooms,
                            final(self)@.rooms,
                            k,
                            client_id@,
                        )) && (exists|mid_ob: Seq<Seq<FrameV>>|
                        #[trigger] left_notice_sent(
                            old(self)@,
                            mid_ob,
                            i,
                            old(self)@.clients[i].username->0,
                            rid,
                        ) && final(self)@.outbound =~= mid_ob.remove(i)))
                    &&& (old(self)@.clients[i].current_room is None ==> final(self)@.rooms == old(
                        self,
                    )@.rooms && final(self)@.outbound =~= old(self)@.outbound.remove(i))
                },
    {
        let ghost os = old(self)@;
        let ghost mut removed_at: int = old(self)@.registry.len() as int;
        let ghost mut det_k: int = -1;
        let ghost mut det_m: int = -1;
        let ghost mut mid_ob: Seq<Seq<FrameV>> = old(self)@.outbound;
        let i = match self.find_client_idx(client_id.as_str()) {
            Some(i) => i,
            None => {
                return ;
            },
        };
        let uname_opt = match &self.clients[i].username {
            Some(u) => Some(u.clone()),
            None => None,
        };
        let room_opt = match &self.clients[i].current_room {
            Some(r) => Some(r.clone()),
            None => None,
        };
        match &room_opt {
            Some(rid) => {
                let u2 = match &self.clients[i].username {
                    Some(x) => x.clone(),
                    None => {
                        proof {
                            assert(false);
                        }
                        String::new()
                    },
                };
                self.detach_from_room(i, &u2, rid);
                proof {
                    let kk = choose|kk: int|
                        0 <= kk < os.rooms.len() && (#[trigger] os.rooms[kk]).id == rid@
                            && room_lost_member(os.rooms, self@.rooms, kk, client_id@);
                    det_k = kk;
                    let mm = choose|mm: int|
                        0 <= mm < os.rooms[det_k].users.len() && (#[trigger] os.rooms[
                        det_k].users[mm]).0 == client_id@ && self@.rooms =~= os.rooms.update(
                            det_k,
                            (RoomV {
                                users: os.rooms[det_k].users.remove(mm),
                                ..os.rooms[det_k]
                            }),
                        );
                    det_m = mm;
                    mid_ob = self@.outbound;
                    assert(left_notice_sent(
                        os,
                        mid_ob,
                        i as int,
                        os.clients[i as int].username->0,
                        rid@,
                    ));
                }
            },
            None => {},
        }
        match &uname_opt {
            Some(u) => {
                match self.find_user_idx(u.as_str()) {
                    Some(t) => {
                        proof {
                            let q = choose|q: int|
                                0 <= q < os.registry.len() && #[trigger] os.registry[q] == (
                                os.clients[i as int].username->0, os.clients[i as int].id);
                            assert(q == t as int);
                            assert(os.registry[t as int] == (u@, client_id@));
                        }
                        self.username_to_client.remove(t);
                        proof {
                            removed_at = t as int;
                            assert(self@.registry =~= os.registry.remove(removed_at));
                            assert(os.registry[removed_at] == (
                                os.clients[i as int].username->0,
                                client_id@,
                            ));
                        }
                    },
                    None => {
                        proof {
                            let q = choose|q: int|
                                0 <= q < os.registry.len() && #[trigger] os.registry[q] == (
                                os.clients[i as int].username->0, os.clients[i as int].id);
                            assert(os.registry[q].0 == u@);
                            assert(false);
                        }
                    },
                }
            },
            None => {},
        }
        let ghost mid = self@;
        self.clients.remove(i);
        self.outbound.remove(i);
        proof {
            let s = self@;
            let ii = i as int;
            let detached: bool = room_opt is Some;
            let had_name: bool = uname_opt is Some;
            assert(s.clients =~= os.clients.remove(ii));
            assert(s.outbound =~= mid.outbound.remove(ii));
            assert(s.rooms == mid.rooms);
            assert(s.registry == mid.registry);
            if !detached {
                assert(mid.rooms == os.rooms);
                assert(mid.outbound == os.outbound);
            }
            if had_name {
                assert(s.registry =~= os.registry.remove(removed_at));
            } else {
                assert(s.registry == os.registry);
            }
            lemma_wf_after_removal(
                os,
                s,
                ii,
                removed_at,
                det_k,
                det_m,
                detached,
                had_name,
                client_id@,
            );
            if detached {
                assert(room_lost_member(os.rooms, s.rooms, det_k, client_id@));
                assert(left_notice_sent(
                    os,
                    mid_ob,
                    ii,
                    os.clients[ii].username->0,
                    os.clients[ii].current_room->0,
                ));
                assert(s.outbound =~= mid_ob.remove(ii));
            } else {
                assert(s.outbound =~= os.outbound.remove(ii));
            }
            if had_name {
                assert(os.registry[removed_at] == (os.clients[ii].username->0, client_id@));
            }
        }
    }

    /// Hand over and empty this client's outbound queue, in enqueue order.
    pub fn take_outbound(&mut self, client_id: &String) -> (r: Option<Vec<ProtocolFrame>>)
        requires
            wf_state(old(self)@),
        ensures
            wf_state(final(self)@),
            final(self)@.clients == old(self)@.clients,
            final(self)@.rooms == old(self)@.rooms,
            final(self)@.registry == old(self)@.registry,
            match r {
                Some(v) => exists|i: int|
                    0 <= i < old(self)@.clients.len() && old(self)@.clients[i].id == client_id@
                        && v.deep_view() == old(self)@.outbound[i]
                        && final(self)@.outbound =~= old(self)@.outbound.update(
                        i,
                        Seq::<FrameV>::empty(),
                    ),
                None => !has_client(old(self)@, client_id@) && final(self)@.outbound == old(
                    self,
                )@.outbound,
            },
    {
        let i = match self.find_client_idx(client_id.as_str()) {
            Some(i) => i,
            None => {
                return None;
            },
        };
        let mut q: Vec<ProtocolFrame> = Vec::new();
        core::mem::swap(&mut q, &mut self.outbound[i]);
        proof {
            assert(q.deep_view() == old(self)@.outbound[i as int]);
            assert(self.outbound@[i as int].deep_view() =~= Seq::<FrameV>::empty());
            assert(self@.outbound =~= old(self)@.outbound.update(
                i as int,
                Seq::<FrameV>::empty(),
            ));
            let s = self@;
            let os = old(self)@;
            assert(s.clients == os.clients);
            assert(s.rooms == os.rooms);
            assert(s.registry == os.registry);
            assert(s.outbound.len() == s.clients.len());
            lemma_wf_same_components(os, s);
        }
        Some(q)
    }
}

} // verus!
