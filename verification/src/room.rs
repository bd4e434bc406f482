//! A chat room: a named group whose membership maps client ids to
//! usernames, each client appearing at most once.

use crate::clock::now_rfc3339;
use crate::strutil::str_eq;
use vstd::prelude::*;

verus! {

/// A named room and its members (client id, username).
#[derive(Debug, Clone, PartialEq)]
pub struct Room {
    pub id: String,
    pub name: String,
    pub users: Vec<(String, String)>,
    pub created_at: String,
}

/// Mathematical view of a `Room`.
#[verifier::ext_equal]
pub struct RoomV {
    pub id: Seq<char>,
    pub name: Seq<char>,
    pub users: Seq<(Seq<char>, Seq<char>)>,
    pub created_at: Seq<char>,
}

impl View for Room {
    type V = RoomV;

    open spec fn view(&self) -> RoomV {
        RoomV {
            id: self.id@,
            name: self.name@,
            users: self.users.deep_view(),
            created_at: self.created_at@,
        }
    }
}

impl DeepView for Room {
    type V = RoomV;

    open spec fn deep_view(&self) -> RoomV {
        self.view()
    }
}

/// Whether some member entry carries this client id.
pub open spec fn is_member(r: RoomV, cid: Seq<char>) -> bool {
    exists|i: int| 0 <= i < r.users.len() && #[trigger] r.users[i].0 == cid
}

/// No client id appears twice in the member list.
pub open spec fn wf_room(r: RoomV) -> bool {
    forall|i: int, j: int|
        0 <= i < r.users.len() && 0 <= j < r.users.len() && i != j ==> #[trigger] r.users[i].0
            != #[trigger] r.users[j].0
}

impl Room {
    /// Create an empty room, stamped with the current time.
    pub fn new(id: String, name: String) -> (r: Room)
        ensures
            r@.id == id@,
            r@.name == name@,
            r@.users =~= Seq::<(Seq<char>, Seq<char>)>::empty(),
            r@.created_at.len() > 0,
            wf_room(r@),
    {
        Room { id, name, users: Vec::new(), created_at: now_rfc3339() }
    }

    /// The index of this client's member entry, if there is one.
    fn member_index(&self, client_id: &str) -> (r: Option<usize>)
        ensures
            match r {
                Some(i) => i < self@.users.len() && self@.users[i as int].0 == client_id@,
                None => !is_member(self@, client_id@),
            },
    {
        let mut i: usize = 0;
        while i < self.users.len()
            invariant
                i <= self@.users.len(),
                self@.users.len() == self.users@.len(),
                forall|j: int| 0 <= j < i ==> #[trigger] self@.users[j].0 != client_id@,
            decreases self.users.len() - i,
        {
            if str_eq(self.users[i].0.as_str(), client_id) {
                return Some(i);
            }
            i += 1;
        }
        None
    }

    /// Put this client in the room under this username: a new entry if the
    /// client was absent, otherwise its entry is overwritten.
    pub fn add_user(&mut self, client_id: String, username: String)
        requires
            wf_room(old(self)@),
        ensures
            final(self)@.id == old(self)@.id,
            final(self)@.name == old(self)@.name,
            final(self)@.created_at == old(self)@.created_at,
            wf_room(final(self)@),
            is_member(old(self)@, client_id@) ==> exists|i: int|
                0 <= i < old(self)@.users.len() && old(self)@.users[i].0 == client_id@
                    && final(self)@.users =~= old(self)@.users.update(
                    i,
                    (client_id@, username@),
                ),
            !is_member(old(self)@, client_id@) ==> final(self)@.users =~= old(self)@.users.push(
                (client_id@, username@),
            ),
    {
        match self.member_index(client_id.as_str()) {
            Some(i) => {
                self.users[i] = (client_id, username);
                proof {
                    assert(self@.users =~= old(self)@.users.update(
                        i as int,
                        (old(self)@.users[i as int].0, username@),
                    ));
                    assert(old(self)@.users[i as int].0 == self@.users[i as int].0);
                }
            },
            None => {
                self.users.push((client_id, username));
                proof {
                    assert(self@.users =~= old(self)@.users.push((client_id@, username@)));
                }
            },
        }
    }

    /// Take this client out of the room; yields the username its entry
    /// held, or nothing if it was not a member.
    pub fn remove_user(&mut self, client_id: &String) -> (r: Option<String>)
        requires
            wf_room(old(self)@),
        ensures
            final(self)@.id == old(self)@.id,
            final(self)@.name == old(self)@.name,
            final(self)@.created_at == old(self)@.created_at,
            wf_room(final(self)@),
            !is_member(final(self)@, client_id@),
            match r {
                Some(u) => exists|i: int|
                    0 <= i < old(self)@.users.len() && old(self)@.users[i].0 == client_id@
                        && u@ == old(self)@.users[i].1
                        && final(self)@.users =~= old(self)@.users.remove(i),
                None => !is_member(old(self)@, client_id@)
                    && final(self)@.users == old(self)@.users,
            },
    {
        match self.member_index(client_id.as_str()) {
            Some(i) => {
                let (_, uname) = self.users.remove(i);
                proof {
                    assert(self@.users =~= old(self)@.users.remove(i as int));
                    assert forall|k: int|
                        0 <= k < self@.users.len() implies #[trigger] self@.users[k].0
                        != client_id@ by {
                        if k < i {
                            assert(self@.users[k] == old(self)@.users[k]);
                        } else {
                            assert(self@.users[k] == old(self)@.users[k + 1]);
                        }
                    }
                }
                Some(uname)
            },
            None => None,
        }
    }

    /// The usernames of the members, in member order.
    pub fn get_usernames(&self) -> (r: Vec<String>)
        ensures
            r.deep_view() =~= Seq::new(self@.users.len(), |i: int| self@.users[i].1),
    {
        let mut r: Vec<String> = Vec::new();
        let mut i: usize = 0;
        while i < self.users.len()
            invariant
                i <= self.users@.len(),
                r@.len() == i,
                forall|j: int| 0 <= j < i ==> #[trigger] r@[j]@ == self@.users[j].1,
            decreases self.users.len() - i,
        {
            r.push(self.users[i].1.clone());
            i += 1;
        }
        proof {
            assert forall|j: int| 0 <= j < r@.len() implies #[trigger] r.deep_view()[j]
                == self@.users[j].1 by {
                assert(r@[j]@ == self@.users[j].1);
            }
            assert(r.deep_view() =~= Seq::new(self@.users.len(), |i: int| self@.users[i].1));
        }
        r
    }

    /// How many members the room has.
    pub fn user_count(&self) -> (r: usize)
        ensures
            r == self@.users.len(),
    {
        self.users.len()
    }
}

} // verus!
