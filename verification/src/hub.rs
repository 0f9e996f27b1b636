//! The hub: the single coordinator that owns the session registry, the room
//! membership and the shared counter, and performs broadcast fan-out.
//!
//! The hub is a pure state machine. Commands arrive as plain values
//! (`Connect`, `Disconnect`, `Join`, `ClientMessage`, `ListRooms`, or the
//! recognized counter command) and are applied one at a time; a broadcast
//! returns the list of deliveries to perform instead of performing I/O.
//! Each command's effect is stated by a `..._post` predicate relating the
//! state before and after, and those predicates are what the trace laws in
//! `laws` build on.

use vstd::prelude::*;
use crate::codec::count_frame;

verus! {

/// A payload the hub hands back for delivery to one session.
pub struct Message(pub String);

/// Command: register a new session. The caller keeps the session's
/// outbound handle and pairs it with the returned id.
pub struct Connect;

/// Command: remove a session from the registry and from its room.
pub struct Disconnect {
    pub id: usize,
}

/// Command: broadcast `msg` to every member of `room` except the sender.
pub struct ClientMessage {
    /// Id of the sending session, excluded from the fan-out.
    pub id: usize,
    /// The payload, opaque to the hub.
    pub msg: String,
    /// Name of the target room.
    pub room: String,
}

/// Query: the names of the current rooms.
pub struct ListRooms;

/// Command: move a session into a room, leaving its previous room.
pub struct Join {
    pub id: usize,
    pub name: String,
}

/// One pending delivery: `msg` is to be pushed to session `to`'s
/// outbound handle.
pub struct Delivery {
    pub to: usize,
    pub msg: Message,
}

/// A named set of member sessions.
pub struct Room {
    pub name: String,
    pub members: Vec<usize>,
}

/// No value occurs twice in `s`.
pub open spec fn nodup(s: Seq<usize>) -> bool {
    forall|a: int, b: int| 0 <= a < b < s.len() ==> s[a] != s[b]
}

/// Some room in `rs` is named `room`.
pub open spec fn seq_has_room(rs: Seq<Room>, room: Seq<char>) -> bool {
    exists|i: int| 0 <= i < rs.len() && rs[i].name@ == room
}

/// Session `id` is a member of the room named `room` in `rs`.
pub open spec fn seq_member_of(rs: Seq<Room>, id: usize, room: Seq<char>) -> bool {
    exists|i: int|
        0 <= i < rs.len() && rs[i].name@ == room && rs[i].members@.contains(id)
}

/// Room names are distinct and no member list repeats an id.
pub open spec fn rooms_wf(rs: Seq<Room>) -> bool {
    &&& forall|i: int, j: int| 0 <= i < j < rs.len() ==> rs[i].name@ != rs[j].name@
    &&& forall|i: int| 0 <= i < rs.len() ==> nodup(#[trigger] rs[i].members@)
}

/// Every room member is a registered session.
pub open spec fn members_registered(rs: Seq<Room>, sessions: Seq<usize>) -> bool {
    forall|i: int, k: int|
        0 <= i < rs.len() && 0 <= k < rs[i].members@.len()
            ==> sessions.contains(#[trigger] rs[i].members@[k])
}

/// No session is a member of two different rooms.
pub open spec fn one_room(rs: Seq<Room>) -> bool {
    forall|i: int, j: int, id: usize|
        0 <= i < j < rs.len() && #[trigger] rs[i].members@.contains(id)
            ==> !(#[trigger] rs[j].members@.contains(id))
}

/// The coordinator state: session registry, rooms, id source and the
/// process-wide shared counter.
pub struct ChatServer {
    /// Ids of the currently registered sessions.
    pub sessions: Vec<usize>,
    /// The rooms, created on first use.
    pub rooms: Vec<Room>,
    /// Source of fresh session ids: every live id is below it.
    pub next_id: usize,
    /// The shared counter, incremented once per recognized command.
    pub counter: u64,
}

impl ChatServer {
    /// `id` is in the session registry.
    pub open spec fn is_registered(&self, id: usize) -> bool {
        self.sessions@.contains(id)
    }

    /// A room named `room` exists.
    pub open spec fn has_room(&self, room: Seq<char>) -> bool {
        seq_has_room(self.rooms@, room)
    }

    /// `id` is a member of the room named `room`.
    pub open spec fn member_of(&self, id: usize, room: Seq<char>) -> bool {
        seq_member_of(self.rooms@, id, room)
    }

    /// Internal consistency: ids are unique and below `next_id`, room
    /// names are distinct, member lists hold no duplicates, every member
    /// is registered, and a session is in at most one room.
    pub open spec fn wf(&self) -> bool {
        &&& nodup(self.sessions@)
        &&& forall|i: int|
            0 <= i < self.sessions@.len()
                ==> (#[trigger] self.sessions@[i] as int) < self.next_id as int
        &&& rooms_wf(self.rooms@)
        &&& members_registered(self.rooms@, self.sessions@)
        &&& one_room(self.rooms@)
    }

    /// Creates an empty hub: no sessions, no rooms, counter at zero.
    pub fn new() -> (s: ChatServer)
        ensures
            s.wf(),
            s.sessions@.len() == 0,
            s.rooms@.len() == 0,
            s.counter == 0,
            forall|id: usize| !s.is_registered(id),
            forall|r: Seq<char>| !s.has_room(r),
            forall|id: usize, r: Seq<char>| !s.member_of(id, r),
    {
        ChatServer {
            sessions: Vec::new(),
            rooms: Vec::new(),
            next_id: 0,
            counter: 0,
        }
    }
}

/// The registry after is the registry before.
pub open spec fn registry_unchanged(pre: ChatServer, post: ChatServer) -> bool {
    &&& forall|x: usize| post.is_registered(x) == pre.is_registered(x)
    &&& post.next_id == pre.next_id
}

/// The rooms after are the rooms before: same names, same members.
pub open spec fn rooms_unchanged(pre: ChatServer, post: ChatServer) -> bool {
    &&& forall|r: Seq<char>| post.has_room(r) == pre.has_room(r)
    &&& forall|x: usize, r: Seq<char>| post.member_of(x, r) == pre.member_of(x, r)
}

/// Effect of `Connect`: a fresh id — one never equal to a live id — is
/// registered; nothing else changes. Registration is refused only when the
/// id space is exhausted.
pub open spec fn connect_post(pre: ChatServer, post: ChatServer, r: Option<usize>) -> bool {
    &&& post.counter == pre.counter
    &&& rooms_unchanged(pre, post)
    &&& match r {
        Some(id) => {
            &&& pre.next_id < usize::MAX
            &&& id == pre.next_id
            &&& !pre.is_registered(id)
            &&& post.is_registered(id)
            &&& forall|x: usize| x != id ==> post.is_registered(x) == pre.is_registered(x)
            &&& post.next_id == pre.next_id + 1
        },
        None => {
            &&& pre.next_id == usize::MAX
            &&& post == pre
        },
    }
}

/// Effect of `Disconnect`: `id` is gone from the registry and from every
/// room; every other session's registration and membership is untouched.
/// Rooms themselves are retained. Safe to apply to an unknown id.
pub open spec fn disconnect_post(pre: ChatServer, post: ChatServer, id: usize) -> bool {
    &&& post.counter == pre.counter
    &&& post.next_id == pre.next_id
    &&& !post.is_registered(id)
    &&& forall|x: usize| x != id ==> post.is_registered(x) == pre.is_registered(x)
    &&& forall|r: Seq<char>| !post.member_of(id, r)
    &&& forall|x: usize, r: Seq<char>| x != id ==> post.member_of(x, r) == pre.member_of(x, r)
    &&& forall|r: Seq<char>| post.has_room(r) == pre.has_room(r)
}

/// Effect of `Join`: for a registered `id`, it becomes a member of exactly
/// `room` (created if absent) and of no other room; other sessions keep
/// their membership. For an unknown `id` the hub is unchanged.
pub open spec fn join_post(pre: ChatServer, post: ChatServer, id: usize, room: Seq<char>) -> bool {
    &&& post.counter == pre.counter
    &&& registry_unchanged(pre, post)
    &&& if pre.is_registered(id) {
        &&& post.member_of(id, room)
        &&& forall|r: Seq<char>| r != room ==> !post.member_of(id, r)
        &&& forall|x: usize, r: Seq<char>|
            x != id ==> post.member_of(x, r) == pre.member_of(x, r)
        &&& forall|r: Seq<char>| post.has_room(r) == (pre.has_room(r) || r == room)
    } else {
        post == pre
    }
}

/// Effect of the recognized counter command: the shared counter goes up by
/// exactly one; registry and rooms are untouched.
pub open spec fn pressed_post(pre: ChatServer, post: ChatServer) -> bool {
    &&& post.counter == pre.counter + 1
    &&& registry_unchanged(pre, post)
    &&& rooms_unchanged(pre, post)
}

/// Removes `x` from `v` if present.
fn remove_value(v: &mut Vec<usize>, x: usize)
    requires
        nodup(old(v)@),
    ensures
        nodup(final(v)@),
        !final(v)@.contains(x),
        forall|y: usize| y != x ==> final(v)@.contains(y) == old(v)@.contains(y),
        final(v)@.len() <= old(v)@.len(),
{
    let n: usize = v.len();
    let mut i: usize = 0;
    while i < n
        invariant
            *v == *old(v),
            nodup(v@),
            n == v@.len(),
            0 <= i <= n,
            forall|j: int| 0 <= j < i ==> v@[j] != x,
        decreases n - i,
    {
        if v[i] == x {
            let ghost pre = v@;
            assert(pre[i as int] == x);
            v.remove(i);
            proof {
                pre.remove_ensures(i as int);
                assert(v@.len() == pre.len() - 1);
                assert forall|j: int| 0 <= j < v@.len() implies
                    (#[trigger] v@[j]) == (if j < i { pre[j] } else { pre[j + 1] }) by {
                    if j < i {
                        assert(pre.remove(i as int)[j] == pre[j]);
                    } else {
                        assert(pre.remove(i as int)[j] == pre[j + 1]);
                    }
                }
                assert(nodup(pre));
                assert(pre[i as int] == x);
                assert forall|k: int| 0 <= k < v@.len() implies (#[trigger] v@[k]) != x by {
                    if k < i {
                        assert(v@[k] == pre[k]);
                        assert(pre[k] != x);
                    } else {
                        assert(v@[k] == pre[k + 1]);
                        assert(0 <= i < k + 1 < pre.len());
                        assert(pre[k + 1] != pre[i as int]);
                    }
                }
                assert(!v@.contains(x));
                assert forall|y: usize| y != x implies v@.contains(y) == pre.contains(y) by {
                    if v@.contains(y) {
                        let k = choose|k: int| 0 <= k < v@.len() && v@[k] == y;
                        if k < i {
                            assert(pre[k] == y);
                        } else {
                            assert(pre[k + 1] == y);
                        }
                        assert(pre.contains(y));
                    }
                    if pre.contains(y) {
                        let k = choose|k: int| 0 <= k < pre.len() && pre[k] == y;
                        assert(k != i);
                        if k < i {
                            assert(v@[k] == y);
                        } else {
                            assert(v@[k - 1] == y);
                        }
                        assert(v@.contains(y));
                    }
                }
                assert forall|a: int, b: int| 0 <= a < b < v@.len() implies
                    (#[trigger] v@[a]) != (#[trigger] v@[b]) by {
                    let pa: int = if a < i { a } else { a + 1 };
                    let pb: int = if b < i { b } else { b + 1 };
                    assert(v@[a] == pre[pa]);
                    assert(v@[b] == pre[pb]);
                    assert(0 <= pa < pb < pre.len());
                    assert(pre[pa] != pre[pb]);
                }
            }
            return;
        }
        i += 1;
    }
    proof {
        assert(!v@.contains(x)) by {
            if v@.contains(x) {
                let k = choose|k: int| 0 <= k < v@.len() && v@[k] == x;
            }
        }
    }
}

/// Removes `id` from the member list of every room, leaving names, the
/// other members and the rooms themselves in place.
fn strip_from_rooms(rooms: &mut Vec<Room>, id: usize)
    requires
        forall|j: int|
            0 <= j < old(rooms)@.len() ==> nodup((#[trigger] old(rooms)@[j]).members@),
    ensures
        final(rooms)@.len() == old(rooms)@.len(),
        forall|j: int|
            0 <= j < final(rooms)@.len()
                ==> (#[trigger] final(rooms)@[j].name@) == old(rooms)@[j].name@,
        forall|j: int|
            0 <= j < final(rooms)@.len()
                ==> !(#[trigger] final(rooms)@[j].members@).contains(id),
        forall|j: int, y: usize|
            0 <= j < final(rooms)@.len() && y != id
                ==> (#[trigger] final(rooms)@[j].members@.contains(y))
                    == old(rooms)@[j].members@.contains(y),
        forall|j: int|
            0 <= j < final(rooms)@.len() ==> nodup(#[trigger] final(rooms)@[j].members@),
{
    let ghost pre_rooms = rooms@;
    let n: usize = rooms.len();
    let mut i: usize = 0;
    while i < n
        invariant
            n == rooms@.len(),
            0 <= i <= n,
            pre_rooms == old(rooms)@,
            pre_rooms.len() == n,
            forall|j: int| 0 <= j < n ==> (#[trigger] rooms@[j].name@) == pre_rooms[j].name@,
            forall|j: int| 0 <= j < i ==> !(#[trigger] rooms@[j].members@).contains(id),
            forall|j: int| i <= j < n ==> (#[trigger] rooms@[j].members@) == pre_rooms[j].members@,
            forall|j: int, y: usize|
                0 <= j < n && y != id
                    ==> (#[trigger] rooms@[j].members@.contains(y))
                        == pre_rooms[j].members@.contains(y),
            forall|j: int| 0 <= j < n ==> nodup(#[trigger] rooms@[j].members@),
        decreases n - i,
    {
        let ghost before = rooms@;
        let mut room: Room = rooms.remove(i);
        remove_value(&mut room.members, id);
        let ghost fixed = room;
        rooms.insert(i, room);
        proof {
            before.remove_ensures(i as int);
            assert forall|j: int| 0 <= j < n implies
                #[trigger] rooms@[j] == (if j == i { fixed } else { before[j] }) by {
                if j < i {
                    assert(rooms@[j] == before.remove(i as int)[j]);
                } else if j > i {
                    assert(rooms@[j] == before.remove(i as int)[j - 1]);
                }
            }
        }
        i += 1;
    }
}

/// Whether `x` occurs in `v`.
fn contains_id(v: &Vec<usize>, x: usize) -> (b: bool)
    ensures
        b == v@.contains(x),
{
    let n: usize = v.len();
    let mut i: usize = 0;
    while i < n
        invariant
            n == v@.len(),
            0 <= i <= n,
            forall|j: int| 0 <= j < i ==> v@[j] != x,
        decreases n - i,
    {
        if v[i] == x {
            proof {
                assert(v@[i as int] == x);
            }
            return true;
        }
        i += 1;
    }
    proof {
        if v@.contains(x) {
            let k = choose|k: int| 0 <= k < v@.len() && v@[k] == x;
        }
    }
    false
}

/// Finds the index of the room named `name`, if there is one.
fn find_room(rooms: &Vec<Room>, name: &str) -> (r: Option<usize>)
    ensures
        match r {
            Some(i) => i < rooms@.len() && rooms@[i as int].name@ == name@,
            None => !seq_has_room(rooms@, name@),
        },
{
    let n: usize = rooms.len();
    let mut i: usize = 0;
    while i < n
        invariant
            n == rooms@.len(),
            0 <= i <= n,
            forall|j: int| 0 <= j < i ==> (#[trigger] rooms@[j].name@) != name@,
        decreases n - i,
    {
        if crate::codec::str_eq(rooms[i].name.as_str(), name) {
            return Some(i);
        }
        i += 1;
    }
    proof {
        if seq_has_room(rooms@, name@) {
            let j = choose|j: int| 0 <= j < rooms@.len() && rooms@[j].name@ == name@;
        }
    }
    None
}

impl ChatServer {
    /// Registers a new session and returns its id, unique among all live
    /// ids. Returns `None` only when the id space is exhausted.
    pub fn connect(&mut self, _msg: Connect) -> (r: Option<usize>)
        requires
            old(self).wf(),
        ensures
            final(self).wf(),
            connect_post(*old(self), *final(self), r),
    {
        if self.next_id == usize::MAX {
            return None;
        }
        let id: usize = self.next_id;
        self.next_id = self.next_id + 1;
        let ghost pre = self.sessions@;
        self.sessions.push(id);
        proof {
            assert(!pre.contains(id)) by {
                if pre.contains(id) {
                    let k = choose|k: int| 0 <= k < pre.len() && pre[k] == id;
                }
            }
            assert forall|x: usize| x != id implies
                self.sessions@.contains(x) == pre.contains(x) by {
                if self.sessions@.contains(x) {
                    let k = choose|k: int| 0 <= k < self.sessions@.len() && self.sessions@[k] == x;
                    assert(k < pre.len());
                    assert(pre[k] == x);
                }
                if pre.contains(x) {
                    let k = choose|k: int| 0 <= k < pre.len() && pre[k] == x;
                    assert(self.sessions@[k] == x);
                }
            }
            assert(self.sessions@.contains(id)) by {
                assert(self.sessions@[pre.len() as int] == id);
            }
            assert forall|i: int, k: int|
                0 <= i < self.rooms@.len() && 0 <= k < self.rooms@[i].members@.len()
                    implies self.sessions@.contains(#[trigger] self.rooms@[i].members@[k]) by {
                assert(pre.contains(self.rooms@[i].members@[k]));
                let j = choose|j: int| 0 <= j < pre.len() && pre[j] == self.rooms@[i].members@[k];
                assert(self.sessions@[j] == self.rooms@[i].members@[k]);
            }
        }
        Some(id)
    }

    /// Removes the session from the registry and from its room, if any.
    /// A no-op for an unknown id: disconnect is always safe, including
    /// twice.
    pub fn disconnect(&mut self, msg: Disconnect)
        requires
            old(self).wf(),
        ensures
            final(self).wf(),
            disconnect_post(*old(self), *final(self), msg.id),
    {
        let id: usize = msg.id;
        let ghost pre_rooms = self.rooms@;
        strip_from_rooms(&mut self.rooms, id);
        remove_value(&mut self.sessions, id);
        proof {
            assert forall|k: int| 0 <= k < self.sessions@.len() implies
                (#[trigger] self.sessions@[k] as int) < self.next_id as int by {
                let y = self.sessions@[k];
                assert(self.sessions@.contains(y));
                if y == id {
                    assert(false);
                } else {
                    assert(old(self).sessions@.contains(y));
                    let j = choose|j: int|
                        0 <= j < old(self).sessions@.len() && old(self).sessions@[j] == y;
                }
            }
            assert forall|r: Seq<char>| !self.member_of(id, r) by {
                if self.member_of(id, r) {
                    let j = choose|j: int|
                        0 <= j < self.rooms@.len() && self.rooms@[j].name@ == r
                            && self.rooms@[j].members@.contains(id);
                }
            }
            assert forall|x: usize, r: Seq<char>| x != id implies
                self.member_of(x, r) == old(self).member_of(x, r) by {
                if self.member_of(x, r) {
                    let j = choose|j: int|
                        0 <= j < self.rooms@.len() && self.rooms@[j].name@ == r
                            && self.rooms@[j].members@.contains(x);
                    assert(pre_rooms[j].name@ == r);
                    assert(pre_rooms[j].members@.contains(x));
                }
                if old(self).member_of(x, r) {
                    let j = choose|j: int|
                        0 <= j < pre_rooms.len() && pre_rooms[j].name@ == r
                            && pre_rooms[j].members@.contains(x);
                    assert(self.rooms@[j].name@ == r);
                    assert(self.rooms@[j].members@.contains(x));
                }
            }
            assert forall|r: Seq<char>| self.has_room(r) == old(self).has_room(r) by {
                if self.has_room(r) {
                    let j = choose|j: int|
                        0 <= j < self.rooms@.len() && self.rooms@[j].name@ == r;
                    assert(pre_rooms[j].name@ == r);
                }
                if old(self).has_room(r) {
                    let j = choose|j: int| 0 <= j < pre_rooms.len() && pre_rooms[j].name@ == r;
                    assert(self.rooms@[j].name@ == r);
                }
            }
            assert forall|j: int, k: int|
                0 <= j < self.rooms@.len() && 0 <= k < self.rooms@[j].members@.len()
                    implies self.sessions@.contains(#[trigger] self.rooms@[j].members@[k]) by {
                let y = self.rooms@[j].members@[k];
                assert(self.rooms@[j].members@.contains(y));
                assert(y != id);
                assert(pre_rooms[j].members@.contains(y));
                assert(old(self).sessions@.contains(y));
            }
            assert forall|j1: int, j2: int, y: usize|
                0 <= j1 < j2 < self.rooms@.len()
                    && #[trigger] self.rooms@[j1].members@.contains(y)
                    implies !(#[trigger] self.rooms@[j2].members@.contains(y)) by {
                assert(y != id);
                assert(pre_rooms[j1].members@.contains(y));
                if self.rooms@[j2].members@.contains(y) {
                    assert(pre_rooms[j2].members@.contains(y));
                }
            }
        }
    }

    /// Moves the session into the room named `msg.name`, removing it from
    /// its previous room first and creating the room if absent. A no-op
    /// for an id that is not a registered session.
    pub fn join(&mut self, msg: Join)
        requires
            old(self).wf(),
        ensures
            final(self).wf(),
            join_post(*old(self), *final(self), msg.id, msg.name@),
    {
        let Join { id, name } = msg;
        if !contains_id(&self.sessions, id) {
            return;
        }
        let ghost pre_rooms = self.rooms@;
        strip_from_rooms(&mut self.rooms, id);
        let ghost mid_rooms = self.rooms@;
        let target: Option<usize> = find_room(&self.rooms, name.as_str());
        match target {
            Some(i) => {
                let ghost before = self.rooms@;
                let mut room: Room = self.rooms.remove(i);
                room.members.push(id);
                let ghost fixed = room;
                self.rooms.insert(i, room);
                proof {
                    before.remove_ensures(i as int);
                    assert forall|j: int| 0 <= j < mid_rooms.len() implies
                        #[trigger] self.rooms@[j] == (if j == i { fixed } else { mid_rooms[j] }) by {
                        if j < i {
                            assert(self.rooms@[j] == before.remove(i as int)[j]);
                        } else if j > i {
                            assert(self.rooms@[j] == before.remove(i as int)[j - 1]);
                        }
                    }
                    assert(fixed.members@ == mid_rooms[i as int].members@.push(id));
                    assert(fixed.members@.contains(id)) by {
                        assert(fixed.members@[mid_rooms[i as int].members@.len() as int] == id);
                    }
                    assert forall|y: usize| y != id implies
                        fixed.members@.contains(y) == mid_rooms[i as int].members@.contains(y) by {
                        if fixed.members@.contains(y) {
                            let k = choose|k: int|
                                0 <= k < fixed.members@.len() && fixed.members@[k] == y;
                            assert(k < mid_rooms[i as int].members@.len());
                            assert(mid_rooms[i as int].members@[k] == y);
                        }
                        if mid_rooms[i as int].members@.contains(y) {
                            let k = choose|k: int|
                                0 <= k < mid_rooms[i as int].members@.len()
                                    && mid_rooms[i as int].members@[k] == y;
                            assert(fixed.members@[k] == y);
                        }
                    }
                    assert(nodup(fixed.members@)) by {
                        assert forall|a: int, b: int|
                            0 <= a < b < fixed.members@.len() implies
                            fixed.members@[a] != fixed.members@[b] by {
                            if b == fixed.members@.len() - 1 {
                                assert(fixed.members@[a] == mid_rooms[i as int].members@[a]);
                                if fixed.members@[a] == id {
                                    assert(mid_rooms[i as int].members@.contains(id));
                                }
                            } else {
                                assert(fixed.members@[a] == mid_rooms[i as int].members@[a]);
                                assert(fixed.members@[b] == mid_rooms[i as int].members@[b]);
                            }
                        }
                    }
                    let ii = i as int;
                    assert forall|j: int| 0 <= j < self.rooms@.len() implies
                        (#[trigger] self.rooms@[j].name@) == pre_rooms[j].name@ by {
                        if j == ii {
                            assert(fixed.name@ == mid_rooms[ii].name@);
                        }
                    }
                    assert(pre_rooms[ii].name@ == name@);
                    assert(self.member_of(id, name@)) by {
                        assert(self.rooms@[ii].name@ == name@);
                        assert(self.rooms@[ii].members@.contains(id));
                    }
                    assert forall|r: Seq<char>| r != name@ implies !self.member_of(id, r) by {
                        if self.member_of(id, r) {
                            let j = choose|j: int|
                                0 <= j < self.rooms@.len() && self.rooms@[j].name@ == r
                                    && self.rooms@[j].members@.contains(id);
                            if j != ii {
                                assert(!mid_rooms[j].members@.contains(id));
                            }
                        }
                    }
                    assert forall|x: usize, r: Seq<char>| x != id implies
                        self.member_of(x, r) == old(self).member_of(x, r) by {
                        if self.member_of(x, r) {
                            let j = choose|j: int|
                                0 <= j < self.rooms@.len() && self.rooms@[j].name@ == r
                                    && self.rooms@[j].members@.contains(x);
                            assert(mid_rooms[j].members@.contains(x));
                            assert(pre_rooms[j].members@.contains(x));
                            assert(pre_rooms[j].name@ == r);
                        }
                        if old(self).member_of(x, r) {
                            let j = choose|j: int|
                                0 <= j < pre_rooms.len() && pre_rooms[j].name@ == r
                                    && pre_rooms[j].members@.contains(x);
                            assert(mid_rooms[j].members@.contains(x));
                            assert(self.rooms@[j].members@.contains(x));
                            assert(self.rooms@[j].name@ == r);
                        }
                    }
                    assert forall|r: Seq<char>|
                        self.has_room(r) == (old(self).has_room(r) || r == name@) by {
                        if self.has_room(r) {
                            let j = choose|j: int|
                                0 <= j < self.rooms@.len() && self.rooms@[j].name@ == r;
                            assert(pre_rooms[j].name@ == r);
                            assert(old(self).has_room(r));
                        }
                        if old(self).has_room(r) {
                            let j = choose|j: int|
                                0 <= j < pre_rooms.len() && pre_rooms[j].name@ == r;
                            assert(self.rooms@[j].name@ == r);
                            assert(self.has_room(r));
                        }
                        if r == name@ {
                            assert(self.rooms@[ii].name@ == r);
                            assert(self.has_room(r));
                        }
                    }
                    assert forall|j: int, k: int|
                        0 <= j < self.rooms@.len() && 0 <= k < self.rooms@[j].members@.len()
                            implies
                        self.sessions@.contains(#[trigger] self.rooms@[j].members@[k]) by {
                        let y = self.rooms@[j].members@[k];
                        assert(self.rooms@[j].members@.contains(y));
                        if y == id {
                        } else {
                            assert(mid_rooms[j].members@.contains(y));
                            assert(pre_rooms[j].members@.contains(y));
                        }
                    }
                    assert forall|j1: int, j2: int, y: usize|
                        0 <= j1 < j2 < self.rooms@.len()
                            && #[trigger] self.rooms@[j1].members@.contains(y)
                            implies !(#[trigger] self.rooms@[j2].members@.contains(y)) by {
                        if self.rooms@[j2].members@.contains(y) {
                            if y == id {
                                if j1 != ii {
                                    assert(!mid_rooms[j1].members@.contains(id));
                                }
                                if j2 != ii {
                                    assert(!mid_rooms[j2].members@.contains(id));
                                }
                            } else {
                                assert(mid_rooms[j1].members@.contains(y));
                                assert(pre_rooms[j1].members@.contains(y));
                                assert(mid_rooms[j2].members@.contains(y));
                                assert(pre_rooms[j2].members@.contains(y));
                            }
                        }
                    }
                }
            },
            None => {
                let mut members: Vec<usize> = Vec::new();
                members.push(id);
                let ghost newm = members@;
                self.rooms.push(Room { name, members });
                proof {
                    let i = mid_rooms.len() as int;
                    assert(self.rooms@.len() == mid_rooms.len() + 1);
                    assert forall|j: int| 0 <= j < mid_rooms.len() implies
                        #[trigger] self.rooms@[j] == mid_rooms[j] by {
                    }
                    let fixed = self.rooms@[i];
                    assert(fixed.members@ =~= seq![id]);
                    assert(fixed.members@.contains(id)) by {
                        assert(fixed.members@[0] == id);
                    }
                    assert forall|y: usize| y != id implies
                        !fixed.members@.contains(y) by {
                        if fixed.members@.contains(y) {
                            let k = choose|k: int|
                                0 <= k < fixed.members@.len() && fixed.members@[k] == y;
                        }
                    }
                    assert(nodup(fixed.members@));
                    assert forall|j: int| 0 <= j < mid_rooms.len() implies
                        (#[trigger] mid_rooms[j].name@) != name@ by {
                        if mid_rooms[j].name@ == name@ {
                            assert(seq_has_room(mid_rooms, name@));
                        }
                    }
                    assert(fixed.name@ == msg.name@);
                    assert forall|j: int| 0 <= j < mid_rooms.len() implies
                        (#[trigger] self.rooms@[j].name@) == pre_rooms[j].name@ by {
                        assert(self.rooms@[j] == mid_rooms[j]);
                    }
                    assert(self.member_of(id, msg.name@)) by {
                        assert(self.rooms@[i].name@ == msg.name@);
                        assert(self.rooms@[i].members@.contains(id));
                    }
                    assert forall|r: Seq<char>| r != msg.name@ implies !self.member_of(id, r) by {
                        if self.member_of(id, r) {
                            let j = choose|j: int|
                                0 <= j < self.rooms@.len() && self.rooms@[j].name@ == r
                                    && self.rooms@[j].members@.contains(id);
                            if j != i {
                                assert(!mid_rooms[j].members@.contains(id));
                            }
                        }
                    }
                    assert forall|x: usize, r: Seq<char>| x != id implies
                        self.member_of(x, r) == old(self).member_of(x, r) by {
                        if self.member_of(x, r) {
                            let j = choose|j: int|
                                0 <= j < self.rooms@.len() && self.rooms@[j].name@ == r
                                    && self.rooms@[j].members@.contains(x);
                            assert(j != i);
                            assert(mid_rooms[j].members@.contains(x));
                            assert(pre_rooms[j].members@.contains(x));
                            assert(pre_rooms[j].name@ == r);
                        }
                        if old(self).member_of(x, r) {
                            let j = choose|j: int|
                                0 <= j < pre_rooms.len() && pre_rooms[j].name@ == r
                                    && pre_rooms[j].members@.contains(x);
                            assert(mid_rooms[j].members@.contains(x));
                            assert(self.rooms@[j].members@.contains(x));
                            assert(self.rooms@[j].name@ == r);
                        }
                    }
                    assert forall|r: Seq<char>|
                        self.has_room(r) == (old(self).has_room(r) || r == msg.name@) by {
                        if self.has_room(r) {
                            let j = choose|j: int|
                                0 <= j < self.rooms@.len() && self.rooms@[j].name@ == r;
                            if j != i {
                                assert(pre_rooms[j].name@ == r);
                                assert(old(self).has_room(r));
                            }
                        }
                        if old(self).has_room(r) {
                            let j = choose|j: int|
                                0 <= j < pre_rooms.len() && pre_rooms[j].name@ == r;
                            assert(self.rooms@[j].name@ == r);
                            assert(self.has_room(r));
                        }
                        if r == msg.name@ {
                            assert(self.rooms@[i].name@ == r);
                            assert(self.has_room(r));
                        }
                    }
                    assert forall|j1: int, j2: int|
                        0 <= j1 < j2 < self.rooms@.len() implies
                        (#[trigger] self.rooms@[j1].name@) != (#[trigger] self.rooms@[j2].name@) by {
                        if j2 == i {
                            assert(self.rooms@[j1].name@ == mid_rooms[j1].name@);
                        } else {
                            assert(self.rooms@[j1].name@ == pre_rooms[j1].name@);
                            assert(self.rooms@[j2].name@ == pre_rooms[j2].name@);
                        }
                    }
                    assert forall|j: int, k: int|
                        0 <= j < self.rooms@.len() && 0 <= k < self.rooms@[j].members@.len()
                            implies
                        self.sessions@.contains(#[trigger] self.rooms@[j].members@[k]) by {
                        let y = self.rooms@[j].members@[k];
                        assert(self.rooms@[j].members@.contains(y));
                        if y == id {
                        } else {
                            assert(j != i);
                            assert(mid_rooms[j].members@.contains(y));
                            assert(pre_rooms[j].members@.contains(y));
                        }
                    }
                    assert forall|j1: int, j2: int, y: usize|
                        0 <= j1 < j2 < self.rooms@.len()
                            && #[trigger] self.rooms@[j1].members@.contains(y)
                            implies !(#[trigger] self.rooms@[j2].members@.contains(y)) by {
                        if self.rooms@[j2].members@.contains(y) {
                            if y == id {
                                if j1 != i {
                                    assert(!mid_rooms[j1].members@.contains(id));
                                }
                                if j2 != i {
                                    assert(!mid_rooms[j2].members@.contains(id));
                                }
                            } else {
                                assert(j1 != i && j2 != i);
                                assert(mid_rooms[j1].members@.contains(y));
                                assert(pre_rooms[j1].members@.contains(y));
                                assert(mid_rooms[j2].members@.contains(y));
                                assert(pre_rooms[j2].members@.contains(y));
                            }
                        }
                    }
                }
            },
        }
    }

    /// Fan-out: one delivery of `message` for every member of the room
    /// named `room`, except `skip_id`. The sender is excluded
    /// unconditionally; an unknown room broadcasts to nobody. Each member
    /// other than `skip_id` gets exactly one delivery.
    pub fn send_message(&self, room: &str, message: &str, skip_id: usize) -> (r: Vec<Delivery>)
        requires
            self.wf(),
        ensures
            forall|t: int| 0 <= t < r@.len() ==> (#[trigger] r@[t]).to != skip_id,
            forall|t: int| 0 <= t < r@.len() ==> (#[trigger] r@[t]).msg.0@ == message@,
            forall|t: int|
                0 <= t < r@.len() ==> self.member_of((#[trigger] r@[t]).to, room@),
            forall|x: usize|
                self.member_of(x, room@) && x != skip_id
                    ==> exists|t: int| 0 <= t < r@.len() && (#[trigger] r@[t]).to == x,
            forall|t1: int, t2: int| 0 <= t1 < t2 < r@.len() ==> r@[t1].to != r@[t2].to,
    {
        let mut out: Vec<Delivery> = Vec::new();
        let target: Option<usize> = find_room(&self.rooms, room);
        match target {
            None => {
                proof {
                    assert forall|x: usize| !self.member_of(x, room@) by {
                        if self.member_of(x, room@) {
                            let j = choose|j: int|
                                0 <= j < self.rooms@.len() && self.rooms@[j].name@ == room@
                                    && self.rooms@[j].members@.contains(x);
                            assert(seq_has_room(self.rooms@, room@));
                        }
                    }
                }
            },
            Some(ri) => {
                let n: usize = self.rooms[ri].members.len();
                let mut k: usize = 0;
                while k < n
                    invariant
                        self.wf(),
                        (ri as int) < self.rooms@.len(),
                        self.rooms@[ri as int].name@ == room@,
                        n == self.rooms@[ri as int].members@.len(),
                        0 <= k <= n,
                        forall|t: int|
                            0 <= t < out@.len() ==> (#[trigger] out@[t]).to != skip_id,
                        forall|t: int|
                            0 <= t < out@.len() ==> (#[trigger] out@[t]).msg.0@ == message@,
                        forall|t: int|
                            0 <= t < out@.len()
                                ==> exists|m: int|
                                    0 <= m < k
                                        && self.rooms@[ri as int].members@[m]
                                            == (#[trigger] out@[t]).to,
                        forall|m: int|
                            0 <= m < k && (#[trigger] self.rooms@[ri as int].members@[m]) != skip_id
                                ==> exists|t: int|
                                    0 <= t < out@.len()
                                        && out@[t].to == self.rooms@[ri as int].members@[m],
                        forall|t1: int, t2: int|
                            0 <= t1 < t2 < out@.len() ==> out@[t1].to != out@[t2].to,
                    decreases n - k,
                {
                    let member: usize = self.rooms[ri].members[k];
                    if member != skip_id {
                        let ghost old_out = out@;
                        let body: String = message.to_owned();
                        out.push(Delivery { to: member, msg: Message(body) });
                        proof {
                            assert(out@[out@.len() - 1].to == member);
                            assert(nodup(self.rooms@[ri as int].members@));
                            assert forall|t1: int, t2: int|
                                0 <= t1 < t2 < out@.len() implies out@[t1].to != out@[t2].to by {
                                if t2 == out@.len() - 1 {
                                    assert(out@[t1] == old_out[t1]);
                                    let m = choose|m: int|
                                        0 <= m < k
                                            && self.rooms@[ri as int].members@[m] == old_out[t1].to;
                                    assert(self.rooms@[ri as int].members@[m]
                                        != self.rooms@[ri as int].members@[k as int]);
                                } else {
                                    assert(out@[t1] == old_out[t1]);
                                    assert(out@[t2] == old_out[t2]);
                                }
                            }
                            assert forall|t: int| 0 <= t < out@.len() implies
                                exists|m: int|
                                    0 <= m < k + 1
                                        && self.rooms@[ri as int].members@[m]
                                            == (#[trigger] out@[t]).to by {
                                if t < out@.len() - 1 {
                                    assert(out@[t] == old_out[t]);
                                    let m = choose|m: int|
                                        0 <= m < k
                                            && self.rooms@[ri as int].members@[m] == old_out[t].to;
                                    assert(self.rooms@[ri as int].members@[m] == out@[t].to);
                                } else {
                                    assert(self.rooms@[ri as int].members@[k as int] == out@[t].to);
                                }
                            }
                            assert forall|m: int|
                                0 <= m < k + 1
                                    && (#[trigger] self.rooms@[ri as int].members@[m]) != skip_id
                                    implies
                                exists|t: int|
                                    0 <= t < out@.len()
                                        && out@[t].to == self.rooms@[ri as int].members@[m] by {
                                if m < k {
                                    let t0 = choose|t0: int|
                                        0 <= t0 < old_out.len()
                                            && old_out[t0].to == self.rooms@[ri as int].members@[m];
                                    assert(out@[t0].to == self.rooms@[ri as int].members@[m]);
                                } else {
                                    assert(out@[out@.len() - 1].to
                                        == self.rooms@[ri as int].members@[m]);
                                }
                            }
                        }
                    }
                    k += 1;
                }
                proof {
                    assert forall|t: int| 0 <= t < out@.len() implies
                        self.member_of((#[trigger] out@[t]).to, room@) by {
                        let m = choose|m: int|
                            0 <= m < n && self.rooms@[ri as int].members@[m] == out@[t].to;
                        assert(self.rooms@[ri as int].members@.contains(out@[t].to));
                    }
                    assert forall|x: usize|
                        self.member_of(x, room@) && x != skip_id implies
                        exists|t: int| 0 <= t < out@.len() && (#[trigger] out@[t]).to == x by {
                        let j = choose|j: int|
                            0 <= j < self.rooms@.len() && self.rooms@[j].name@ == room@
                                && self.rooms@[j].members@.contains(x);
                        assert(j == ri) by {
                            if j != ri {
                                assert(self.rooms@[j].name@ == self.rooms@[ri as int].name@);
                            }
                        }
                        let m = choose|m: int|
                            0 <= m < self.rooms@[ri as int].members@.len()
                                && self.rooms@[ri as int].members@[m] == x;
                    }
                }
            },
        }
        out
    }

    /// Handles a room broadcast command: deliveries of `msg.msg` for every
    /// member of `msg.room` except the sender `msg.id`.
    pub fn client_message(&self, msg: &ClientMessage) -> (r: Vec<Delivery>)
        requires
            self.wf(),
        ensures
            forall|t: int| 0 <= t < r@.len() ==> (#[trigger] r@[t]).to != msg.id,
            forall|t: int| 0 <= t < r@.len() ==> (#[trigger] r@[t]).msg.0@ == msg.msg@,
            forall|t: int|
                0 <= t < r@.len() ==> self.member_of((#[trigger] r@[t]).to, msg.room@),
            forall|x: usize|
                self.member_of(x, msg.room@) && x != msg.id
                    ==> exists|t: int| 0 <= t < r@.len() && (#[trigger] r@[t]).to == x,
            forall|t1: int, t2: int| 0 <= t1 < t2 < r@.len() ==> r@[t1].to != r@[t2].to,
    {
        self.send_message(msg.room.as_str(), msg.msg.as_str(), msg.id)
    }

    /// A point-in-time snapshot of the current room names.
    pub fn list_rooms(&self, _msg: ListRooms) -> (r: Vec<String>)
        ensures
            r@.len() == self.rooms@.len(),
            forall|i: int| 0 <= i < r@.len() ==> (#[trigger] r@[i])@ == self.rooms@[i].name@,
    {
        let mut out: Vec<String> = Vec::new();
        let n: usize = self.rooms.len();
        let mut i: usize = 0;
        while i < n
            invariant
                n == self.rooms@.len(),
                0 <= i <= n,
                out@.len() == i,
                forall|j: int| 0 <= j < i ==> (#[trigger] out@[j])@ == self.rooms@[j].name@,
            decreases n - i,
        {
            out.push(self.rooms[i].name.clone());
            i += 1;
        }
        out
    }

    /// Handles the recognized counter command: increments the shared
    /// counter by exactly one and returns one delivery of the new value's
    /// broadcast frame for every connected session.
    pub fn pressed(&mut self) -> (r: Vec<Delivery>)
        requires
            old(self).wf(),
            old(self).counter < u64::MAX,
        ensures
            final(self).wf(),
            pressed_post(*old(self), *final(self)),
            forall|t: int|
                0 <= t < r@.len() ==> final(self).is_registered((#[trigger] r@[t]).to),
            forall|t: int|
                0 <= t < r@.len()
                    ==> (#[trigger] r@[t]).msg.0@ == count_frame(final(self).counter as nat),
            forall|x: usize|
                final(self).is_registered(x)
                    ==> exists|t: int| 0 <= t < r@.len() && (#[trigger] r@[t]).to == x,
            forall|t1: int, t2: int| 0 <= t1 < t2 < r@.len() ==> r@[t1].to != r@[t2].to,
    {
        self.counter = self.counter + 1;
        let text: String = crate::codec::encode_count(self.counter);
        let ghost mid = *self;
        let mut out: Vec<Delivery> = Vec::new();
        let n: usize = self.sessions.len();
        let mut k: usize = 0;
        while k < n
            invariant
                *self == mid,
                nodup(self.sessions@),
                n == self.sessions@.len(),
                0 <= k <= n,
                text@ == count_frame(self.counter as nat),
                forall|t: int|
                    0 <= t < out@.len()
                        ==> (#[trigger] out@[t]).msg.0@ == count_frame(self.counter as nat),
                forall|t: int|
                    0 <= t < out@.len()
                        ==> exists|m: int|
                            0 <= m < k && self.sessions@[m] == (#[trigger] out@[t]).to,
                forall|m: int|
                    0 <= m < k
                        ==> exists|t: int|
                            0 <= t < out@.len() && out@[t].to == (#[trigger] self.sessions@[m]),
                forall|t1: int, t2: int|
                    0 <= t1 < t2 < out@.len() ==> out@[t1].to != out@[t2].to,
            decreases n - k,
        {
            let target: usize = self.sessions[k];
            let ghost old_out = out@;
            out.push(Delivery { to: target, msg: Message(text.clone()) });
            proof {
                assert(out@[out@.len() - 1].to == target);
                assert forall|t1: int, t2: int|
                    0 <= t1 < t2 < out@.len() implies out@[t1].to != out@[t2].to by {
                    if t2 == out@.len() - 1 {
                        assert(out@[t1] == old_out[t1]);
                        let m = choose|m: int| 0 <= m < k && self.sessions@[m] == old_out[t1].to;
                        assert(self.sessions@[m] != self.sessions@[k as int]);
                    } else {
                        assert(out@[t1] == old_out[t1]);
                        assert(out@[t2] == old_out[t2]);
                    }
                }
                assert forall|t: int| 0 <= t < out@.len() implies
                    exists|m: int|
                        0 <= m < k + 1 && self.sessions@[m] == (#[trigger] out@[t]).to by {
                    if t < out@.len() - 1 {
                        assert(out@[t] == old_out[t]);
                        let m = choose|m: int| 0 <= m < k && self.sessions@[m] == old_out[t].to;
                        assert(self.sessions@[m] == out@[t].to);
                    } else {
                        assert(self.sessions@[k as int] == out@[t].to);
                    }
                }
                assert forall|m: int| 0 <= m < k + 1 implies
                    exists|t: int|
                        0 <= t < out@.len() && out@[t].to == (#[trigger] self.sessions@[m]) by {
                    if m < k {
                        let t0 = choose|t0: int|
                            0 <= t0 < old_out.len() && old_out[t0].to == self.sessions@[m];
                        assert(out@[t0].to == self.sessions@[m]);
                    } else {
                        assert(out@[out@.len() - 1].to == self.sessions@[m]);
                    }
                }
            }
            k += 1;
        }
        proof {
            assert forall|t: int| 0 <= t < out@.len() implies
                self.is_registered((#[trigger] out@[t]).to) by {
                let m = choose|m: int| 0 <= m < n && self.sessions@[m] == out@[t].to;
                assert(self.sessions@.contains(out@[t].to));
            }
            assert forall|x: usize| self.is_registered(x) implies
                exists|t: int| 0 <= t < out@.len() && (#[trigger] out@[t]).to == x by {
                let m = choose|m: int| 0 <= m < self.sessions@.len() && self.sessions@[m] == x;
            }
        }
        out
    }
}

} // verus!
