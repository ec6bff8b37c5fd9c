//! The membership index: a bidirectional mapping between rooms and the users
//! currently in them. The two directions are kept as separate edge lists --
//! exactly mirrored, which is the index's central invariant. A game room
//! exists only while it has members; the global room, once created, persists
//! even when empty.

use vstd::prelude::*;
use crate::messages::RoomId;

verus! {

/// No element occurs twice.
pub open spec fn seq_nodup<T>(s: Seq<T>) -> bool {
    forall|i: int, j: int| 0 <= i < s.len() && 0 <= j < s.len() && s[i] == s[j] ==> i == j
}

/// Pushing extends what a sequence contains by exactly the new element.
pub proof fn lemma_push_contains<T>(s: Seq<T>, x: T)
    ensures
        forall|y: T| s.push(x).contains(y) == (s.contains(y) || y == x),
{
    let s1 = s.push(x);
    assert forall|y: T| s1.contains(y) == (s.contains(y) || y == x) by {
        if s1.contains(y) {
            let i = choose|i: int| 0 <= i < s1.len() && s1[i] == y;
            if i < s.len() {
                assert(s[i] == y);
            }
        }
        if s.contains(y) {
            let i = choose|i: int| 0 <= i < s.len() && s[i] == y;
            assert(s1[i] == y);
        }
        if y == x {
            assert(s1[s.len() as int] == y);
        }
    }
}

pub proof fn lemma_nodup_push<T>(s: Seq<T>, x: T)
    requires
        seq_nodup(s),
        !s.contains(x),
    ensures
        seq_nodup(s.push(x)),
        forall|y: T| s.push(x).contains(y) == (s.contains(y) || y == x),
{
    let s1 = s.push(x);
    assert forall|i: int, j: int|
        0 <= i < s1.len() && 0 <= j < s1.len() && s1[i] == s1[j] implies i == j by {
        if i < s.len() && j < s.len() {
            assert(s[i] == s[j]);
        } else if i == s.len() && j < s.len() {
            assert(s.contains(x));
        } else if j == s.len() && i < s.len() {
            assert(s.contains(x));
        }
    }
    assert forall|y: T| s1.contains(y) == (s.contains(y) || y == x) by {
        if s1.contains(y) {
            let i = choose|i: int| 0 <= i < s1.len() && s1[i] == y;
            if i < s.len() {
                assert(s[i] == y);
            }
        }
        if s.contains(y) {
            let i = choose|i: int| 0 <= i < s.len() && s[i] == y;
            assert(s1[i] == y);
        }
        if y == x {
            assert(s1[s.len() as int] == y);
        }
    }
}

pub proof fn lemma_nodup_remove<T>(s: Seq<T>, at: int)
    requires
        seq_nodup(s),
        0 <= at < s.len(),
    ensures
        seq_nodup(s.remove(at)),
        forall|y: T| s.remove(at).contains(y) == (s.contains(y) && y != s[at]),
{
    let s1 = s.remove(at);
    assert forall|i: int, j: int|
        0 <= i < s1.len() && 0 <= j < s1.len() && s1[i] == s1[j] implies i == j by {
        let i0: int = if i < at { i } else { i + 1 };
        let j0: int = if j < at { j } else { j + 1 };
        assert(s1[i] == s[i0] && s1[j] == s[j0]);
    }
    assert forall|y: T| s1.contains(y) == (s.contains(y) && y != s[at]) by {
        if s1.contains(y) {
            let i = choose|i: int| 0 <= i < s1.len() && s1[i] == y;
            let i0: int = if i < at { i } else { i + 1 };
            assert(s[i0] == y);
            if y == s[at] {
                assert(s[i0] == s[at]);
            }
        }
        if s.contains(y) && y != s[at] {
            let i = choose|i: int| 0 <= i < s.len() && s[i] == y;
            assert(i != at);
            let i1: int = if i < at { i } else { i - 1 };
            assert(s1[i1] == y);
        }
    }
}

/// Bidirectional room/user membership.
pub struct MembershipIndex {
    member_edges: Vec<(RoomId, u128)>,
    user_edges: Vec<(u128, RoomId)>,
    global_present: bool,
}

impl MembershipIndex {
    /// `user` is listed among the members of `room`.
    pub closed spec fn has_member(self, room: RoomId, user: u128) -> bool {
        self.member_edges@.contains((room, user))
    }

    /// `room` is listed among the rooms of `user`.
    pub closed spec fn has_user_room(self, user: u128, room: RoomId) -> bool {
        self.user_edges@.contains((user, room))
    }

    /// The current member set of `room` (empty for an unknown room).
    pub open spec fn members_of(self, room: RoomId) -> Set<u128> {
        Set::new(|u: u128| self.has_member(room, u))
    }

    /// The current room set of `user` (empty for an unknown user).
    pub open spec fn rooms_of(self, user: u128) -> Set<RoomId> {
        Set::new(|r: RoomId| self.has_user_room(user, r))
    }

    /// Whether `room` exists in the index. A game room exists exactly while
    /// it has members; the global room persists once created.
    pub closed spec fn has_room(self, room: RoomId) -> bool {
        match room {
            RoomId::Global => self.global_present,
            RoomId::Game(_) => exists|u: u128| self.has_member(room, u),
        }
    }

    /// Internal consistency: no duplicate edges, the two directions mirror
    /// each other, and global membership implies the global room exists.
    pub closed spec fn wf(self) -> bool {
        &&& seq_nodup(self.member_edges@)
        &&& seq_nodup(self.user_edges@)
        &&& forall|r: RoomId, u: u128|
            self.member_edges@.contains((r, u)) <==> self.user_edges@.contains((u, r))
        &&& forall|u: u128| self.has_member(RoomId::Global, u) ==> self.global_present
    }

    /// An empty index: no rooms, no members.
    pub fn new() -> (r: MembershipIndex)
        ensures
            r.wf(),
            forall|room: RoomId| !r.has_room(room),
            forall|room: RoomId, u: u128| !r.members_of(room).contains(u),
            forall|u: u128, room: RoomId| !r.rooms_of(u).contains(room),
    {
        MembershipIndex { member_edges: Vec::new(), user_edges: Vec::new(), global_present: false }
    }

    /// Whether `user` is currently a member of `room`.
    pub fn is_member(&self, user: u128, room: RoomId) -> (r: bool)
        ensures
            r == self.members_of(room).contains(user),
    {
        let mut i: usize = 0;
        while i < self.member_edges.len()
            invariant
                0 <= i <= self.member_edges@.len(),
                forall|j: int| 0 <= j < i ==> self.member_edges@[j] != (room, user),
            decreases self.member_edges@.len() - i,
        {
            if self.member_edges[i].0 == room && self.member_edges[i].1 == user {
                assert(self.member_edges@.contains((room, user)));
                return true;
            }
            i += 1;
        }
        assert(!self.member_edges@.contains((room, user)));
        false
    }

    /// Whether `room` exists in the index.
    pub fn room_exists(&self, room: RoomId) -> (r: bool)
        ensures
            r == self.has_room(room),
    {
        match room {
            RoomId::Global => self.global_present,
            RoomId::Game(_) => {
                let mut i: usize = 0;
                while i < self.member_edges.len()
                    invariant
                        room is Game,
                        0 <= i <= self.member_edges@.len(),
                        forall|j: int| 0 <= j < i ==> self.member_edges@[j].0 != room,
                    decreases self.member_edges@.len() - i,
                {
                    if self.member_edges[i].0 == room {
                        proof {
                            let u = self.member_edges@[i as int].1;
                            assert(self.member_edges@[i as int] == (room, u));
                            assert(self.has_member(room, u));
                            assert(exists|u2: u128| self.has_member(room, u2));
                            assert(room is Game);
                            assert(self.has_room(room));
                        }
                        return true;
                    }
                    i += 1;
                }
                proof {
                    assert forall|u: u128| !self.has_member(room, u) by {
                        if self.member_edges@.contains((room, u)) {
                            let j = choose|j: int|
                                0 <= j < self.member_edges@.len()
                                    && self.member_edges@[j] == (room, u);
                            assert(self.member_edges@[j].0 == room);
                        }
                    }
                }
                false
            },
        }
    }

    /// Adds `user` to `room` and `room` to `user`'s room set; idempotent.
    pub fn join(&mut self, user: u128, room: RoomId)
        requires
            old(self).wf(),
        ensures
            final(self).wf(),
            forall|r2: RoomId, u2: u128|
                final(self).members_of(r2).contains(u2) == (old(self).members_of(r2).contains(u2)
                    || (r2 == room && u2 == user)),
            forall|u2: u128, r2: RoomId|
                final(self).rooms_of(u2).contains(r2) == (old(self).rooms_of(u2).contains(r2) || (
                u2 == user && r2 == room)),
            forall|r2: RoomId|
                final(self).has_room(r2) == (old(self).has_room(r2) || r2 == room),
    {
        let mut i: usize = 0;
        let mut found = false;
        while i < self.member_edges.len()
            invariant
                0 <= i <= self.member_edges@.len(),
                found ==> self.member_edges@.contains((room, user)),
                !found ==> forall|j: int| 0 <= j < i ==> self.member_edges@[j] != (room, user),
            decreases self.member_edges@.len() - i,
        {
            if self.member_edges[i].0 == room && self.member_edges[i].1 == user {
                proof {
                    assert(self.member_edges@[i as int] == (room, user));
                }
                found = true;
            }
            i += 1;
        }
        if found {
            proof {
                assert(old(self).has_member(room, user));
                assert(old(self).has_user_room(user, room));
                match room {
                    RoomId::Global => {
                        assert(old(self).global_present);
                    },
                    RoomId::Game(_) => {
                        assert(old(self).has_room(room));
                    },
                }
            }
            return;
        }
        let ghost m0 = self.member_edges@;
        let ghost u0 = self.user_edges@;
        proof {
            assert(!m0.contains((room, user)));
            assert(!u0.contains((user, room)));
            lemma_nodup_push(m0, (room, user));
            lemma_nodup_push(u0, (user, room));
        }
        self.member_edges.push((room, user));
        self.user_edges.push((user, room));
        match room {
            RoomId::Global => {
                self.global_present = true;
            },
            RoomId::Game(_) => {},
        }
        proof {
            assert(self.member_edges@ == m0.push((room, user)));
            assert(self.user_edges@ == u0.push((user, room)));
            assert forall|r2: RoomId, u2: u128|
                self.member_edges@.contains((r2, u2)) <==> self.user_edges@.contains((u2, r2)) by {
                assert(self.member_edges@.contains((r2, u2)) == (m0.contains((r2, u2)) || (r2, u2)
                    == (room, user)));
                assert(self.user_edges@.contains((u2, r2)) == (u0.contains((u2, r2)) || (u2, r2)
                    == (user, room)));
            }
            assert forall|u2: u128| self.has_member(RoomId::Global, u2) implies
                self.global_present by {
                assert(self.member_edges@.contains((RoomId::Global, u2)) == (m0.contains((
                RoomId::Global, u2)) || (RoomId::Global, u2) == (room, user)));
                if m0.contains((RoomId::Global, u2)) {
                    assert(old(self).has_member(RoomId::Global, u2));
                    assert(old(self).global_present);
                }
            }
            assert(self.wf());
            assert forall|r2: RoomId, u2: u128|
                self.members_of(r2).contains(u2) == (old(self).members_of(r2).contains(u2) || (r2
                    == room && u2 == user)) by {
                assert(self.member_edges@.contains((r2, u2)) == (m0.contains((r2, u2)) || (r2, u2)
                    == (room, user)));
            }
            assert forall|u2: u128, r2: RoomId|
                self.rooms_of(u2).contains(r2) == (old(self).rooms_of(u2).contains(r2) || (u2
                    == user && r2 == room)) by {
                assert(self.user_edges@.contains((u2, r2)) == (u0.contains((u2, r2)) || (u2, r2)
                    == (user, room)));
            }
            assert(self.has_member(room, user));
            assert forall|r2: RoomId|
                self.has_room(r2) == (old(self).has_room(r2) || r2 == room) by {
                match r2 {
                    RoomId::Global => {},
                    RoomId::Game(_) => {
                        if self.has_room(r2) {
                            let u2 = choose|u2: u128| self.has_member(r2, u2);
                            assert(self.member_edges@.contains((r2, u2)) == (m0.contains((r2, u2))
                                || (r2, u2) == (room, user)));
                            if !(r2 == room && u2 == user) {
                                assert(old(self).has_member(r2, u2));
                            }
                        }
                        if old(self).has_room(r2) {
                            let u2 = choose|u2: u128| old(self).has_member(r2, u2);
                            assert(self.member_edges@.contains((r2, u2)) == (m0.contains((r2, u2))
                                || (r2, u2) == (room, user)));
                            assert(self.has_member(r2, u2));
                        }
                        if r2 == room {
                            assert(self.has_member(r2, user));
                        }
                    },
                }
            }
        }
    }

    /// Removes `user` from `room` and `room` from `user`'s room set;
    /// a no-op when `user` is not a member. A game room left empty ceases to
    /// exist; the global room is never removed.
    pub fn leave(&mut self, user: u128, room: RoomId)
        requires
            old(self).wf(),
        ensures
            final(self).wf(),
            forall|r2: RoomId, u2: u128|
                final(self).members_of(r2).contains(u2) == (old(self).members_of(r2).contains(u2)
                    && !(r2 == room && u2 == user)),
            forall|u2: u128, r2: RoomId|
                final(self).rooms_of(u2).contains(r2) == (old(self).rooms_of(u2).contains(r2)
                    && !(u2 == user && r2 == room)),
            final(self).has_room(RoomId::Global) == old(self).has_room(RoomId::Global),
            forall|r2: RoomId| r2 != room ==> final(self).has_room(r2) == old(self).has_room(r2),
    {
        let ghost m0 = self.member_edges@;
        let ghost u0 = self.user_edges@;
        let mut i: usize = 0;
        let mut found = false;
        let mut at: usize = 0;
        while i < self.member_edges.len()
            invariant
                0 <= i <= self.member_edges@.len(),
                found ==> 0 <= at < self.member_edges@.len()
                    && self.member_edges@[at as int] == (room, user),
                !found ==> forall|j: int| 0 <= j < i ==> self.member_edges@[j] != (room, user),
            decreases self.member_edges@.len() - i,
        {
            if self.member_edges[i].0 == room && self.member_edges[i].1 == user {
                found = true;
                at = i;
            }
            i += 1;
        }
        if !found {
            proof {
                assert(!self.member_edges@.contains((room, user)));
                assert(!self.user_edges@.contains((user, room)));
            }
            return;
        }
        proof {
            lemma_nodup_remove(m0, at as int);
        }
        self.member_edges.remove(at);
        let mut k: usize = 0;
        let mut found_u = false;
        let mut at_u: usize = 0;
        while k < self.user_edges.len()
            invariant
                self.user_edges@ == u0,
                0 <= k <= u0.len(),
                found_u ==> 0 <= at_u < u0.len() && u0[at_u as int] == (user, room),
                !found_u ==> forall|j: int| 0 <= j < k ==> u0[j] != (user, room),
            decreases u0.len() - k,
        {
            if self.user_edges[k].0 == user && self.user_edges[k].1 == room {
                found_u = true;
                at_u = k;
            }
            k += 1;
        }
        proof {
            assert(m0[at as int] == (room, user));
            assert(m0.contains((room, user)));
            assert(u0.contains((user, room)));
            if !found_u {
                let j = choose|j: int| 0 <= j < u0.len() && u0[j] == (user, room);
                assert(false);
            }
            lemma_nodup_remove(u0, at_u as int);
        }
        self.user_edges.remove(at_u);
        proof {
            assert(self.member_edges@ == m0.remove(at as int));
            assert(self.user_edges@ == u0.remove(at_u as int));
            assert(u0[at_u as int] == (user, room));
            assert forall|r2: RoomId, u2: u128|
                self.member_edges@.contains((r2, u2)) <==> self.user_edges@.contains((u2, r2)) by {
                assert(self.member_edges@.contains((r2, u2)) == (m0.contains((r2, u2)) && (r2, u2)
                    != (room, user)));
                assert(self.user_edges@.contains((u2, r2)) == (u0.contains((u2, r2)) && (u2, r2)
                    != (user, room)));
            }
            assert forall|u2: u128| self.has_member(RoomId::Global, u2) implies
                self.global_present by {
                assert(self.member_edges@.contains((RoomId::Global, u2)) == (m0.contains((
                RoomId::Global, u2)) && (RoomId::Global, u2) != (room, user)));
                if m0.contains((RoomId::Global, u2)) {
                    assert(old(self).has_member(RoomId::Global, u2));
                    assert(old(self).global_present);
                }
            }
            assert(self.wf());
            assert forall|r2: RoomId, u2: u128|
                self.members_of(r2).contains(u2) == (old(self).members_of(r2).contains(u2) && !(r2
                    == room && u2 == user)) by {
                assert(self.member_edges@.contains((r2, u2)) == (m0.contains((r2, u2)) && (r2, u2)
                    != (room, user)));
            }
            assert forall|u2: u128, r2: RoomId|
                self.rooms_of(u2).contains(r2) == (old(self).rooms_of(u2).contains(r2) && !(u2
                    == user && r2 == room)) by {
                assert(self.user_edges@.contains((u2, r2)) == (u0.contains((u2, r2)) && (u2, r2)
                    != (user, room)));
            }
            assert forall|r2: RoomId| r2 != room implies
                self.has_room(r2) == old(self).has_room(r2) by {
                match r2 {
                    RoomId::Global => {},
                    RoomId::Game(_) => {
                        if self.has_room(r2) {
                            let u2 = choose|u2: u128| self.has_member(r2, u2);
                            assert(self.member_edges@.contains((r2, u2)) == (m0.contains((r2, u2))
                                && (r2, u2) != (room, user)));
                            assert(old(self).has_member(r2, u2));
                        }
                        if old(self).has_room(r2) {
                            let u2 = choose|u2: u128| old(self).has_member(r2, u2);
                            assert(self.member_edges@.contains((r2, u2)) == (m0.contains((r2, u2))
                                && (r2, u2) != (room, user)));
                            assert((r2, u2) != (room, user));
                            assert(self.has_member(r2, u2));
                        }
                    },
                }
            }
        }
    }

    /// The members of `room`, each exactly once.
    pub fn members_vec(&self, room: RoomId) -> (r: Vec<u128>)
        requires
            self.wf(),
        ensures
            forall|u: u128| r@.contains(u) <==> self.members_of(room).contains(u),
            seq_nodup(r@),
    {
        let mut r: Vec<u128> = Vec::new();
        let mut i: usize = 0;
        while i < self.member_edges.len()
            invariant
                self.wf(),
                0 <= i <= self.member_edges@.len(),
                forall|u: u128|
                    r@.contains(u) <==> exists|j: int|
                        0 <= j < i && self.member_edges@[j] == (room, u),
                seq_nodup(r@),
            decreases self.member_edges@.len() - i,
        {
            let e = self.member_edges[i];
            let ghost r0 = r@;
            if e.0 == room {
                proof {
                    assert(self.member_edges@[i as int] == (room, e.1));
                    assert(!r0.contains(e.1)) by {
                        if r0.contains(e.1) {
                            let j = choose|j: int|
                                0 <= j < i && self.member_edges@[j] == (room, e.1);
                            assert(self.member_edges@[j] == self.member_edges@[i as int]);
                        }
                    }
                    lemma_nodup_push(r0, e.1);
                }
                r.push(e.1);
                proof {
                    assert(r@ == r0.push(e.1));
                    assert forall|u: u128|
                        r@.contains(u) <==> exists|j: int|
                            0 <= j < i + 1 && self.member_edges@[j] == (room, u) by {
                        assert(r@.contains(u) == (r0.contains(u) || u == e.1));
                        if r@.contains(u) {
                            if u != e.1 {
                                assert(r0.contains(u));
                                let j = choose|j: int|
                                    0 <= j < i && self.member_edges@[j] == (room, u);
                                assert(0 <= j < i + 1 && self.member_edges@[j] == (room, u));
                            } else {
                                assert(self.member_edges@[i as int] == (room, u));
                            }
                        }
                        if exists|j: int| 0 <= j < i + 1 && self.member_edges@[j] == (room, u) {
                            let j = choose|j: int|
                                0 <= j < i + 1 && self.member_edges@[j] == (room, u);
                            if j < i {
                                assert(r0.contains(u));
                            } else {
                                assert(self.member_edges@[i as int] == (room, u));
                                assert(u == e.1);
                            }
                            assert(r@.contains(u));
                        }
                    }
                }
            } else {
                proof {
                    assert forall|u: u128|
                        r@.contains(u) <==> exists|j: int|
                            0 <= j < i + 1 && self.member_edges@[j] == (room, u) by {
                        if exists|j: int| 0 <= j < i + 1 && self.member_edges@[j] == (room, u) {
                            let j = choose|j: int|
                                0 <= j < i + 1 && self.member_edges@[j] == (room, u);
                            assert(j < i);
                        }
                    }
                }
            }
            i += 1;
        }
        proof {
            assert forall|u: u128| r@.contains(u) <==> self.members_of(room).contains(u) by {
                if self.members_of(room).contains(u) {
                    let j = choose|j: int|
                        0 <= j < self.member_edges@.len() && self.member_edges@[j] == (room, u);
                    assert(r@.contains(u));
                }
            }
        }
        r
    }

    /// The rooms `user` is in, each exactly once.
    pub fn rooms_vec(&self, user: u128) -> (r: Vec<RoomId>)
        requires
            self.wf(),
        ensures
            forall|room: RoomId| r@.contains(room) <==> self.rooms_of(user).contains(room),
            seq_nodup(r@),
    {
        let mut r: Vec<RoomId> = Vec::new();
        let mut i: usize = 0;
        while i < self.user_edges.len()
            invariant
                self.wf(),
                0 <= i <= self.user_edges@.len(),
                forall|room: RoomId|
                    r@.contains(room) <==> exists|j: int|
                        0 <= j < i && self.user_edges@[j] == (user, room),
                seq_nodup(r@),
            decreases self.user_edges@.len() - i,
        {
            let e = self.user_edges[i];
            let ghost r0 = r@;
            if e.0 == user {
                proof {
                    assert(self.user_edges@[i as int] == (user, e.1));
                    assert(!r0.contains(e.1)) by {
                        if r0.contains(e.1) {
                            let j = choose|j: int| 0 <= j < i && self.user_edges@[j] == (user, e.1);
                            assert(self.user_edges@[j] == self.user_edges@[i as int]);
                        }
                    }
                    lemma_nodup_push(r0, e.1);
                }
                r.push(e.1);
                proof {
                    assert(r@ == r0.push(e.1));
                    assert forall|room: RoomId|
                        r@.contains(room) <==> exists|j: int|
                            0 <= j < i + 1 && self.user_edges@[j] == (user, room) by {
                        assert(r@.contains(room) == (r0.contains(room) || room == e.1));
                        if r@.contains(room) {
                            if room != e.1 {
                                assert(r0.contains(room));
                                let j = choose|j: int|
                                    0 <= j < i && self.user_edges@[j] == (user, room);
                                assert(0 <= j < i + 1 && self.user_edges@[j] == (user, room));
                            } else {
                                assert(self.user_edges@[i as int] == (user, room));
                            }
                        }
                        if exists|j: int| 0 <= j < i + 1 && self.user_edges@[j] == (user, room) {
                            let j = choose|j: int|
                                0 <= j < i + 1 && self.user_edges@[j] == (user, room);
                            if j < i {
                                assert(r0.contains(room));
                            } else {
                                assert(self.user_edges@[i as int] == (user, room));
                                assert(room == e.1);
                            }
                            assert(r@.contains(room));
                        }
                    }
                }
            } else {
                proof {
                    assert forall|room: RoomId|
                        r@.contains(room) <==> exists|j: int|
                            0 <= j < i + 1 && self.user_edges@[j] == (user, room) by {
                        if exists|j: int| 0 <= j < i + 1 && self.user_edges@[j] == (user, room) {
                            let j = choose|j: int|
                                0 <= j < i + 1 && self.user_edges@[j] == (user, room);
                            assert(j < i);
                        }
                    }
                }
            }
            i += 1;
        }
        proof {
            assert forall|room: RoomId| r@.contains(room) <==> self.rooms_of(user).contains(room)
                by {
                if self.rooms_of(user).contains(room) {
                    let j = choose|j: int|
                        0 <= j < self.user_edges@.len() && self.user_edges@[j] == (user, room);
                    assert(r@.contains(room));
                }
            }
        }
        r
    }
}

/// Law (membership symmetry): in every well-formed index, a user lists a room
/// among its rooms exactly when that room lists the user among its members.
pub proof fn lemma_membership_symmetry(m: MembershipIndex, user: u128, room: RoomId)
    requires
        m.wf(),
    ensures
        m.rooms_of(user).contains(room) <==> m.members_of(room).contains(user),
{
}

/// Law (game-room pruning): a game room exists exactly while it has at least
/// one member, so a game room whose member set empties is gone entirely.
pub proof fn lemma_game_room_presence(m: MembershipIndex, game: u64)
    ensures
        m.has_room(RoomId::Game(game)) <==> exists|u: u128|
            m.members_of(RoomId::Game(game)).contains(u),
{
    if m.has_room(RoomId::Game(game)) {
        let u = choose|u: u128| m.has_member(RoomId::Game(game), u);
        assert(m.members_of(RoomId::Game(game)).contains(u));
    }
    if exists|u: u128| m.members_of(RoomId::Game(game)).contains(u) {
        let u = choose|u: u128| m.members_of(RoomId::Game(game)).contains(u);
        assert(m.has_member(RoomId::Game(game), u));
    }
}

} // verus!
