//! The lobby: the single owner of all cross-connection state. It registers
//! connections, tracks room membership, resolves a message's destination
//! into the concrete set of deliveries, and derives presence broadcasts from
//! connect and disconnect events.
//!
//! Delivery is best effort and at most once: a fan-out reaches every member
//! of the room that has a live session exactly once, and a member without
//! one is skipped without affecting the rest.

use vstd::prelude::*;
use crate::membership::{lemma_membership_symmetry, seq_nodup, MembershipIndex};
use crate::messages::{
    offline_status, offline_status_payload, Envelope, MessageDestination, Payload, RoomId,
};
use crate::registry::ConnectionRegistry;

verus! {

/// One concrete delivery: the payload goes to `user` on channel `channel`.
#[derive(Clone, Copy, Debug, PartialEq, Eq, Structural)]
pub struct Delivery {
    pub user: u128,
    pub channel: u64,
}

/// The result of one dispatch: the routed payload, who receives it, and
/// which intended recipients had no live session and were skipped.
#[derive(Debug)]
pub struct DispatchOutcome {
    pub payload: Payload,
    pub recipients: Vec<Delivery>,
    pub skipped: Vec<u128>,
}

/// One room's share of an offline broadcast after a disconnect.
#[derive(Debug)]
pub struct RoomNotification {
    pub room: RoomId,
    pub recipients: Vec<Delivery>,
    pub skipped: Vec<u128>,
}

/// Everything a disconnect pushes out: one offline payload, fanned out to
/// the remaining members of each room the user was in.
#[derive(Debug)]
pub struct DisconnectOutcome {
    pub payload: Payload,
    pub notifications: Vec<RoomNotification>,
}

/// A correct fan-out of one payload to `members` under `sessions`: every
/// member with a live session appears exactly once among the recipients, on
/// its registered channel; every member without one appears among the
/// skipped; nobody outside `members` appears anywhere.
pub open spec fn fan_out_ok(
    sessions: Map<u128, u64>,
    members: Set<u128>,
    recipients: Seq<Delivery>,
    skipped: Seq<u128>,
) -> bool {
    &&& forall|i: int|
        0 <= i < recipients.len() ==> {
            &&& members.contains(#[trigger] recipients[i].user)
            &&& sessions.contains_key(recipients[i].user)
            &&& recipients[i].channel == sessions[recipients[i].user]
        }
    &&& forall|i: int, j: int|
        0 <= i < recipients.len() && 0 <= j < recipients.len() && recipients[i].user
            == recipients[j].user ==> i == j
    &&& forall|u: u128|
        members.contains(u) && sessions.contains_key(u) ==> exists|i: int|
            0 <= i < recipients.len() && #[trigger] recipients[i].user == u
    &&& forall|i: int|
        0 <= i < skipped.len() ==> members.contains(#[trigger] skipped[i])
            && !sessions.contains_key(skipped[i])
    &&& seq_nodup(skipped)
    &&& forall|u: u128| members.contains(u) && !sessions.contains_key(u) ==> skipped.contains(u)
}

/// How a room-addressed dispatch relates the state before (`pre`) and after
/// (`post`): the sender has been joined to the room, nothing else moved, and
/// the outcome is a correct fan-out to the room's members at dispatch time
/// (the sender included).
pub open spec fn room_dispatch_ok(
    pre: Lobby,
    post: Lobby,
    room: RoomId,
    sender: u128,
    out: DispatchOutcome,
) -> bool {
    &&& post.sessions() == pre.sessions()
    &&& forall|r2: RoomId, u2: u128|
        post.members_of(r2).contains(u2) == (pre.members_of(r2).contains(u2) || (r2 == room && u2
            == sender))
    &&& forall|u2: u128, r2: RoomId|
        post.rooms_of(u2).contains(r2) == (pre.rooms_of(u2).contains(r2) || (u2 == sender && r2
            == room))
    &&& forall|r2: RoomId| post.has_room(r2) == (pre.has_room(r2) || r2 == room)
    &&& fan_out_ok(post.sessions(), post.members_of(room), out.recipients@, out.skipped@)
}

/// What a disconnect's notifications list: one entry per room the user
/// belonged to that still has members, each a correct fan-out of the offline
/// payload to those remaining members.
pub open spec fn notifications_ok(
    pre: Lobby,
    post: Lobby,
    user: u128,
    notes: Seq<RoomNotification>,
) -> bool {
    &&& forall|i: int|
        0 <= i < notes.len() ==> {
            &&& pre.rooms_of(user).contains(#[trigger] notes[i].room)
            &&& exists|u2: u128| post.members_of(notes[i].room).contains(u2)
            &&& fan_out_ok(
                post.sessions(),
                post.members_of(notes[i].room),
                notes[i].recipients@,
                notes[i].skipped@,
            )
        }
    &&& forall|i: int, j: int|
        0 <= i < notes.len() && 0 <= j < notes.len() && notes[i].room == notes[j].room ==> i == j
    &&& forall|r: RoomId|
        pre.rooms_of(user).contains(r) && (exists|u2: u128| post.members_of(r).contains(u2))
            ==> exists|i: int| 0 <= i < notes.len() && #[trigger] notes[i].room == r
}

/// The central router and session manager.
pub struct Lobby {
    registry: ConnectionRegistry,
    membership: MembershipIndex,
}

impl Lobby {
    /// The live sessions: connected user to outbound channel.
    pub closed spec fn sessions(self) -> Map<u128, u64> {
        self.registry@
    }

    /// The member set of `room` (empty for an unknown room).
    pub closed spec fn members_of(self, room: RoomId) -> Set<u128> {
        self.membership.members_of(room)
    }

    /// The room set of `user` (empty for an unknown user).
    pub closed spec fn rooms_of(self, user: u128) -> Set<RoomId> {
        self.membership.rooms_of(user)
    }

    /// Whether `room` currently exists.
    pub closed spec fn has_room(self, room: RoomId) -> bool {
        self.membership.has_room(room)
    }

    /// Well-formedness of the whole lobby state.
    pub closed spec fn wf(self) -> bool {
        self.registry.wf() && self.membership.wf()
    }

    /// A fresh lobby: no sessions, no rooms.
    pub fn new() -> (r: Lobby)
        ensures
            r.wf(),
            r.sessions() == Map::<u128, u64>::empty(),
            forall|room: RoomId| !r.has_room(room),
            forall|room: RoomId, u: u128| !r.members_of(room).contains(u),
            forall|u: u128, room: RoomId| !r.rooms_of(u).contains(room),
    {
        Lobby { registry: ConnectionRegistry::new(), membership: MembershipIndex::new() }
    }

    /// The members of `room` right now, each exactly once (the spec's
    /// `membersOf` read; empty for an unknown room).
    pub fn members(&self, room: RoomId) -> (r: Vec<u128>)
        requires
            self.wf(),
        ensures
            forall|u: u128| r@.contains(u) <==> self.members_of(room).contains(u),
            seq_nodup(r@),
    {
        self.membership.members_vec(room)
    }

    /// The rooms `user` is in right now, each exactly once (the spec's
    /// `roomsOf` read; empty for an unknown user).
    pub fn rooms(&self, user: u128) -> (r: Vec<RoomId>)
        requires
            self.wf(),
        ensures
            forall|room: RoomId| r@.contains(room) <==> self.rooms_of(user).contains(room),
            seq_nodup(r@),
    {
        self.membership.rooms_vec(user)
    }

    /// Whether `room` currently exists in the index.
    pub fn room_exists(&self, room: RoomId) -> (r: bool)
        ensures
            r == self.has_room(room),
    {
        self.membership.room_exists(room)
    }

    /// Whether `user` is currently a member of `room`.
    pub fn is_member(&self, user: u128, room: RoomId) -> (r: bool)
        ensures
            r == self.members_of(room).contains(user),
    {
        self.membership.is_member(user, room)
    }

    /// The currently connected users, each exactly once: the snapshot a
    /// hydration task starts from.
    pub fn online_users(&self) -> (r: Vec<u128>)
        requires
            self.wf(),
        ensures
            forall|u: u128| r@.contains(u) <==> self.sessions().contains_key(u),
            seq_nodup(r@),
    {
        self.registry.users()
    }

    /// The channel `user` is connected on, when a session exists.
    pub fn channel_of(&self, user: u128) -> (r: Option<u64>)
        requires
            self.wf(),
        ensures
            r == if self.sessions().contains_key(user) {
                Some(self.sessions()[user])
            } else {
                None::<u64>
            },
    {
        self.registry.lookup(user)
    }

    /// Handles a connect event: joins `user` to `room` and records its
    /// outbound channel. A second connect for the same user replaces the
    /// channel (last connect wins).
    pub fn connect(&mut self, user: u128, room: RoomId, channel: u64)
        requires
            old(self).wf(),
        ensures
            final(self).wf(),
            final(self).sessions() == old(self).sessions().insert(user, channel),
            forall|r2: RoomId, u2: u128|
                final(self).members_of(r2).contains(u2) == (old(self).members_of(r2).contains(u2)
                    || (r2 == room && u2 == user)),
            forall|u2: u128, r2: RoomId|
                final(self).rooms_of(u2).contains(r2) == (old(self).rooms_of(u2).contains(r2) || (
                u2 == user && r2 == room)),
            forall|r2: RoomId|
                final(self).has_room(r2) == (old(self).has_room(r2) || r2 == room),
    {
        self.membership.join(user, room);
        self.registry.register(user, channel);
    }

    /// Routes one envelope to its destination and reports the outcome.
    ///
    /// A direct message goes to its addressee's channel, or is skipped when
    /// the addressee has no session. A room-addressed message first joins
    /// the sender to the room, then fans the payload out to every member at
    /// dispatch time, the sender included; members without a session are
    /// skipped without affecting the rest.
    pub fn dispatch(&mut self, envelope: Envelope) -> (out: DispatchOutcome)
        requires
            old(self).wf(),
        ensures
            final(self).wf(),
            out.payload == envelope.payload,
            match envelope.destination {
                MessageDestination::Direct(uid) => {
                    &&& *final(self) == *old(self)
                    &&& fan_out_ok(
                        old(self).sessions(),
                        Set::empty().insert(uid),
                        out.recipients@,
                        out.skipped@,
                    )
                },
                MessageDestination::Game(g) => room_dispatch_ok(
                    *old(self),
                    *final(self),
                    RoomId::Game(g),
                    envelope.from,
                    out,
                ),
                MessageDestination::Global => room_dispatch_ok(
                    *old(self),
                    *final(self),
                    RoomId::Global,
                    envelope.from,
                    out,
                ),
            },
    {
        match envelope.destination {
            MessageDestination::Direct(uid) => {
                let mut recipients: Vec<Delivery> = Vec::new();
                let mut skipped: Vec<u128> = Vec::new();
                match self.registry.lookup(uid) {
                    Some(channel) => {
                        recipients.push(Delivery { user: uid, channel });
                    },
                    None => {
                        skipped.push(uid);
                    },
                }
                proof {
                    let members = Set::empty().insert(uid);
                    assert forall|u: u128|
                        members.contains(u) && self.sessions().contains_key(u) implies exists|
                        i: int,
                    | 0 <= i < recipients@.len() && #[trigger] recipients@[i].user == u by {
                        assert(recipients@[0].user == u);
                    }
                    assert forall|u: u128|
                        members.contains(u) && !self.sessions().contains_key(u) implies
                        skipped@.contains(u) by {
                        assert(skipped@[0] == u);
                    }
                }
                DispatchOutcome { payload: envelope.payload, recipients, skipped }
            },
            MessageDestination::Game(g) => self.room_fan_out(envelope.from, RoomId::Game(g), envelope.payload),
            MessageDestination::Global => self.room_fan_out(envelope.from, RoomId::Global, envelope.payload),
        }
    }

    /// Joins `sender` to `room`, then fans `payload` out to every current
    /// member of the room.
    fn room_fan_out(&mut self, sender: u128, room: RoomId, payload: Payload) -> (out:
        DispatchOutcome)
        requires
            old(self).wf(),
        ensures
            final(self).wf(),
            out.payload == payload,
            room_dispatch_ok(*old(self), *final(self), room, sender, out),
    {
        self.membership.join(sender, room);
        let members = self.membership.members_vec(room);
        let (recipients, skipped) = deliver_each(&self.registry, &members);
        proof {
            assert(seq_to_set(members@) =~= self.members_of(room));
        }
        DispatchOutcome { payload, recipients, skipped }
    }

    /// Handles a disconnect event. When `user` had a session: the session is
    /// removed, the user leaves every room it was in (a game room left
    /// empty is pruned; the global room never is), and an offline status for
    /// `username` is fanned out to the remaining members of each of those
    /// rooms. When `user` had no session, nothing changes.
    pub fn disconnect(&mut self, user: u128, username: String) -> (r: Option<DisconnectOutcome>)
        requires
            old(self).wf(),
        ensures
            final(self).wf(),
            (r is Some) == old(self).sessions().contains_key(user),
            match r {
                None => *final(self) == *old(self),
                Some(out) => {
                    &&& final(self).sessions() == old(self).sessions().remove(user)
                    &&& forall|r2: RoomId, u2: u128|
                        final(self).members_of(r2).contains(u2) == (old(self).members_of(
                            r2,
                        ).contains(u2) && u2 != user)
                    &&& forall|u2: u128, r2: RoomId|
                        final(self).rooms_of(u2).contains(r2) == (old(self).rooms_of(u2).contains(
                            r2,
                        ) && u2 != user)
                    &&& final(self).has_room(RoomId::Global) == old(self).has_room(RoomId::Global)
                    &&& forall|g: u64|
                        final(self).has_room(RoomId::Game(g)) <==> exists|u2: u128|
                            u2 != user && old(self).members_of(RoomId::Game(g)).contains(u2)
                    &&& forall|g: u64|
                        (forall|u2: u128|
                            old(self).members_of(RoomId::Game(g)).contains(u2) ==> u2 == user)
                            ==> !final(self).has_room(RoomId::Game(g))
                    &&& out.payload == offline_status_payload(username)
                    &&& notifications_ok(*old(self), *final(self), user, out.notifications@)
                },
            },
    {
        let ghost pre = *old(self);
        match self.registry.lookup(user) {
            None => {
                return None;
            },
            Some(_) => {},
        }
        self.registry.unregister(user);
        let ghost reg1 = self.registry;
        let rooms = self.membership.rooms_vec(user);
        let mut i: usize = 0;
        while i < rooms.len()
            invariant
                0 <= i <= rooms@.len(),
                self.registry == reg1,
                reg1.wf(),
                reg1@ == pre.sessions().remove(user),
                pre.wf(),
                self.membership.wf(),
                seq_nodup(rooms@),
                forall|r: RoomId|
                    rooms@.contains(r) <==> pre.membership.rooms_of(user).contains(r),
                members_pruned(self.membership, pre.membership, user, rooms@.take(i as int)),
                rooms_pruned(self.membership, pre.membership, user, rooms@.take(i as int)),
                self.membership.has_room(RoomId::Global) == pre.membership.has_room(
                    RoomId::Global,
                ),
                presence_kept(self.membership, pre.membership, rooms@.take(i as int)),
            decreases rooms@.len() - i,
        {
            let room = rooms[i];
            let ghost mb = self.membership;
            let ghost done0 = rooms@.take(i as int);
            let ghost done1 = rooms@.take(i as int + 1);
            proof {
                assert(done0.push(rooms@[i as int]) =~= done1);
                crate::membership::lemma_push_contains(done0, rooms@[i as int]);
            }
            self.membership.leave(user, room);
            proof {
                assert(members_pruned(self.membership, pre.membership, user, done1)) by {
                    assert forall|r2: RoomId, u2: u128|
                        self.membership.members_of(r2).contains(u2) == (
                        pre.membership.members_of(r2).contains(u2) && !(u2 == user
                            && done1.contains(r2))) by {
                        lemma_members_pruned_at(mb, pre.membership, user, done0, r2, u2);
                        assert(self.membership.members_of(r2).contains(u2) == (mb.members_of(
                            r2,
                        ).contains(u2) && !(r2 == room && u2 == user)));
                        assert(done1.contains(r2) == (done0.contains(r2) || r2 == room));
                    }
                }
                assert(rooms_pruned(self.membership, pre.membership, user, done1)) by {
                    assert forall|u2: u128, r2: RoomId|
                        self.membership.rooms_of(u2).contains(r2) == (pre.membership.rooms_of(
                            u2,
                        ).contains(r2) && !(u2 == user && done1.contains(r2))) by {
                        lemma_rooms_pruned_at(mb, pre.membership, user, done0, u2, r2);
                        assert(self.membership.rooms_of(u2).contains(r2) == (mb.rooms_of(
                            u2,
                        ).contains(r2) && !(u2 == user && r2 == room)));
                        assert(done1.contains(r2) == (done0.contains(r2) || r2 == room));
                    }
                }
                assert(presence_kept(self.membership, pre.membership, done1)) by {
                    assert forall|r2: RoomId| !done1.contains(r2) implies
                        self.membership.has_room(r2) == pre.membership.has_room(r2) by {
                        lemma_presence_kept_at(mb, pre.membership, done0, r2);
                        assert(done1.contains(r2) == (done0.contains(r2) || r2 == room));
                    }
                }
            }
            i += 1;
        }
        proof {
            assert(rooms@.take(rooms@.len() as int) =~= rooms@);
            assert(members_pruned(self.membership, pre.membership, user, rooms@));
            assert(rooms_pruned(self.membership, pre.membership, user, rooms@));
            assert(presence_kept(self.membership, pre.membership, rooms@));
            assert forall|r2: RoomId, u2: u128|
                self.membership.members_of(r2).contains(u2) == (pre.membership.members_of(
                    r2,
                ).contains(u2) && u2 != user) by {
                lemma_members_pruned_at(self.membership, pre.membership, user, rooms@, r2, u2);
                lemma_membership_symmetry(pre.membership, user, r2);
                if u2 == user && pre.membership.members_of(r2).contains(user) {
                    assert(pre.membership.rooms_of(user).contains(r2));
                    assert(rooms@.contains(r2));
                }
            }
            assert forall|u2: u128, r2: RoomId|
                self.membership.rooms_of(u2).contains(r2) == (pre.membership.rooms_of(u2).contains(
                    r2,
                ) && u2 != user) by {
                lemma_rooms_pruned_at(self.membership, pre.membership, user, rooms@, u2, r2);
                if u2 == user && pre.membership.rooms_of(user).contains(r2) {
                    assert(rooms@.contains(r2));
                }
            }
            assert forall|g: u64|
                self.membership.has_room(RoomId::Game(g)) <==> exists|u2: u128|
                    u2 != user && pre.membership.members_of(RoomId::Game(g)).contains(u2) by {
                crate::membership::lemma_game_room_presence(self.membership, g);
                if exists|u2: u128| self.membership.members_of(RoomId::Game(g)).contains(u2) {
                    let u2 = choose|u2: u128|
                        self.membership.members_of(RoomId::Game(g)).contains(u2);
                    lemma_members_pruned_at(
                        self.membership,
                        pre.membership,
                        user,
                        rooms@,
                        RoomId::Game(g),
                        u2,
                    );
                    lemma_membership_symmetry(pre.membership, user, RoomId::Game(g));
                    assert(u2 != user && pre.membership.members_of(RoomId::Game(g)).contains(u2));
                }
                if exists|u2: u128|
                    u2 != user && pre.membership.members_of(RoomId::Game(g)).contains(u2) {
                    let u2 = choose|u2: u128|
                        u2 != user && pre.membership.members_of(RoomId::Game(g)).contains(u2);
                    lemma_members_pruned_at(
                        self.membership,
                        pre.membership,
                        user,
                        rooms@,
                        RoomId::Game(g),
                        u2,
                    );
                    lemma_membership_symmetry(pre.membership, user, RoomId::Game(g));
                    assert(self.membership.members_of(RoomId::Game(g)).contains(u2));
                    assert(exists|u3: u128|
                        self.membership.members_of(RoomId::Game(g)).contains(u3));
                }
            }
        }
        let mut notifications: Vec<RoomNotification> = Vec::new();
        let ghost m_done = self.membership;
        let mut k: usize = 0;
        while k < rooms.len()
            invariant
                0 <= k <= rooms@.len(),
                self.registry == reg1,
                reg1.wf(),
                self.membership == m_done,
                m_done.wf(),
                seq_nodup(rooms@),
                forall|r: RoomId|
                    rooms@.contains(r) <==> pre.membership.rooms_of(user).contains(r),
                notes_prefix_ok(
                    reg1@,
                    m_done,
                    pre.membership,
                    user,
                    notifications@,
                    rooms@,
                    k as int,
                ),
            decreases rooms@.len() - k,
        {
            let room = rooms[k];
            let members = self.membership.members_vec(room);
            let ghost n0 = notifications@;
            if members.len() > 0 {
                let (recipients, skipped) = deliver_each(&self.registry, &members);
                let note = RoomNotification { room, recipients, skipped };
                proof {
                    assert(seq_to_set(members@) =~= m_done.members_of(room));
                    let w = members@[0];
                    assert(members@.contains(w));
                    assert(m_done.members_of(room).contains(w));
                    assert(rooms@[k as int] == room);
                    assert(rooms@.contains(room));
                    lemma_notes_prefix_push(
                        reg1@,
                        m_done,
                        pre.membership,
                        user,
                        n0,
                        rooms@,
                        k as int,
                        note,
                    );
                }
                notifications.push(note);
                proof {
                    assert(notifications@ == n0.push(note));
                }
            } else {
                proof {
                    assert forall|u2: u128| !m_done.members_of(room).contains(u2) by {
                        if m_done.members_of(room).contains(u2) {
                            assert(members@.contains(u2));
                        }
                    }
                    lemma_notes_prefix_empty_room(
                        reg1@,
                        m_done,
                        pre.membership,
                        user,
                        n0,
                        rooms@,
                        k as int,
                    );
                }
            }
            k += 1;
        }
        let out = DisconnectOutcome { payload: offline_status(username), notifications };
        proof {
            assert(self.sessions() == pre.sessions().remove(user));
            assert forall|g: u64|
                (forall|u2: u128| pre.members_of(RoomId::Game(g)).contains(u2) ==> u2 == user)
                implies !self.has_room(RoomId::Game(g)) by {
                if self.has_room(RoomId::Game(g)) {
                    let u2 = choose|u2: u128|
                        u2 != user && pre.membership.members_of(RoomId::Game(g)).contains(u2);
                    assert(pre.members_of(RoomId::Game(g)).contains(u2));
                }
            }
            assert forall|idx: int| 0 <= idx < out.notifications@.len() implies {
                &&& pre.rooms_of(user).contains(#[trigger] out.notifications@[idx].room)
                &&& exists|u2: u128| self.members_of(out.notifications@[idx].room).contains(u2)
                &&& fan_out_ok(
                    self.sessions(),
                    self.members_of(out.notifications@[idx].room),
                    out.notifications@[idx].recipients@,
                    out.notifications@[idx].skipped@,
                )
            } by {
                assert(notes_prefix_ok(
                    reg1@,
                    m_done,
                    pre.membership,
                    user,
                    out.notifications@,
                    rooms@,
                    rooms@.len() as int,
                ));
                assert(note_entry_ok(reg1@, m_done, pre.membership, user, out.notifications@[idx]));
                let room = out.notifications@[idx].room;
                let u2 = choose|u2: u128| m_done.members_of(room).contains(u2);
                assert(self.members_of(room).contains(u2));
                assert(exists|u3: u128| self.members_of(room).contains(u3));
                assert(self.sessions() == reg1@);
                assert(self.members_of(room) == m_done.members_of(room));
            }
            lemma_notes_prefix_complete(
                reg1@,
                m_done,
                pre.membership,
                user,
                out.notifications@,
                rooms@,
            );
            assert forall|r: RoomId|
                pre.rooms_of(user).contains(r) && (exists|u2: u128|
                    self.members_of(r).contains(u2)) implies exists|idx: int|
                0 <= idx < out.notifications@.len() && #[trigger] out.notifications@[idx].room
                    == r by {
                assert(rooms@.contains(r));
                let u2 = choose|u2: u128| self.members_of(r).contains(u2);
                assert(m_done.members_of(r).contains(u2));
                assert(exists|u3: u128| m_done.members_of(r).contains(u3));
            }
        }
        Some(out)
    }
}

/// The elements of `s` as a set.
pub open spec fn seq_to_set(s: Seq<u128>) -> Set<u128> {
    Set::new(|u: u128| s.contains(u))
}

/// Looks up each of `members` in the registry: those with a session become
/// recipients on their registered channel, the rest are skipped.
fn deliver_each(registry: &ConnectionRegistry, members: &Vec<u128>) -> (out: (
    Vec<Delivery>,
    Vec<u128>,
))
    requires
        registry.wf(),
        seq_nodup(members@),
    ensures
        fan_out_ok(registry@, seq_to_set(members@), out.0@, out.1@),
{
    let mut recipients: Vec<Delivery> = Vec::new();
    let mut skipped: Vec<u128> = Vec::new();
    let mut i: usize = 0;
    while i < members.len()
        invariant
            registry.wf(),
            seq_nodup(members@),
            0 <= i <= members@.len(),
            forall|k: int|
                0 <= k < recipients@.len() ==> {
                    &&& registry@.contains_key(#[trigger] recipients@[k].user)
                    &&& recipients@[k].channel == registry@[recipients@[k].user]
                },
            forall|u: u128| #![trigger registry@.contains_key(u)]
                (exists|k: int| 0 <= k < recipients@.len() && recipients@[k].user == u)
                    <==> exists|j: int|
                    0 <= j < i && members@[j] == u && registry@.contains_key(u),
            forall|k1: int, k2: int|
                0 <= k1 < recipients@.len() && 0 <= k2 < recipients@.len()
                    && recipients@[k1].user == recipients@[k2].user ==> k1 == k2,
            forall|u: u128|
                skipped@.contains(u) <==> exists|j: int|
                    0 <= j < i && members@[j] == u && !registry@.contains_key(u),
            seq_nodup(skipped@),
        decreases members@.len() - i,
    {
        let u = members[i];
        let ghost rec0 = recipients@;
        let ghost skip0 = skipped@;
        match registry.lookup(u) {
            Some(channel) => {
                proof {
                    assert(!(exists|k: int|
                        0 <= k < rec0.len() && #[trigger] rec0[k].user == u)) by {
                        if exists|k: int| 0 <= k < rec0.len() && rec0[k].user == u {
                            let j = choose|j: int|
                                0 <= j < i && members@[j] == u && registry@.contains_key(u);
                            assert(members@[j] == members@[i as int]);
                        }
                    }
                }
                recipients.push(Delivery { user: u, channel });
                proof {
                    assert(recipients@ == rec0.push(Delivery { user: u, channel }));
                    assert forall|u2: u128| #![trigger registry@.contains_key(u2)]
                        (exists|k: int|
                            0 <= k < recipients@.len() && recipients@[k].user == u2)
                            <==> exists|j: int|
                            0 <= j < i + 1 && members@[j] == u2 && registry@.contains_key(u2) by {
                        if exists|k: int|
                            0 <= k < recipients@.len() && recipients@[k].user == u2 {
                            let k = choose|k: int|
                                0 <= k < recipients@.len() && recipients@[k].user == u2;
                            if k < rec0.len() {
                                assert(rec0[k].user == u2);
                                let j = choose|j: int|
                                    0 <= j < i && members@[j] == u2 && registry@.contains_key(u2);
                                assert(0 <= j < i + 1 && members@[j] == u2
                                    && registry@.contains_key(u2));
                            } else {
                                assert(u2 == u);
                                assert(members@[i as int] == u2);
                            }
                        }
                        if exists|j: int|
                            0 <= j < i + 1 && members@[j] == u2 && registry@.contains_key(u2) {
                            let j = choose|j: int|
                                0 <= j < i + 1 && members@[j] == u2 && registry@.contains_key(u2);
                            if j < i {
                                let k = choose|k: int| 0 <= k < rec0.len() && rec0[k].user == u2;
                                assert(recipients@[k].user == u2);
                            } else {
                                assert(u2 == u);
                                assert(recipients@[rec0.len() as int].user == u2);
                            }
                        }
                    }
                    assert forall|k1: int, k2: int|
                        0 <= k1 < recipients@.len() && 0 <= k2 < recipients@.len()
                            && recipients@[k1].user == recipients@[k2].user implies k1 == k2 by {
                        if k1 < rec0.len() && k2 < rec0.len() {
                            assert(rec0[k1].user == rec0[k2].user);
                        } else if k1 < rec0.len() && k2 == rec0.len() {
                            assert(rec0[k1].user == u);
                            assert(exists|k: int| 0 <= k < rec0.len() && rec0[k].user == u);
                        } else if k2 < rec0.len() && k1 == rec0.len() {
                            assert(rec0[k2].user == u);
                            assert(exists|k: int| 0 <= k < rec0.len() && rec0[k].user == u);
                        }
                    }
                }
            },
            None => {
                proof {
                    assert(!skip0.contains(u)) by {
                        if skip0.contains(u) {
                            let j = choose|j: int|
                                0 <= j < i && members@[j] == u && !registry@.contains_key(u);
                            assert(members@[j] == members@[i as int]);
                        }
                    }
                    crate::membership::lemma_nodup_push(skip0, u);
                }
                skipped.push(u);
                proof {
                    assert(skipped@ == skip0.push(u));
                    assert forall|u2: u128|
                        skipped@.contains(u2) <==> exists|j: int|
                            0 <= j < i + 1 && members@[j] == u2 && !registry@.contains_key(u2) by {
                        assert(skipped@.contains(u2) == (skip0.contains(u2) || u2 == u));
                        if skipped@.contains(u2) {
                            if u2 == u {
                                assert(members@[i as int] == u2);
                            } else {
                                let j = choose|j: int|
                                    0 <= j < i && members@[j] == u2 && !registry@.contains_key(u2);
                                assert(0 <= j < i + 1 && members@[j] == u2
                                    && !registry@.contains_key(u2));
                            }
                        }
                        if exists|j: int|
                            0 <= j < i + 1 && members@[j] == u2 && !registry@.contains_key(u2) {
                            let j = choose|j: int|
                                0 <= j < i + 1 && members@[j] == u2 && !registry@.contains_key(u2);
                            if j < i {
                                assert(skip0.contains(u2));
                            } else {
                                assert(u2 == u);
                            }
                            assert(skipped@.contains(u2));
                        }
                    }
                }
            },
        }
        i += 1;
    }
    proof {
        let members_set = seq_to_set(members@);
        assert forall|k: int| 0 <= k < recipients@.len() implies members_set.contains(
            #[trigger] recipients@[k].user,
        ) by {
            let uu = recipients@[k].user;
            assert(0 <= k < recipients@.len() && recipients@[k].user == uu);
            assert(exists|k2: int| 0 <= k2 < recipients@.len() && recipients@[k2].user == uu);
            assert(registry@.contains_key(uu));
            let j = choose|j: int|
                0 <= j < members@.len() && members@[j] == uu && registry@.contains_key(uu);
            assert(members@[j] == uu);
            assert(members@.contains(uu));
        }
        assert forall|u: u128| members_set.contains(u) && registry@.contains_key(u) implies exists|
            k: int,
        | 0 <= k < recipients@.len() && #[trigger] recipients@[k].user == u by {
            assert(members@.contains(u));
            let j = choose|j: int| 0 <= j < members@.len() && members@[j] == u;
            assert(0 <= j < members@.len() && members@[j] == u && registry@.contains_key(u));
            assert(exists|j2: int|
                0 <= j2 < members@.len() && members@[j2] == u && registry@.contains_key(u));
        }
        assert forall|k: int| 0 <= k < skipped@.len() implies members_set.contains(
            #[trigger] skipped@[k],
        ) && !registry@.contains_key(skipped@[k]) by {
            let uu = skipped@[k];
            assert(0 <= k < skipped@.len() && skipped@[k] == uu);
            assert(skipped@.contains(uu));
            let j = choose|j: int|
                0 <= j < members@.len() && members@[j] == uu && !registry@.contains_key(uu);
            assert(members@[j] == uu);
            assert(members@.contains(uu));
        }
        assert forall|u: u128| members_set.contains(u) && !registry@.contains_key(u) implies
            skipped@.contains(u) by {
            assert(members@.contains(u));
            let j = choose|j: int| 0 <= j < members@.len() && members@[j] == u;
            assert(0 <= j < members@.len() && members@[j] == u && !registry@.contains_key(u));
            assert(exists|j2: int|
                0 <= j2 < members@.len() && members@[j2] == u && !registry@.contains_key(u));
        }
    }
    (recipients, skipped)
}

/// The leave loop's progress: `user` has been removed from exactly the
/// rooms in `done`, and nothing else has changed.
spec fn members_pruned(
    cur: MembershipIndex,
    pre: MembershipIndex,
    user: u128,
    done: Seq<RoomId>,
) -> bool {
    forall|r2: RoomId, u2: u128|
        cur.members_of(r2).contains(u2) == (pre.members_of(r2).contains(u2) && !(u2 == user
            && done.contains(r2)))
}

proof fn lemma_members_pruned_at(
    cur: MembershipIndex,
    pre: MembershipIndex,
    user: u128,
    done: Seq<RoomId>,
    r2: RoomId,
    u2: u128,
)
    requires
        members_pruned(cur, pre, user, done),
    ensures
        cur.members_of(r2).contains(u2) == (pre.members_of(r2).contains(u2) && !(u2 == user
            && done.contains(r2))),
{
}

/// The mirror of `members_pruned` on the user-to-rooms direction.
spec fn rooms_pruned(
    cur: MembershipIndex,
    pre: MembershipIndex,
    user: u128,
    done: Seq<RoomId>,
) -> bool {
    forall|u2: u128, r2: RoomId|
        cur.rooms_of(u2).contains(r2) == (pre.rooms_of(u2).contains(r2) && !(u2 == user
            && done.contains(r2)))
}

proof fn lemma_rooms_pruned_at(
    cur: MembershipIndex,
    pre: MembershipIndex,
    user: u128,
    done: Seq<RoomId>,
    u2: u128,
    r2: RoomId,
)
    requires
        rooms_pruned(cur, pre, user, done),
    ensures
        cur.rooms_of(u2).contains(r2) == (pre.rooms_of(u2).contains(r2) && !(u2 == user
            && done.contains(r2))),
{
}

/// Rooms outside `done` keep their existence across the leave loop.
spec fn presence_kept(cur: MembershipIndex, pre: MembershipIndex, done: Seq<RoomId>) -> bool {
    forall|r2: RoomId| !done.contains(r2) ==> cur.has_room(r2) == pre.has_room(r2)
}

proof fn lemma_presence_kept_at(
    cur: MembershipIndex,
    pre: MembershipIndex,
    done: Seq<RoomId>,
    r2: RoomId,
)
    requires
        presence_kept(cur, pre, done),
        !done.contains(r2),
    ensures
        cur.has_room(r2) == pre.has_room(r2),
{
}

/// One valid entry of a disconnect's notification list.
spec fn note_entry_ok(
    reg: Map<u128, u64>,
    m: MembershipIndex,
    pre_m: MembershipIndex,
    user: u128,
    note: RoomNotification,
) -> bool {
    &&& pre_m.rooms_of(user).contains(note.room)
    &&& exists|u2: u128| m.members_of(note.room).contains(u2)
    &&& fan_out_ok(reg, m.members_of(note.room), note.recipients@, note.skipped@)
}

/// The notification loop's progress over the first `k` rooms: every entry is
/// valid, entries name distinct rooms drawn from the processed prefix, and
/// every processed room that still has members got an entry.
spec fn notes_prefix_ok(
    reg: Map<u128, u64>,
    m: MembershipIndex,
    pre_m: MembershipIndex,
    user: u128,
    notes: Seq<RoomNotification>,
    rooms: Seq<RoomId>,
    k: int,
) -> bool {
    &&& forall|idx: int|
        0 <= idx < notes.len() ==> note_entry_ok(reg, m, pre_m, user, #[trigger] notes[idx])
    &&& forall|idx: int|
        0 <= idx < notes.len() ==> exists|j: int|
            0 <= j < k && rooms[j] == (#[trigger] notes[idx]).room
    &&& forall|i1: int, i2: int|
        0 <= i1 < notes.len() && 0 <= i2 < notes.len() && notes[i1].room == notes[i2].room ==> i1
            == i2
    &&& forall|j: int|
        0 <= j < k && (exists|u2: u128| m.members_of(#[trigger] rooms[j]).contains(u2))
            ==> exists|idx: int| 0 <= idx < notes.len() && (#[trigger] notes[idx]).room == rooms[j]
}

proof fn lemma_notes_prefix_push(
    reg: Map<u128, u64>,
    m: MembershipIndex,
    pre_m: MembershipIndex,
    user: u128,
    notes: Seq<RoomNotification>,
    rooms: Seq<RoomId>,
    k: int,
    note: RoomNotification,
)
    requires
        notes_prefix_ok(reg, m, pre_m, user, notes, rooms, k),
        0 <= k < rooms.len(),
        note.room == rooms[k],
        seq_nodup(rooms),
        note_entry_ok(reg, m, pre_m, user, note),
    ensures
        notes_prefix_ok(reg, m, pre_m, user, notes.push(note), rooms, k + 1),
{
    let n1 = notes.push(note);
    assert forall|idx: int| 0 <= idx < n1.len() implies note_entry_ok(
        reg,
        m,
        pre_m,
        user,
        #[trigger] n1[idx],
    ) by {
        if idx < notes.len() {
            assert(n1[idx] == notes[idx]);
        } else {
            assert(n1[idx] == note);
        }
    }
    assert forall|idx: int| 0 <= idx < n1.len() implies exists|j: int|
        0 <= j < k + 1 && rooms[j] == (#[trigger] n1[idx]).room by {
        if idx < notes.len() {
            assert(n1[idx] == notes[idx]);
            let j = choose|j: int| 0 <= j < k && rooms[j] == notes[idx].room;
            assert(0 <= j < k + 1 && rooms[j] == n1[idx].room);
        } else {
            assert(n1[idx] == note);
            assert(0 <= k < k + 1 && rooms[k] == n1[idx].room);
        }
    }
    assert forall|i1: int, i2: int|
        0 <= i1 < n1.len() && 0 <= i2 < n1.len() && n1[i1].room == n1[i2].room implies i1
        == i2 by {
        if i1 < notes.len() && i2 < notes.len() {
            assert(notes[i1].room == notes[i2].room);
        } else if i1 < notes.len() && i2 == notes.len() {
            assert(n1[i1] == notes[i1] && n1[i2] == note);
            let j = choose|j: int| 0 <= j < k && rooms[j] == notes[i1].room;
            assert(rooms[j] == rooms[k]);
        } else if i2 < notes.len() && i1 == notes.len() {
            assert(n1[i2] == notes[i2] && n1[i1] == note);
            let j = choose|j: int| 0 <= j < k && rooms[j] == notes[i2].room;
            assert(rooms[j] == rooms[k]);
        }
    }
    assert forall|j: int|
        0 <= j < k + 1 && (exists|u2: u128| m.members_of(#[trigger] rooms[j]).contains(u2))
        implies exists|idx: int|
        0 <= idx < n1.len() && (#[trigger] n1[idx]).room == rooms[j] by {
        if j < k {
            let idx = choose|idx: int| 0 <= idx < notes.len() && notes[idx].room == rooms[j];
            assert(n1[idx] == notes[idx]);
            assert(0 <= idx < n1.len() && n1[idx].room == rooms[j]);
        } else {
            let last: int = notes.len() as int;
            assert(n1[last] == note);
            assert(0 <= last < n1.len() && n1[last].room == rooms[j]);
        }
    }
}

proof fn lemma_notes_prefix_empty_room(
    reg: Map<u128, u64>,
    m: MembershipIndex,
    pre_m: MembershipIndex,
    user: u128,
    notes: Seq<RoomNotification>,
    rooms: Seq<RoomId>,
    k: int,
)
    requires
        notes_prefix_ok(reg, m, pre_m, user, notes, rooms, k),
        0 <= k < rooms.len(),
        forall|u2: u128| !m.members_of(rooms[k]).contains(u2),
    ensures
        notes_prefix_ok(reg, m, pre_m, user, notes, rooms, k + 1),
{
    assert forall|idx: int| 0 <= idx < notes.len() implies exists|j: int|
        0 <= j < k + 1 && rooms[j] == (#[trigger] notes[idx]).room by {
        let j = choose|j: int| 0 <= j < k && rooms[j] == notes[idx].room;
        assert(0 <= j < k + 1 && rooms[j] == notes[idx].room);
    }
    assert forall|j: int|
        0 <= j < k + 1 && (exists|u2: u128| m.members_of(#[trigger] rooms[j]).contains(u2))
        implies exists|idx: int|
        0 <= idx < notes.len() && (#[trigger] notes[idx]).room == rooms[j] by {
        if j == k {
            let u2 = choose|u2: u128| m.members_of(rooms[k]).contains(u2);
            assert(false);
        }
    }
}

proof fn lemma_notes_prefix_complete(
    reg: Map<u128, u64>,
    m: MembershipIndex,
    pre_m: MembershipIndex,
    user: u128,
    notes: Seq<RoomNotification>,
    rooms: Seq<RoomId>,
)
    requires
        notes_prefix_ok(reg, m, pre_m, user, notes, rooms, rooms.len() as int),
    ensures
        forall|idx: int|
            0 <= idx < notes.len() ==> note_entry_ok(reg, m, pre_m, user, #[trigger] notes[idx]),
        forall|i1: int, i2: int|
            0 <= i1 < notes.len() && 0 <= i2 < notes.len() && notes[i1].room == notes[i2].room
                ==> i1 == i2,
        forall|r: RoomId|
            rooms.contains(r) && (exists|u2: u128| m.members_of(r).contains(u2)) ==> exists|
                idx: int,
            | 0 <= idx < notes.len() && (#[trigger] notes[idx]).room == r,
{
    assert forall|r: RoomId|
        rooms.contains(r) && (exists|u2: u128| m.members_of(r).contains(u2)) implies exists|
        idx: int,
    | 0 <= idx < notes.len() && (#[trigger] notes[idx]).room == r by {
        let j = choose|j: int| 0 <= j < rooms.len() && rooms[j] == r;
        let u2 = choose|u2: u128| m.members_of(r).contains(u2);
        assert(m.members_of(rooms[j]).contains(u2));
        assert(exists|u3: u128| m.members_of(rooms[j]).contains(u3));
        let idx = choose|idx: int| 0 <= idx < notes.len() && notes[idx].room == rooms[j];
        assert(0 <= idx < notes.len() && notes[idx].room == r);
    }
}

/// Law (membership symmetry): in every well-formed lobby state, a user lists
/// a room among its rooms exactly when that room lists the user among its
/// members.
pub proof fn lemma_lobby_symmetry(l: Lobby, user: u128, room: RoomId)
    requires
        l.wf(),
    ensures
        l.rooms_of(user).contains(room) <==> l.members_of(room).contains(user),
{
    lemma_membership_symmetry(l.membership, user, room);
}

/// Law (game-room pruning): a game room exists exactly while it has at least
/// one member; emptying it removes it entirely. The global room is governed
/// by its own clause: no lobby operation ever removes it.
pub proof fn lemma_lobby_game_room_presence(l: Lobby, game: u64)
    ensures
        l.has_room(RoomId::Game(game)) <==> exists|u: u128|
            l.members_of(RoomId::Game(game)).contains(u),
{
    crate::membership::lemma_game_room_presence(l.membership, game);
    if l.has_room(RoomId::Game(game)) {
        let u = choose|u: u128| l.membership.members_of(RoomId::Game(game)).contains(u);
        assert(l.members_of(RoomId::Game(game)).contains(u));
    }
    if exists|u: u128| l.members_of(RoomId::Game(game)).contains(u) {
        let u = choose|u: u128| l.members_of(RoomId::Game(game)).contains(u);
        assert(l.membership.members_of(RoomId::Game(game)).contains(u));
        assert(exists|u2: u128| l.membership.members_of(RoomId::Game(game)).contains(u2));
    }
}

/// Law (last connect wins): after a user's sessions map has seen two
/// registrations without an intervening removal, a direct fan-out to that
/// user reaches exactly one recipient, on the channel of the second
/// registration, and skips no one.
pub proof fn lemma_reconnect_last_wins(
    s0: Map<u128, u64>,
    user: u128,
    c1: u64,
    c2: u64,
    recipients: Seq<Delivery>,
    skipped: Seq<u128>,
)
    requires
        fan_out_ok(
            s0.insert(user, c1).insert(user, c2),
            Set::empty().insert(user),
            recipients,
            skipped,
        ),
    ensures
        recipients.len() == 1,
        recipients[0] == (Delivery { user, channel: c2 }),
        skipped.len() == 0,
{
    let s2 = s0.insert(user, c1).insert(user, c2);
    let members = Set::empty().insert(user);
    assert(s2.contains_key(user) && s2[user] == c2);
    assert(members.contains(user));
    assert(exists|i: int| 0 <= i < recipients.len() && recipients[i].user == user);
    let i = choose|i: int| 0 <= i < recipients.len() && recipients[i].user == user;
    assert(recipients.len() >= 1);
    if recipients.len() >= 2 {
        assert(members.contains(recipients[0].user));
        assert(members.contains(recipients[1].user));
        assert(recipients[0].user == user && recipients[1].user == user);
        assert(false);
    }
    assert(recipients[0].user == user);
    assert(recipients[0].channel == c2);
    if skipped.len() > 0 {
        assert(members.contains(skipped[0]));
        assert(skipped[0] == user);
        assert(!s2.contains_key(user));
    }
}

} // verus!
