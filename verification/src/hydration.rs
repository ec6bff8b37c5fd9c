//! Join hydration: the initial state assembled for a freshly connected user.
//! Each builder turns the results of one storage query into the message that
//! is pushed; every message is addressed directly to the connecting user.

use vstd::prelude::*;
use crate::messages::{
    online_status, online_status_payload, ChallengeSummary, Envelope, GameSummary,
    MessageDestination, Payload, RoomId, ServerMessage, UserProfile,
};

verus! {

/// The direct envelope telling `connector` that the user of `profile` is
/// online.
pub open spec fn roster_entry(connector: u128, profile: UserProfile) -> Envelope {
    Envelope {
        destination: MessageDestination::Direct(connector),
        payload: online_status_payload(profile),
        from: connector,
    }
}

/// The self-view roster for `connector`: one entry per resolved profile, in
/// order; failed lookups contribute nothing.
pub open spec fn roster_spec(connector: u128, profiles: Seq<Option<UserProfile>>) -> Seq<Envelope>
    decreases profiles.len(),
{
    if profiles.len() == 0 {
        Seq::empty()
    } else {
        let rest = roster_spec(connector, profiles.drop_last());
        match profiles.last() {
            Some(p) => rest.push(roster_entry(connector, p)),
            None => rest,
        }
    }
}

/// Builds the self-view roster pushed to a connecting user: one direct
/// online-status message per online peer whose profile resolved. A peer
/// whose profile lookup failed is skipped; the failure affects nothing else.
pub fn roster_envelopes(connector: u128, profiles: &Vec<Option<UserProfile>>) -> (r: Vec<Envelope>)
    ensures
        r@ == roster_spec(connector, profiles@),
{
    let mut r: Vec<Envelope> = Vec::new();
    let mut i: usize = 0;
    while i < profiles.len()
        invariant
            0 <= i <= profiles@.len(),
            r@ == roster_spec(connector, profiles@.take(i as int)),
        decreases profiles@.len() - i,
    {
        proof {
            assert(profiles@.take(i as int + 1).drop_last() =~= profiles@.take(i as int));
            assert(profiles@.take(i as int + 1).last() == profiles@[i as int]);
        }
        match &profiles[i] {
            Some(p) => {
                let env = Envelope {
                    destination: MessageDestination::Direct(connector),
                    payload: online_status(p.duplicate()),
                    from: connector,
                };
                proof {
                    assert(env == roster_entry(connector, profiles@[i as int]->Some_0));
                }
                r.push(env);
            },
            None => {},
        }
        i += 1;
    }
    proof {
        assert(profiles@.take(profiles@.len() as int) =~= profiles@);
    }
    r
}

/// The envelope bundling the games that need `connector`'s move.
pub open spec fn pending_envelope_spec(connector: u128, games: Vec<GameSummary>) -> Envelope {
    Envelope {
        destination: MessageDestination::Direct(connector),
        payload: Payload::Message(ServerMessage::GameActionNotification(games)),
        from: connector,
    }
}

/// Builds the pending-action notification for `connector`: one direct bundle
/// when at least one game awaits the user's move, nothing otherwise.
pub fn pending_action_envelope(connector: u128, games: Vec<GameSummary>) -> (r: Option<Envelope>)
    ensures
        (r is Some) == (games@.len() > 0),
        games@.len() > 0 ==> r == Some(pending_envelope_spec(connector, games)),
{
    if games.len() > 0 {
        Some(
            Envelope {
                destination: MessageDestination::Direct(connector),
                payload: Payload::Message(ServerMessage::GameActionNotification(games)),
                from: connector,
            },
        )
    } else {
        None
    }
}

/// Merges the public challenges (the user's own already excluded by the
/// query) with the user's own challenges into the single challenge-list
/// message a resolved user receives on join.
pub fn challenge_list_for_user(
    connector: u128,
    public_challenges: Vec<ChallengeSummary>,
    own_challenges: Vec<ChallengeSummary>,
) -> (r: Envelope)
    ensures
        r.destination == MessageDestination::Direct(connector),
        r.from == connector,
        (match r.payload {
            Payload::Message(ServerMessage::Challenge(cs)) => cs@ == public_challenges@
                + own_challenges@,
            _ => false,
        }),
{
    let mut list = public_challenges;
    let mut own = own_challenges;
    list.append(&mut own);
    Envelope {
        destination: MessageDestination::Direct(connector),
        payload: Payload::Message(ServerMessage::Challenge(list)),
        from: connector,
    }
}

/// The challenge-list message an anonymous (unresolved) user receives on
/// join: the full public list, nothing excluded, nothing personal.
pub fn challenge_list_for_anonymous(connector: u128, public_challenges: Vec<ChallengeSummary>) -> (r:
    Envelope)
    ensures
        r.destination == MessageDestination::Direct(connector),
        r.from == connector,
        (match r.payload {
            Payload::Message(ServerMessage::Challenge(cs)) => cs@ == public_challenges@,
            _ => false,
        }),
{
    Envelope {
        destination: MessageDestination::Direct(connector),
        payload: Payload::Message(ServerMessage::Challenge(public_challenges)),
        from: connector,
    }
}

/// Builds the room-addressed broadcast announcing a connecting user online,
/// sent only when the user's profile resolved.
pub fn online_status_broadcast(user: u128, room: RoomId, profile: UserProfile) -> (r: Envelope)
    ensures
        r.from == user,
        r.destination.room_spec() == Some(room),
        r.payload == online_status_payload(profile),
{
    let destination = match room {
        RoomId::Global => MessageDestination::Global,
        RoomId::Game(g) => MessageDestination::Game(g),
    };
    Envelope { destination, payload: online_status(profile), from: user }
}

} // verus!
