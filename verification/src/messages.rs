//! The data carried through the lobby: room identities, message
//! destinations, and the closed tagged union of outbound payloads.

use vstd::prelude::*;

verus! {

/// A room identity: either the single persistent global room, or an
/// ephemeral per-game room keyed by its game id.
#[derive(Clone, Copy, Debug, PartialEq, Eq, Structural)]
pub enum RoomId {
    Global,
    Game(u64),
}

/// Where a message is addressed: one user, one game room, or the global room.
#[derive(Clone, Copy, Debug, PartialEq, Eq, Structural)]
pub enum MessageDestination {
    Direct(u128),
    Game(u64),
    Global,
}

impl MessageDestination {
    /// The room a room-addressed destination names; direct messages name none.
    pub open spec fn room_spec(self) -> Option<RoomId> {
        match self {
            MessageDestination::Direct(_) => None,
            MessageDestination::Game(g) => Some(RoomId::Game(g)),
            MessageDestination::Global => Some(RoomId::Global),
        }
    }
}

/// Online/offline presence of a user.
#[derive(Clone, Copy, Debug, PartialEq, Eq, Structural)]
pub enum UserStatus {
    Online,
    Offline,
}

/// The public shape of a user record, as resolved from storage.
#[derive(Debug)]
pub struct UserProfile {
    pub user_id: u128,
    pub username: String,
    pub rating: u64,
}

impl UserProfile {
    /// An exact copy; unlike a derived `Clone`, its contract is known.
    pub fn duplicate(&self) -> (r: UserProfile)
        ensures
            r == *self,
    {
        UserProfile { user_id: self.user_id, username: self.username.clone(), rating: self.rating }
    }
}

/// A presence transition pushed to clients.
#[derive(Debug)]
pub struct UserUpdate {
    pub status: UserStatus,
    pub user: Option<UserProfile>,
    pub username: String,
}

/// The public shape of a game record, as resolved from storage.
#[derive(Debug)]
pub struct GameSummary {
    pub game_id: u64,
}

/// The public shape of a challenge record, as resolved from storage.
#[derive(Debug)]
pub struct ChallengeSummary {
    pub challenge_id: u64,
    pub challenger_id: u128,
}

/// The closed union of payloads the lobby itself constructs.
#[derive(Debug)]
pub enum ServerMessage {
    UserStatus(UserUpdate),
    GameActionNotification(Vec<GameSummary>),
    Challenge(Vec<ChallengeSummary>),
}

/// What travels through a dispatch: either opaque client text routed
/// verbatim, or a message the lobby built itself.
#[derive(Debug)]
pub enum Payload {
    Text(String),
    Message(ServerMessage),
}

/// A transient message envelope: destination, payload, sender.
#[derive(Debug)]
pub struct Envelope {
    pub destination: MessageDestination,
    pub payload: Payload,
    pub from: u128,
}

/// The payload announcing that `profile`'s user came online.
pub open spec fn online_status_payload(profile: UserProfile) -> Payload {
    Payload::Message(
        ServerMessage::UserStatus(
            UserUpdate {
                status: UserStatus::Online,
                user: Some(profile),
                username: profile.username,
            },
        ),
    )
}

/// The payload announcing that the user called `username` went offline.
pub open spec fn offline_status_payload(username: String) -> Payload {
    Payload::Message(
        ServerMessage::UserStatus(
            UserUpdate { status: UserStatus::Offline, user: None, username },
        ),
    )
}

/// Builds the online presence payload for `profile`.
pub fn online_status(profile: UserProfile) -> (p: Payload)
    ensures
        p == online_status_payload(profile),
{
    let name = profile.username.clone();
    Payload::Message(
        ServerMessage::UserStatus(
            UserUpdate { status: UserStatus::Online, user: Some(profile), username: name },
        ),
    )
}

/// Builds the offline presence payload for the user called `username`.
pub fn offline_status(username: String) -> (p: Payload)
    ensures
        p == offline_status_payload(username),
{
    Payload::Message(
        ServerMessage::UserStatus(
            UserUpdate { status: UserStatus::Offline, user: None, username },
        ),
    )
}

} // verus!
