use hive_lobby::hydration::{
    challenge_list_for_anonymous, challenge_list_for_user, online_status_broadcast,
    pending_action_envelope, roster_envelopes,
};
use hive_lobby::lobby::Lobby;
use hive_lobby::messages::{
    ChallengeSummary, Envelope, GameSummary, MessageDestination, Payload, RoomId, ServerMessage,
    UserProfile, UserStatus,
};

fn profile(user_id: u128, username: &str, rating: u64) -> UserProfile {
    UserProfile { user_id, username: String::from(username), rating }
}

fn challenge(challenge_id: u64, challenger_id: u128) -> ChallengeSummary {
    ChallengeSummary { challenge_id, challenger_id }
}

fn challenge_ids(envelope: &Envelope) -> Vec<u64> {
    match &envelope.payload {
        Payload::Message(ServerMessage::Challenge(cs)) => {
            cs.iter().map(|c| c.challenge_id).collect()
        },
        _ => panic!("a challenge list was expected"),
    }
}

#[test]
fn roster_skips_unresolved_profiles() {
    let profiles = vec![Some(profile(2, "bea", 1500)), None, Some(profile(3, "cid", 1600))];
    let roster = roster_envelopes(1, &profiles);
    assert_eq!(roster.len(), 2);
    for (envelope, expected) in roster.iter().zip(["bea", "cid"]) {
        assert_eq!(envelope.destination, MessageDestination::Direct(1));
        assert_eq!(envelope.from, 1);
        match &envelope.payload {
            Payload::Message(ServerMessage::UserStatus(update)) => {
                assert_eq!(update.status, UserStatus::Online);
                assert_eq!(update.username, expected);
                assert_eq!(update.user.as_ref().unwrap().username, expected);
            },
            _ => panic!("a user status was expected"),
        }
    }
}

#[test]
fn pending_actions_are_sent_only_when_nonempty() {
    assert!(pending_action_envelope(1, Vec::new()).is_none());
    let games = vec![GameSummary { game_id: 4 }, GameSummary { game_id: 6 }];
    let envelope = pending_action_envelope(1, games).expect("two games await a move");
    assert_eq!(envelope.destination, MessageDestination::Direct(1));
    match envelope.payload {
        Payload::Message(ServerMessage::GameActionNotification(gs)) => {
            assert_eq!(gs.len(), 2);
            assert_eq!(gs[0].game_id, 4);
            assert_eq!(gs[1].game_id, 6);
        },
        _ => panic!("a game action notification was expected"),
    }
}

#[test]
fn resolved_user_gets_public_and_own_challenges_merged() {
    let public = vec![challenge(10, 2), challenge(11, 3)];
    let own = vec![challenge(12, 1)];
    let envelope = challenge_list_for_user(1, public, own);
    assert_eq!(envelope.destination, MessageDestination::Direct(1));
    assert_eq!(challenge_ids(&envelope), vec![10, 11, 12]);
}

#[test]
fn anonymous_user_gets_the_full_public_list() {
    let public = vec![challenge(10, 2), challenge(11, 3), challenge(12, 1)];
    let envelope = challenge_list_for_anonymous(500, public);
    assert_eq!(envelope.destination, MessageDestination::Direct(500));
    assert_eq!(challenge_ids(&envelope), vec![10, 11, 12]);
}

// Scenario: users 2 and 3 are online in rooms 2 and 3; user 1 connects to
// room 1. User 1 receives two direct online statuses (for 2, for 3); room
// 1's members receive an online broadcast for user 1; user 1 receives one
// challenge list.
#[test]
fn connect_hydration_scenario() {
    let mut lobby = Lobby::new();
    lobby.connect(2, RoomId::Game(2), 20);
    lobby.connect(3, RoomId::Game(3), 30);
    lobby.connect(1, RoomId::Game(1), 10);

    // self-view roster: one direct online status per resolved online peer
    let profiles = vec![Some(profile(2, "bea", 1500)), Some(profile(3, "cid", 1600))];
    let roster = roster_envelopes(1, &profiles);
    assert_eq!(roster.len(), 2);
    let mut direct_deliveries = 0;
    for envelope in roster {
        let out = lobby.dispatch(envelope);
        assert_eq!(out.recipients.len(), 1);
        assert_eq!(out.recipients[0].user, 1);
        assert_eq!(out.recipients[0].channel, 10);
        direct_deliveries += out.recipients.len();
    }
    assert_eq!(direct_deliveries, 2);

    // user 1 resolves: room 1's members get the online broadcast
    let broadcast = online_status_broadcast(1, RoomId::Game(1), profile(1, "ann", 1400));
    let out = lobby.dispatch(broadcast);
    assert_eq!(out.recipients.len(), 1);
    assert_eq!(out.recipients[0].user, 1);

    // one challenge list for user 1
    let list = challenge_list_for_user(1, vec![challenge(10, 2)], Vec::new());
    let out = lobby.dispatch(list);
    assert_eq!(out.recipients.len(), 1);
    assert_eq!(out.recipients[0].user, 1);
}

// Scenario: an anonymous user connects; they receive the full public
// challenge list and no pending-action notification.
#[test]
fn anonymous_connect_scenario() {
    let mut lobby = Lobby::new();
    lobby.connect(2, RoomId::Global, 20);
    lobby.connect(500, RoomId::Global, 50);

    // identity did not resolve: no urgent-game query, hence no bundle
    assert!(pending_action_envelope(500, Vec::new()).is_none());

    // the full public list, nothing excluded
    let public = vec![challenge(10, 2), challenge(11, 2)];
    let envelope = challenge_list_for_anonymous(500, public);
    let out = lobby.dispatch(envelope);
    assert_eq!(out.recipients.len(), 1);
    assert_eq!(out.recipients[0].user, 500);
    assert_eq!(out.recipients[0].channel, 50);
}
