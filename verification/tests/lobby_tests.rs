use hive_lobby::lobby::{Delivery, Lobby};
use hive_lobby::messages::{
    MessageDestination, Payload, RoomId, ServerMessage, UserStatus,
};

fn text(s: &str) -> Payload {
    Payload::Text(String::from(s))
}

fn channel_for(recipients: &[Delivery], user: u128) -> Option<u64> {
    recipients.iter().find(|d| d.user == user).map(|d| d.channel)
}

#[test]
fn connect_registers_session_and_membership() {
    let mut lobby = Lobby::new();
    lobby.connect(1, RoomId::Game(1), 10);
    assert_eq!(lobby.channel_of(1), Some(10));
    assert!(lobby.is_member(1, RoomId::Game(1)));
    assert!(lobby.room_exists(RoomId::Game(1)));
    assert_eq!(lobby.members(RoomId::Game(1)), vec![1]);
    assert_eq!(lobby.rooms(1), vec![RoomId::Game(1)]);
}

#[test]
fn membership_is_symmetric_on_concrete_state() {
    let mut lobby = Lobby::new();
    lobby.connect(1, RoomId::Game(1), 10);
    lobby.connect(2, RoomId::Game(1), 20);
    lobby.connect(2, RoomId::Global, 20);
    for user in [1u128, 2] {
        for room in lobby.rooms(user) {
            assert!(lobby.members(room).contains(&user));
        }
    }
    for room in [RoomId::Game(1), RoomId::Global] {
        for user in lobby.members(room) {
            assert!(lobby.rooms(user).contains(&room));
        }
    }
}

#[test]
fn game_room_dispatch_reaches_every_member_exactly_once() {
    let mut lobby = Lobby::new();
    lobby.connect(1, RoomId::Game(7), 10);
    lobby.connect(2, RoomId::Game(7), 20);
    lobby.connect(3, RoomId::Game(8), 30);
    let out = lobby.dispatch(hive_lobby::messages::Envelope {
        destination: MessageDestination::Game(7),
        payload: text("hello"),
        from: 1,
    });
    assert_eq!(out.recipients.len(), 2);
    assert_eq!(channel_for(&out.recipients, 1), Some(10));
    assert_eq!(channel_for(&out.recipients, 2), Some(20));
    // user 3 is outside room 7 and receives nothing
    assert_eq!(channel_for(&out.recipients, 3), None);
    assert!(out.skipped.is_empty());
    match out.payload {
        Payload::Text(s) => assert_eq!(s, "hello"),
        _ => panic!("payload routed unchanged"),
    }
}

#[test]
fn dispatch_joins_the_sender_to_the_room() {
    let mut lobby = Lobby::new();
    lobby.connect(1, RoomId::Game(1), 10);
    lobby.connect(2, RoomId::Game(2), 20);
    // user 2 sends into room 1 without being a member: it is joined first
    let out = lobby.dispatch(hive_lobby::messages::Envelope {
        destination: MessageDestination::Game(1),
        payload: text("hi"),
        from: 2,
    });
    assert!(lobby.is_member(2, RoomId::Game(1)));
    assert_eq!(out.recipients.len(), 2);
    assert_eq!(channel_for(&out.recipients, 2), Some(20));
}

#[test]
fn member_without_session_is_skipped_without_affecting_the_rest() {
    let mut lobby = Lobby::new();
    lobby.connect(1, RoomId::Game(5), 10);
    lobby.connect(2, RoomId::Game(5), 20);
    // sender 99 never connected: it is auto-joined but has no channel
    let out = lobby.dispatch(hive_lobby::messages::Envelope {
        destination: MessageDestination::Game(5),
        payload: text("ping"),
        from: 99,
    });
    assert_eq!(out.skipped, vec![99]);
    assert_eq!(out.recipients.len(), 2);
    assert_eq!(channel_for(&out.recipients, 1), Some(10));
    assert_eq!(channel_for(&out.recipients, 2), Some(20));
}

#[test]
fn direct_dispatch_to_unknown_user_is_a_nonfatal_skip() {
    let mut lobby = Lobby::new();
    lobby.connect(1, RoomId::Global, 10);
    let out = lobby.dispatch(hive_lobby::messages::Envelope {
        destination: MessageDestination::Direct(42),
        payload: text("anyone there?"),
        from: 1,
    });
    assert!(out.recipients.is_empty());
    assert_eq!(out.skipped, vec![42]);
    // the lobby state is untouched and later sends still work
    let ok = lobby.dispatch(hive_lobby::messages::Envelope {
        destination: MessageDestination::Direct(1),
        payload: text("still here"),
        from: 1,
    });
    assert_eq!(ok.recipients, vec![Delivery { user: 1, channel: 10 }]);
}

#[test]
fn reconnect_replaces_the_channel() {
    let mut lobby = Lobby::new();
    lobby.connect(1, RoomId::Global, 10);
    lobby.connect(1, RoomId::Global, 11);
    assert_eq!(lobby.channel_of(1), Some(11));
    let out = lobby.dispatch(hive_lobby::messages::Envelope {
        destination: MessageDestination::Direct(1),
        payload: text("direct"),
        from: 1,
    });
    // only the new channel is reached
    assert_eq!(out.recipients, vec![Delivery { user: 1, channel: 11 }]);
    assert!(out.skipped.is_empty());
}

#[test]
fn disconnecting_sole_member_prunes_the_game_room() {
    // the only member of room 9 disconnects
    let mut lobby = Lobby::new();
    lobby.connect(9, RoomId::Game(9), 90);
    let out = lobby.disconnect(9, String::from("niner"));
    assert!(out.is_some());
    assert!(lobby.members(RoomId::Game(9)).is_empty());
    assert!(!lobby.room_exists(RoomId::Game(9)));
    // the room is absent from every user's room list afterwards
    assert!(!lobby.rooms(9).contains(&RoomId::Game(9)));
    // an empty room produces no notification
    assert!(out.unwrap().notifications.is_empty());
}

#[test]
fn global_room_is_never_pruned() {
    let mut lobby = Lobby::new();
    lobby.connect(1, RoomId::Global, 10);
    assert!(lobby.room_exists(RoomId::Global));
    lobby.disconnect(1, String::from("solo"));
    assert!(lobby.members(RoomId::Global).is_empty());
    assert!(lobby.room_exists(RoomId::Global));
}

#[test]
fn disconnect_broadcasts_offline_to_remaining_members() {
    let mut lobby = Lobby::new();
    lobby.connect(1, RoomId::Game(3), 10);
    lobby.connect(2, RoomId::Game(3), 20);
    let out = lobby.disconnect(1, String::from("alice")).expect("had a session");
    match &out.payload {
        Payload::Message(ServerMessage::UserStatus(update)) => {
            assert_eq!(update.status, UserStatus::Offline);
            assert!(update.user.is_none());
            assert_eq!(update.username, "alice");
        },
        _ => panic!("offline broadcast expected"),
    }
    assert_eq!(out.notifications.len(), 1);
    let note = &out.notifications[0];
    assert_eq!(note.room, RoomId::Game(3));
    assert_eq!(note.recipients, vec![Delivery { user: 2, channel: 20 }]);
    assert!(note.skipped.is_empty());
    // the disconnected user's session is gone
    assert_eq!(lobby.channel_of(1), None);
}

#[test]
fn disconnect_of_unknown_user_changes_nothing() {
    let mut lobby = Lobby::new();
    lobby.connect(1, RoomId::Global, 10);
    let out = lobby.disconnect(77, String::from("ghost"));
    assert!(out.is_none());
    assert_eq!(lobby.channel_of(1), Some(10));
    assert!(lobby.is_member(1, RoomId::Global));
}

#[test]
fn global_dispatch_reaches_every_global_member() {
    let mut lobby = Lobby::new();
    lobby.connect(1, RoomId::Global, 10);
    lobby.connect(2, RoomId::Global, 20);
    lobby.connect(3, RoomId::Game(4), 30);
    let out = lobby.dispatch(hive_lobby::messages::Envelope {
        destination: MessageDestination::Global,
        payload: text("to everyone in the lobby"),
        from: 1,
    });
    assert_eq!(out.recipients.len(), 2);
    assert_eq!(channel_for(&out.recipients, 1), Some(10));
    assert_eq!(channel_for(&out.recipients, 2), Some(20));
    assert_eq!(channel_for(&out.recipients, 3), None);
}

#[test]
fn disconnect_notifies_every_room_the_user_was_in() {
    let mut lobby = Lobby::new();
    lobby.connect(1, RoomId::Game(1), 10);
    lobby.connect(2, RoomId::Game(1), 20);
    lobby.connect(2, RoomId::Game(2), 20);
    lobby.connect(3, RoomId::Game(2), 30);
    // user 2 is in rooms 1 and 2; both keep one member after the disconnect
    let out = lobby.disconnect(2, String::from("bea")).expect("had a session");
    assert_eq!(out.notifications.len(), 2);
    let mut notified: Vec<(RoomId, u128)> = out
        .notifications
        .iter()
        .map(|n| {
            assert_eq!(n.recipients.len(), 1);
            (n.room, n.recipients[0].user)
        })
        .collect();
    notified.sort_by_key(|(_, u)| *u);
    assert_eq!(notified, vec![(RoomId::Game(1), 1), (RoomId::Game(2), 3)]);
    // both rooms survive: they still have a member each
    assert!(lobby.room_exists(RoomId::Game(1)));
    assert!(lobby.room_exists(RoomId::Game(2)));
    assert!(!lobby.is_member(2, RoomId::Game(1)));
    assert!(!lobby.is_member(2, RoomId::Game(2)));
}
