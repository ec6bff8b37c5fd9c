use hive_lobby::challenge_error::{dec_u64, ChallengeError};
use hive_lobby::messages::{
    offline_status, online_status, Payload, ServerMessage, UserProfile, UserStatus,
};
use hive_lobby::online_users::online_players;
use hive_lobby::piece_type::PieceType;

fn profile(user_id: u128, username: &str, rating: u64) -> UserProfile {
    UserProfile { user_id, username: String::from(username), rating }
}

#[test]
fn online_status_carries_the_profile() {
    match online_status(profile(1, "ann", 1400)) {
        Payload::Message(ServerMessage::UserStatus(update)) => {
            assert_eq!(update.status, UserStatus::Online);
            assert_eq!(update.username, "ann");
            let p = update.user.expect("profile present");
            assert_eq!(p.user_id, 1);
            assert_eq!(p.rating, 1400);
        },
        _ => panic!("a user status was expected"),
    }
}

#[test]
fn offline_status_carries_only_the_username() {
    match offline_status(String::from("bea")) {
        Payload::Message(ServerMessage::UserStatus(update)) => {
            assert_eq!(update.status, UserStatus::Offline);
            assert!(update.user.is_none());
            assert_eq!(update.username, "bea");
        },
        _ => panic!("a user status was expected"),
    }
}

#[test]
fn online_players_excludes_the_viewer() {
    let users = vec![profile(1, "ann", 1400), profile(2, "bea", 1500), profile(3, "cid", 1600)];
    let own = String::from("bea");
    let visible = online_players(&users, Some(&own));
    let names: Vec<&str> = visible.iter().map(|p| p.username.as_str()).collect();
    assert_eq!(names, vec!["ann", "cid"]);
}

#[test]
fn online_players_shows_everyone_to_an_anonymous_viewer() {
    let users = vec![profile(1, "ann", 1400), profile(2, "bea", 1500)];
    let visible = online_players(&users, None);
    assert_eq!(visible.len(), 2);
    assert_eq!(visible[0].username, "ann");
    assert_eq!(visible[1].username, "bea");
}

#[test]
fn piece_type_names() {
    assert_eq!(PieceType::Board.name(), "board");
    assert_eq!(PieceType::Covered.name(), "covered");
    assert_eq!(PieceType::Inactive.name(), "inactive");
    assert_eq!(PieceType::Nope.name(), "nope");
    assert_eq!(PieceType::Reserve.name(), "reserve");
    assert_eq!(PieceType::Spawn.name(), "spawn");
    assert_eq!(PieceType::default(), PieceType::Nope);
}

#[test]
fn decimal_rendering_is_exact() {
    assert_eq!(dec_u64(0), "0");
    assert_eq!(dec_u64(7), "7");
    assert_eq!(dec_u64(10), "10");
    assert_eq!(dec_u64(905), "905");
    assert_eq!(dec_u64(u64::MAX), "18446744073709551615");
}

#[test]
fn challenge_error_messages() {
    let e = ChallengeError::InvalidChallengeVisibility { found: String::from("Sometimes") };
    assert_eq!(e.message(), "Sometimes is not a valid ChallengeVisibility");
    let e = ChallengeError::MissingChallenger(String::from("abc123"));
    assert_eq!(e.message(), "Couldn't find challenge creator (uid abc123)");
    let e = ChallengeError::OwnChallenge;
    assert_eq!(e.message(), "You can't accept your own challenges!");
    let e = ChallengeError::NotUserChallenge;
    assert_eq!(e.message(), "This is not your challenge");
    let e = ChallengeError::NotValidTimeMode { found: String::from("Sundial") };
    assert_eq!(e.message(), "Sundial is not a valid TimeMode");
    let e = ChallengeError::OutsideBand { rating: 900, band_upper: 1500, band_lower: 1000 };
    assert_eq!(e.message(), "Your rating 900 is outside the rating band 1000-1500");
}
