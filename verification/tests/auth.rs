use minigolf::auth::{AuthOutcome, GameRoster, LobbyServerConnector, MAX_CONNECT_ATTEMPTS};
use minigolf::lobby::PlayerId;
use minigolf::player::PlayerCredentials;
use minigolf::protocol::CreateGameRequest;

fn request() -> CreateGameRequest {
    CreateGameRequest {
        lobby_id: 77,
        players: vec![
            (PlayerId::from_bits(1), PlayerCredentials { secret: 11 }),
            (PlayerId::from_bits(2), PlayerCredentials { secret: 22 }),
        ],
        courses: vec![b"0002".to_vec()],
    }
}

#[test]
fn matching_credentials_authenticate() {
    let mut roster = GameRoster::from_request(&request(), 100);
    let outcome = roster.authenticate(
        500,
        PlayerId::from_bits(1),
        PlayerCredentials { secret: 11 },
    );
    assert_eq!(outcome, AuthOutcome::Authenticated(100));
}

#[test]
fn unknown_id_is_not_found() {
    let mut roster = GameRoster::from_request(&request(), 100);
    let outcome = roster.authenticate(
        500,
        PlayerId::from_bits(9),
        PlayerCredentials { secret: 11 },
    );
    assert_eq!(outcome, AuthOutcome::NotFound);
}

#[test]
fn wrong_credential_is_unauthorized_and_mutates_nothing() {
    let mut roster = GameRoster::from_request(&request(), 100);
    let outcome = roster.authenticate(
        500,
        PlayerId::from_bits(1),
        PlayerCredentials { secret: 99 },
    );
    assert_eq!(outcome, AuthOutcome::Unauthorized);
    // nothing was bound: the game still waits for both players
    assert!(!roster.all_players_joined());
    // the record itself is untouched: the true credential still works and
    // yields the same entity
    let retry = roster.authenticate(
        500,
        PlayerId::from_bits(1),
        PlayerCredentials { secret: 11 },
    );
    assert_eq!(retry, AuthOutcome::Authenticated(100));
}

#[test]
fn reauthentication_rebinds_the_same_entity() {
    let mut roster = GameRoster::from_request(&request(), 100);
    let first = roster.authenticate(
        500,
        PlayerId::from_bits(2),
        PlayerCredentials { secret: 22 },
    );
    assert_eq!(first, AuthOutcome::Authenticated(101));

    // the transport drops and the client reconnects on a new session
    assert_eq!(roster.disconnect_session(500), Some(101));
    let second = roster.authenticate(
        501,
        PlayerId::from_bits(2),
        PlayerCredentials { secret: 22 },
    );
    assert_eq!(second, AuthOutcome::Authenticated(101));
}

#[test]
fn all_players_joined_needs_every_session() {
    let mut roster = GameRoster::from_request(&request(), 100);
    assert!(!roster.all_players_joined());
    roster.authenticate(500, PlayerId::from_bits(1), PlayerCredentials { secret: 11 });
    assert!(!roster.all_players_joined());
    roster.authenticate(501, PlayerId::from_bits(2), PlayerCredentials { secret: 22 });
    assert!(roster.all_players_joined());
}

#[test]
fn disconnecting_an_unbound_session_changes_nothing() {
    let mut roster = GameRoster::from_request(&request(), 100);
    assert_eq!(roster.disconnect_session(999), None);
}

#[test]
fn retry_budget_is_five_attempts() {
    let mut connector = LobbyServerConnector::new();
    assert_eq!(MAX_CONNECT_ATTEMPTS, 5);
    for _ in 0..5 {
        assert!(connector.retry().is_ok());
    }
    assert!(connector.retry().is_err());
    assert_eq!(connector.attempts, 5);
}
