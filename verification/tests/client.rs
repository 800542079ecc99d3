use minigolf::client::{Authentication, ClientSession, LobbyUi, ServerState};
use minigolf::lobby::{PlayerId, PlayerInLobby};
use minigolf::player::PlayerCredentials;
use minigolf::protocol::UserServerPacket;

#[test]
fn greeting_stores_the_identity() {
    let mut session = ClientSession::new();
    assert_eq!(session.state, ServerState::LobbyServer);
    let id = PlayerId::from_bits(7);
    let credentials = PlayerCredentials { secret: 9 };
    let directive = session.handle_lobby_server_packet(&UserServerPacket::Hello(id, credentials));
    assert_eq!(directive, None);
    assert_eq!(session.authentication, Some(Authentication::new(id, credentials)));

    // the stored pair is replayed to the game server
    let reply = session.authentication_reply();
    assert_eq!(reply.id, id);
    assert_eq!(reply.credentials, credentials);
}

#[test]
fn lobby_creation_and_join_enter_the_lobby_view() {
    let mut session = ClientSession::new();
    session.handle_lobby_server_packet(&UserServerPacket::LobbyCreated(42));
    assert_eq!(session.state, ServerState::Lobby);
    let view = session.lobby.as_ref().unwrap();
    assert_eq!(view.lobby_id, 42);
    assert!(view.player_ids.is_empty());

    let others = vec![PlayerId::from_bits(1), PlayerId::from_bits(2)];
    session.handle_lobby_server_packet(&UserServerPacket::LobbyJoined(43, others.clone()));
    let view = session.lobby.as_ref().unwrap();
    assert_eq!(view.lobby_id, 43);
    assert_eq!(view.player_ids, others);
}

#[test]
fn join_and_leave_notifications_update_the_roster() {
    let mut session = ClientSession::new();
    session.handle_lobby_server_packet(&UserServerPacket::LobbyCreated(42));
    let bob = PlayerId::from_bits(2);
    session.handle_lobby_server_packet(&UserServerPacket::PlayerJoined(PlayerInLobby {
        lobby_id: 42,
        player_id: bob,
    }));
    assert_eq!(session.lobby.as_ref().unwrap().player_ids, vec![bob]);
    session.handle_lobby_server_packet(&UserServerPacket::PlayerLeft(PlayerInLobby {
        lobby_id: 42,
        player_id: bob,
    }));
    assert!(session.lobby.as_ref().unwrap().player_ids.is_empty());
}

#[test]
fn game_start_hands_back_the_address() {
    let mut session = ClientSession::new();
    session.handle_lobby_server_packet(&UserServerPacket::LobbyCreated(42));
    let directive = session
        .handle_lobby_server_packet(&UserServerPacket::GameStarted(b"ws://game".to_vec()));
    assert_eq!(directive, Some(b"ws://game".to_vec()));
    assert_eq!(session.state, ServerState::GameServer);
}

#[test]
fn lobby_view_tracks_players() {
    let mut view = LobbyUi::new_lobby(42);
    let alice = PlayerId::from_bits(1);
    let bob = PlayerId::from_bits(2);
    view.add_player(alice);
    view.add_player(bob);
    assert_eq!(view.player_ids, vec![alice, bob]);
    view.remove_player(alice);
    assert_eq!(view.player_ids, vec![bob]);

    let existing = LobbyUi::new_existing_lobby(43, vec![alice, bob]);
    assert_eq!(existing.lobby_id, 43);
    assert_eq!(existing.player_ids, vec![alice, bob]);
}
