use minigolf::directory::{LobbyDirectory, LobbyError};
use minigolf::lobby::PlayerId;

#[test]
fn create_join_leave_track_membership() {
    let mut directory = LobbyDirectory::new();
    let alice = PlayerId::from_bits(1);
    let bob = PlayerId::from_bits(2);

    let lobby = directory.create_lobby(alice);
    assert_eq!(directory.members(lobby).unwrap(), vec![alice]);

    let roster_before_join = directory.join_lobby(lobby, bob).unwrap();
    assert_eq!(roster_before_join, vec![alice]);
    assert_eq!(directory.members(lobby).unwrap(), vec![alice, bob]);

    let left = directory.leave_lobby(alice).unwrap();
    assert_eq!(left.lobby_id, lobby);
    assert_eq!(left.player_id, alice);
    assert_eq!(directory.members(lobby).unwrap(), vec![bob]);
}

#[test]
fn joining_an_unknown_lobby_is_not_found() {
    let mut directory = LobbyDirectory::new();
    let bob = PlayerId::from_bits(2);
    assert_eq!(directory.join_lobby(42, bob), Err(LobbyError::NotFound));
}

#[test]
fn an_emptied_lobby_is_destroyed_and_unjoinable() {
    let mut directory = LobbyDirectory::new();
    let alice = PlayerId::from_bits(1);
    let bob = PlayerId::from_bits(2);

    let lobby = directory.create_lobby(alice);
    assert!(directory.leave_lobby(alice).is_some());
    assert_eq!(directory.members(lobby), Err(LobbyError::NotFound));
    assert_eq!(directory.join_lobby(lobby, bob), Err(LobbyError::NotFound));
    assert_eq!(directory.list_lobbies(), Vec::<u64>::new());
}

#[test]
fn leaving_without_membership_changes_nothing() {
    let mut directory = LobbyDirectory::new();
    let alice = PlayerId::from_bits(1);
    let stranger = PlayerId::from_bits(9);
    let lobby = directory.create_lobby(alice);
    assert_eq!(directory.leave_lobby(stranger), None);
    assert_eq!(directory.members(lobby).unwrap(), vec![alice]);
}

#[test]
fn list_lobbies_snapshots_every_lobby() {
    let mut directory = LobbyDirectory::new();
    let alice = PlayerId::from_bits(1);
    let bob = PlayerId::from_bits(2);
    let first = directory.create_lobby(alice);
    let second = directory.create_lobby(bob);
    assert_ne!(first, second);
    assert_eq!(directory.list_lobbies(), vec![first, second]);
}
