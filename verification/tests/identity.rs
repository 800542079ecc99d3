use minigolf::geom::{PlayableArea, Vec3i};
use minigolf::lobby::{LobbyMember, PlayerId, PlayerInLobby, UniqueId};
use minigolf::player::{Player, PlayerCredentials};
use minigolf::progression::{GameConfig, LevelMesh};

#[test]
fn fresh_identities_differ() {
    let a = UniqueId::new();
    let b = UniqueId::new();
    assert_ne!(a.bits(), b.bits());
    assert_ne!(a, b);
}

#[test]
fn identity_is_its_bits() {
    let id = UniqueId::from_bits(0xFEED);
    assert_eq!(id.bits(), 0xFEED);
    assert_eq!(id, UniqueId::from_bits(0xFEED));
    assert_ne!(id, UniqueId::from_bits(0xFEEE));
}

#[test]
fn fresh_credentials_differ() {
    let a = PlayerCredentials::default();
    let b = PlayerCredentials::default();
    assert_ne!(a.secret, b.secret);
}

#[test]
fn new_players_may_not_move_yet() {
    let player = Player::new();
    assert!(!player.can_move);
    let known = Player::from(PlayerId::from_bits(5));
    assert!(!known.can_move);
    assert_eq!(known.id, PlayerId::from_bits(5));
}

#[test]
fn lobby_membership_records_carry_their_ids() {
    let member = LobbyMember::from(42);
    assert_eq!(member.lobby_id, 42);
    let record = PlayerInLobby::new(42, PlayerId::from_bits(1));
    assert_eq!(record.lobby_id, 42);
    assert_eq!(record.player_id, PlayerId::from_bits(1));
    let fresh_a = LobbyMember::new();
    let fresh_b = LobbyMember::new();
    assert_ne!(fresh_a.lobby_id, fresh_b.lobby_id);
}

#[test]
fn playable_area_contains_its_clamped_points() {
    let area = PlayableArea {
        min: Vec3i { x: 0, y: 0, z: 0 },
        max: Vec3i { x: 10, y: 10, z: 10 },
    };
    assert!(area.contains(Vec3i { x: 5, y: 5, z: 5 }));
    assert!(!area.contains(Vec3i { x: 11, y: 5, z: 5 }));
    let clamped = area.clamp(Vec3i { x: -4, y: 20, z: 7 });
    assert_eq!(clamped, Vec3i { x: 0, y: 10, z: 7 });
    assert!(area.contains(clamped));
}

#[test]
fn course_roster_cursor_walks_in_order() {
    let mut config = GameConfig::new(vec![b"0002".to_vec(), b"0005".to_vec()]);
    assert_eq!(config.current().as_slice(), b"0002");
    assert!(config.next_course().is_ok());
    assert_eq!(config.current().as_slice(), b"0005");
    assert!(config.next_course().is_err());
    assert_eq!(config.current().as_slice(), b"0005");
}

#[test]
fn level_mesh_remembers_its_asset_path() {
    let mesh = LevelMesh::from_path("Course1.glb#Mesh0/Primitive0");
    assert_eq!(mesh.asset, "Course1.glb#Mesh0/Primitive0");
}
