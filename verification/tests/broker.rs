use minigolf::broker::{Broker, BrokerError, GameStarted};
use minigolf::lobby::PlayerId;
use minigolf::player::PlayerCredentials;
use minigolf::protocol::{GameClientPacket, GameServerPacket};

fn roster() -> Vec<(PlayerId, PlayerCredentials)> {
    vec![
        (PlayerId::from_bits(1), PlayerCredentials { secret: 11 }),
        (PlayerId::from_bits(2), PlayerCredentials { secret: 22 }),
    ]
}

#[test]
fn hello_draws_a_hello_reply() {
    let mut broker = Broker::new();
    broker.register_server(10);
    let (reply, event) = broker.handle_game_packet(10, &GameClientPacket::Hello);
    assert_eq!(reply, Some(GameServerPacket::Hello));
    assert_eq!(event, None);
}

#[test]
fn start_game_with_no_available_server_reports_no_capacity() {
    let mut broker = Broker::new();
    broker.register_server(10);
    let r = broker.start_game(77, roster(), vec![b"0002".to_vec()]);
    assert_eq!(r.unwrap_err(), BrokerError::NoCapacity);
}

#[test]
fn start_game_assigns_the_first_available_server() {
    let mut broker = Broker::new();
    broker.register_server(10);
    broker.register_server(11);
    broker.register_server(12);
    broker.handle_game_packet(11, &GameClientPacket::Available(b"ws://a".to_vec()));
    broker.handle_game_packet(12, &GameClientPacket::Available(b"ws://b".to_vec()));

    let (server, request) = broker.start_game(77, roster(), vec![b"0002".to_vec()]).unwrap();
    assert_eq!(server, 11);
    assert_eq!(request.lobby_id, 77);
    assert_eq!(request.players, roster());
    assert_eq!(request.courses, vec![b"0002".to_vec()]);
}

#[test]
fn one_available_server_serves_only_one_start_game() {
    let mut broker = Broker::new();
    broker.register_server(10);
    broker.handle_game_packet(10, &GameClientPacket::Available(b"ws://a".to_vec()));

    let first = broker.start_game(77, roster(), vec![b"0002".to_vec()]);
    assert!(first.is_ok());

    // the assigned process reports busy, as it will right after assignment;
    // a second request for another lobby is refused, not silently dropped
    broker.handle_game_packet(10, &GameClientPacket::Busy);
    let second = broker.start_game(78, roster(), vec![b"0002".to_vec()]);
    assert_eq!(second.unwrap_err(), BrokerError::NoCapacity);
}

#[test]
fn game_created_announces_the_assigned_address() {
    let mut broker = Broker::new();
    broker.register_server(10);
    broker.handle_game_packet(10, &GameClientPacket::Available(b"ws://a".to_vec()));
    broker.start_game(77, roster(), vec![b"0002".to_vec()]).unwrap();

    let (reply, event) = broker.handle_game_packet(10, &GameClientPacket::GameCreated(77));
    assert_eq!(reply, None);
    assert_eq!(
        event,
        Some(GameStarted {
            lobby_id: 77,
            server: b"ws://a".to_vec()
        })
    );
}

#[test]
fn game_created_without_a_record_is_ignored() {
    let mut broker = Broker::new();
    broker.register_server(10);
    let (_, event) = broker.handle_game_packet(10, &GameClientPacket::GameCreated(77));
    assert_eq!(event, None);
}

#[test]
fn a_busy_server_disconnecting_fails_its_lobby_assignment() {
    let mut broker = Broker::new();
    broker.register_server(10);
    broker.handle_game_packet(10, &GameClientPacket::Available(b"ws://a".to_vec()));
    broker.start_game(77, roster(), vec![b"0002".to_vec()]).unwrap();

    let failed = broker.deregister_server(10);
    assert_eq!(failed, Some(77));
    assert_eq!(broker.available_count(), 0);
}

#[test]
fn available_count_follows_announcements() {
    let mut broker = Broker::new();
    broker.register_server(10);
    assert_eq!(broker.available_count(), 0);
    broker.handle_game_packet(10, &GameClientPacket::Available(b"ws://a".to_vec()));
    assert_eq!(broker.available_count(), 1);
    broker.handle_game_packet(10, &GameClientPacket::Busy);
    assert_eq!(broker.available_count(), 0);
}
