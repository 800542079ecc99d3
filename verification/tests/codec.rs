use minigolf::codec::{
    decode_game_client, decode_game_server, decode_user_client, decode_user_server,
    encode_game_client, encode_game_server, encode_user_client, encode_user_server,
};
use minigolf::lobby::{PlayerId, PlayerInLobby};
use minigolf::player::PlayerCredentials;
use minigolf::protocol::{
    CreateGameRequest, GameClientPacket, GameServerPacket, UserClientPacket, UserServerPacket,
};

#[test]
fn game_client_packets_round_trip() {
    let packets = vec![
        GameClientPacket::Hello,
        GameClientPacket::Available(b"ws://localhost:25566".to_vec()),
        GameClientPacket::Available(Vec::new()),
        GameClientPacket::Busy,
        GameClientPacket::GameCreated(77),
    ];
    for packet in packets {
        let bytes = encode_game_client(&packet);
        assert_eq!(decode_game_client(bytes.as_slice()), Some(packet));
    }
}

#[test]
fn game_created_has_a_fixed_encoding() {
    let bytes = encode_game_client(&GameClientPacket::GameCreated(1));
    assert_eq!(bytes, vec![3, 1, 0, 0, 0, 0, 0, 0, 0]);
}

#[test]
fn game_server_packets_round_trip() {
    let request = CreateGameRequest {
        lobby_id: 0xDEAD_BEEF,
        players: vec![
            (PlayerId::from_bits(0xA1), PlayerCredentials { secret: 0xAA }),
            (
                PlayerId::from_bits(u128::MAX),
                PlayerCredentials { secret: 0x1234_5678_9ABC_DEF0 },
            ),
        ],
        courses: vec![b"0002".to_vec(), b"0003".to_vec(), Vec::new()],
    };
    let packets = vec![
        GameServerPacket::Hello,
        GameServerPacket::CreateGame(request),
    ];
    for packet in packets {
        let bytes = encode_game_server(&packet);
        assert_eq!(decode_game_server(bytes.as_slice()), Some(packet));
    }
}

#[test]
fn user_client_packets_round_trip() {
    let packets = vec![
        UserClientPacket::Hello,
        UserClientPacket::CreateLobby,
        UserClientPacket::ListLobbies,
        UserClientPacket::JoinLobby(u64::MAX),
        UserClientPacket::LeaveLobby,
        UserClientPacket::StartGame,
    ];
    for packet in packets {
        let bytes = encode_user_client(&packet);
        assert_eq!(decode_user_client(bytes.as_slice()), Some(packet));
    }
}

#[test]
fn user_server_packets_round_trip() {
    let packets = vec![
        UserServerPacket::Hello(PlayerId::from_bits(7), PlayerCredentials { secret: 9 }),
        UserServerPacket::LobbyCreated(42),
        UserServerPacket::AvailableLobbies(vec![1, 2, 3]),
        UserServerPacket::AvailableLobbies(Vec::new()),
        UserServerPacket::LobbyJoined(42, vec![PlayerId::from_bits(1), PlayerId::from_bits(2)]),
        UserServerPacket::PlayerJoined(PlayerInLobby {
            lobby_id: 42,
            player_id: PlayerId::from_bits(1),
        }),
        UserServerPacket::PlayerLeft(PlayerInLobby {
            lobby_id: 42,
            player_id: PlayerId::from_bits(1),
        }),
        UserServerPacket::GameStarted(b"ws://game:25566".to_vec()),
    ];
    for packet in packets {
        let bytes = encode_user_server(&packet);
        assert_eq!(decode_user_server(bytes.as_slice()), Some(packet));
    }
}

#[test]
fn malformed_messages_are_rejected() {
    // empty input
    assert_eq!(decode_game_client(&[]), None);
    assert_eq!(decode_game_server(&[]), None);
    assert_eq!(decode_user_client(&[]), None);
    assert_eq!(decode_user_server(&[]), None);

    // unknown tag
    assert_eq!(decode_game_client(&[200]), None);
    assert_eq!(decode_user_client(&[200]), None);

    // truncated payloads
    assert_eq!(decode_game_client(&[3, 1, 0]), None);
    assert_eq!(decode_user_client(&[3, 1]), None);
    assert_eq!(decode_user_server(&[0, 1, 2]), None);

    // a length prefix larger than the remaining bytes
    assert_eq!(decode_game_client(&[1, 200, 0, 0, 0, 65]), None);

    // trailing garbage after a complete packet
    assert_eq!(decode_game_client(&[0, 0]), None);
    assert_eq!(decode_user_client(&[5, 0]), None);
}
