use minigolf::auth::{AuthOutcome, GameRoster};
use minigolf::broker::Broker;
use minigolf::directory::LobbyDirectory;
use minigolf::geom::Vec3i;
use minigolf::lobby::PlayerId;
use minigolf::player::{Player, PlayerCredentials, PlayerScore};
use minigolf::progression::{
    CourseAdvance, CoursePhase, DisconnectOutcome, GameConfig, GamePhase, Hole, HoleAdvance,
    HolePhase, Progression,
};
use minigolf::protocol::GameClientPacket;

fn one_hole() -> Hole {
    Hole {
        start_position: Vec3i { x: 0, y: 10, z: 0 },
    }
}

fn started_progression(players: Vec<PlayerId>) -> Progression {
    let mut progression = Progression::new(GameConfig::new(vec![b"0002".to_vec()]));
    progression.begin_playing(players);
    progression.load_course(vec![one_hole()]);
    progression
}

#[test]
fn phases_start_waiting() {
    let progression = Progression::new(GameConfig::new(vec![b"0002".to_vec()]));
    assert_eq!(progression.game_phase(), GamePhase::Waiting);
    assert_eq!(progression.course_phase(), CoursePhase::Waiting);
    assert_eq!(progression.hole_phase(), HolePhase::Playing);
    assert_eq!(progression.current_start_position(), None);
}

#[test]
fn loading_a_course_activates_its_first_hole() {
    let alice = PlayerId::from_bits(1);
    let progression = started_progression(vec![alice]);
    assert_eq!(progression.game_phase(), GamePhase::Playing);
    assert_eq!(progression.course_phase(), CoursePhase::Playing);
    assert_eq!(progression.hole_phase(), HolePhase::Playing);
    assert_eq!(
        progression.current_start_position(),
        Some(Vec3i { x: 0, y: 10, z: 0 })
    );
}

#[test]
fn hole_completes_only_when_every_active_player_finished() {
    let alice = PlayerId::from_bits(1);
    let bob = PlayerId::from_bits(2);
    let mut progression = started_progression(vec![alice, bob]);

    assert!(progression.record_hole_completion(alice));
    assert!(!progression.check_hole_completion());
    assert_eq!(progression.hole_phase(), HolePhase::Playing);

    assert!(progression.record_hole_completion(bob));
    assert!(progression.check_hole_completion());
    assert_eq!(progression.hole_phase(), HolePhase::Completed);
}

#[test]
fn completion_is_recorded_once_per_player_per_hole() {
    let alice = PlayerId::from_bits(1);
    let bob = PlayerId::from_bits(2);
    let mut progression = started_progression(vec![alice, bob]);
    assert!(progression.record_hole_completion(alice));
    assert!(!progression.record_hole_completion(alice));
    assert!(!progression.check_hole_completion());
}

#[test]
fn only_active_players_can_complete() {
    let alice = PlayerId::from_bits(1);
    let stranger = PlayerId::from_bits(9);
    let mut progression = started_progression(vec![alice]);
    assert!(!progression.record_hole_completion(stranger));
}

#[test]
fn a_disconnect_that_matches_the_finishers_completes_the_hole() {
    let alice = PlayerId::from_bits(1);
    let bob = PlayerId::from_bits(2);
    let mut progression = started_progression(vec![alice, bob]);

    assert!(progression.record_hole_completion(alice));
    assert!(!progression.check_hole_completion());

    // bob disconnects without finishing: the active set shrinks down to
    // the finishers, and the set-equality check completes the hole
    assert_eq!(progression.player_disconnected(bob), DisconnectOutcome::Continue);
    assert!(progression.check_hole_completion());
    assert_eq!(progression.hole_phase(), HolePhase::Completed);
}

#[test]
fn losing_every_player_abandons_the_game() {
    let alice = PlayerId::from_bits(1);
    let mut progression = started_progression(vec![alice]);
    assert_eq!(
        progression.player_disconnected(alice),
        DisconnectOutcome::GameAbandoned
    );
    assert_eq!(progression.active_count(), 0);
}

#[test]
fn settling_in_the_sensor_finishes_the_hole_and_freezes_the_player() {
    let alice = PlayerId::from_bits(1);
    let mut progression = started_progression(vec![alice]);
    let mut player = Player {
        id: alice,
        can_move: true,
    };
    let mut last_position = Vec3i { x: 0, y: 10, z: 0 };

    // a stop on open ground returns the turn and moves the respawn anchor
    let stopped_at = Vec3i { x: 4, y: 0, z: 6 };
    assert!(!progression.on_ball_settled(&mut player, &mut last_position, stopped_at, false));
    assert!(player.can_move);
    assert_eq!(last_position, stopped_at);

    // a stop inside the hole sensor records the completion instead
    let in_hole = Vec3i { x: 9, y: -1, z: 9 };
    assert!(progression.on_ball_settled(&mut player, &mut last_position, in_hole, true));
    assert!(!player.can_move);
    assert_eq!(last_position, stopped_at);
    assert!(progression.check_hole_completion());
}

#[test]
fn score_counts_strokes() {
    let mut score = PlayerScore::default();
    score.increment();
    score.increment();
    assert_eq!(score.score, 2);
    let mut maxed = PlayerScore { score: u32::MAX };
    maxed.increment();
    assert_eq!(maxed.score, u32::MAX);
}

#[test]
fn full_game_runs_to_completion() {
    // lobby side: a lobby with two players
    let mut directory = LobbyDirectory::new();
    let alice = PlayerId::from_bits(0xA1);
    let bob = PlayerId::from_bits(0xB1);
    let alice_credentials = PlayerCredentials { secret: 0xAA };
    let bob_credentials = PlayerCredentials { secret: 0xBB };
    let lobby = directory.create_lobby(alice);
    directory.join_lobby(lobby, bob).unwrap();

    // broker side: one game process is available; the owner starts the game
    let mut broker = Broker::new();
    broker.register_server(10);
    broker.handle_game_packet(10, &GameClientPacket::Available(b"ws://game".to_vec()));
    let members = directory.members(lobby).unwrap();
    let roster: Vec<_> = members
        .iter()
        .map(|id| {
            if *id == alice {
                (*id, alice_credentials)
            } else {
                (*id, bob_credentials)
            }
        })
        .collect();
    let (server, request) = broker
        .start_game(lobby, roster, vec![b"0002".to_vec()])
        .unwrap();
    assert_eq!(server, 10);
    assert_eq!(request.lobby_id, lobby);
    assert_eq!(request.players.len(), 2);
    assert_eq!(request.courses, vec![b"0002".to_vec()]);

    // game-server side: both players authenticate against the handed roster
    let mut game_roster = GameRoster::from_request(&request, 0);
    let mut progression = Progression::new(GameConfig::new(request.courses.clone()));
    assert_eq!(progression.game_phase(), GamePhase::Waiting);
    assert_eq!(
        game_roster.authenticate(500, alice, alice_credentials),
        AuthOutcome::Authenticated(0)
    );
    assert_eq!(
        game_roster.authenticate(501, bob, bob_credentials),
        AuthOutcome::Authenticated(1)
    );
    assert!(game_roster.all_players_joined());

    // everyone is in: the game plays, the course loads its only hole
    progression.begin_playing(vec![alice, bob]);
    assert_eq!(progression.game_phase(), GamePhase::Playing);
    progression.load_course(vec![one_hole()]);
    assert_eq!(progression.course_phase(), CoursePhase::Playing);

    // both hole-sensor contacts fire; the hole completes
    assert!(progression.record_hole_completion(alice));
    assert!(progression.record_hole_completion(bob));
    assert!(progression.check_hole_completion());
    assert_eq!(progression.hole_phase(), HolePhase::Completed);

    // no further hole: the course completes; no further course: the game
    assert_eq!(progression.advance_hole(), HoleAdvance::CourseCompleted);
    assert_eq!(progression.course_phase(), CoursePhase::Completed);
    assert_eq!(progression.advance_course(), CourseAdvance::GameCompleted);
    assert_eq!(progression.game_phase(), GamePhase::Completed);
}

#[test]
fn advancing_replaces_the_hole_and_then_the_course() {
    let alice = PlayerId::from_bits(1);
    let mut progression = Progression::new(GameConfig::new(vec![
        b"0002".to_vec(),
        b"0003".to_vec(),
    ]));
    progression.begin_playing(vec![alice]);
    let second_hole = Hole {
        start_position: Vec3i { x: 5, y: 0, z: 5 },
    };
    progression.load_course(vec![one_hole(), second_hole]);

    progression.record_hole_completion(alice);
    assert!(progression.check_hole_completion());
    assert_eq!(progression.advance_hole(), HoleAdvance::NextHole(second_hole));
    assert_eq!(progression.hole_phase(), HolePhase::Playing);
    assert_eq!(
        progression.current_start_position(),
        Some(Vec3i { x: 5, y: 0, z: 5 })
    );

    progression.record_hole_completion(alice);
    assert!(progression.check_hole_completion());
    assert_eq!(progression.advance_hole(), HoleAdvance::CourseCompleted);
    assert_eq!(progression.advance_course(), CourseAdvance::NextCourse);
    assert_eq!(progression.course_phase(), CoursePhase::Waiting);
    progression.load_course(vec![one_hole()]);
    assert_eq!(progression.course_phase(), CoursePhase::Playing);
}
