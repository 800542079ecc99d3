use minigolf::effects::{effect_of_input, hole_magnet_in_band, Bumper, EffectCommand, BUMPER_HITS};
use minigolf::geom::{PlayableArea, Vec2i, Vec3i};
use minigolf::input::{PlayerInput, ValidPlayerInput};
use minigolf::lobby::PlayerId;

fn area() -> PlayableArea {
    PlayableArea {
        min: Vec3i { x: -100, y: 0, z: -100 },
        max: Vec3i { x: 100, y: 50, z: 100 },
    }
}

fn validated(player: PlayerId, input: PlayerInput) -> ValidPlayerInput {
    ValidPlayerInput { player, input }
}

#[test]
fn teleport_is_clamped_to_the_playable_area() {
    let alice = PlayerId::from_bits(1);
    let wild_point = Vec3i { x: 5_000, y: -3, z: 40 };
    let command = effect_of_input(
        &validated(alice, PlayerInput::Teleport(wild_point)),
        &area(),
        &vec![alice],
    );
    assert_eq!(
        command,
        Some(EffectCommand::Teleport {
            player: alice,
            position: Vec3i { x: 100, y: 0, z: 40 },
        })
    );
}

#[test]
fn teleport_inside_the_area_is_unchanged() {
    let alice = PlayerId::from_bits(1);
    let point = Vec3i { x: 10, y: 5, z: -20 };
    let command = effect_of_input(
        &validated(alice, PlayerInput::Teleport(point)),
        &area(),
        &vec![alice],
    );
    assert_eq!(
        command,
        Some(EffectCommand::Teleport {
            player: alice,
            position: point,
        })
    );
}

#[test]
fn sticky_ball_targets_every_other_player() {
    let alice = PlayerId::from_bits(1);
    let bob = PlayerId::from_bits(2);
    let carol = PlayerId::from_bits(3);
    let command = effect_of_input(
        &validated(bob, PlayerInput::StickyBall),
        &area(),
        &vec![alice, bob, carol],
    );
    assert_eq!(
        command,
        Some(EffectCommand::ApplyStickyBall {
            targets: vec![alice, carol],
        })
    );
}

#[test]
fn bumpers_spawn_bounded_with_a_hit_budget() {
    let alice = PlayerId::from_bits(1);
    let command = effect_of_input(
        &validated(alice, PlayerInput::Bumper(Vec3i { x: -500, y: 10, z: 0 })),
        &area(),
        &vec![alice],
    );
    assert_eq!(
        command,
        Some(EffectCommand::SpawnBumper {
            position: Vec3i { x: -100, y: 10, z: 0 },
            hits: BUMPER_HITS,
            black_hole: false,
        })
    );

    let command = effect_of_input(
        &validated(alice, PlayerInput::BlackHoleBumper(Vec3i { x: 0, y: 0, z: 0 })),
        &area(),
        &vec![alice],
    );
    assert_eq!(
        command,
        Some(EffectCommand::SpawnBumper {
            position: Vec3i { x: 0, y: 0, z: 0 },
            hits: BUMPER_HITS,
            black_hole: true,
        })
    );
}

#[test]
fn environment_effects_map_one_to_one() {
    let alice = PlayerId::from_bits(1);
    let players = vec![alice];
    assert_eq!(
        effect_of_input(
            &validated(alice, PlayerInput::Wind(Vec2i { x: 1, y: -1 })),
            &area(),
            &players
        ),
        Some(EffectCommand::SpawnWind {
            direction: Vec2i { x: 1, y: -1 }
        })
    );
    assert_eq!(
        effect_of_input(&validated(alice, PlayerInput::StickyWalls), &area(), &players),
        Some(EffectCommand::MarkStickyWalls)
    );
    assert_eq!(
        effect_of_input(&validated(alice, PlayerInput::IceRink), &area(), &players),
        Some(EffectCommand::SetIceRink)
    );
    assert_eq!(
        effect_of_input(&validated(alice, PlayerInput::HoleMagnet), &area(), &players),
        Some(EffectCommand::AttachHoleMagnet { player: alice })
    );
    assert_eq!(
        effect_of_input(&validated(alice, PlayerInput::ChipShot), &area(), &players),
        Some(EffectCommand::MarkChipShot { player: alice })
    );
}

#[test]
fn unimplemented_kinds_have_no_effect() {
    let alice = PlayerId::from_bits(1);
    let players = vec![alice];
    assert_eq!(
        effect_of_input(&validated(alice, PlayerInput::Tornado(Vec3i { x: 0, y: 0, z: 0 })), &area(), &players),
        None
    );
    assert_eq!(
        effect_of_input(&validated(alice, PlayerInput::TinyBall), &area(), &players),
        None
    );
    assert_eq!(
        effect_of_input(
            &validated(alice, PlayerInput::Move(Vec2i { x: 1, y: 1 })),
            &area(),
            &players
        ),
        None
    );
}

#[test]
fn bumper_hit_budget_counts_down_to_despawn() {
    let mut bumper = Bumper::with_hits(2);
    assert!(!bumper.should_despawn());
    bumper.register_hit();
    assert!(!bumper.should_despawn());
    bumper.register_hit();
    assert!(bumper.should_despawn());
    bumper.register_hit();
    assert!(bumper.should_despawn());

    let mut fixture = Bumper::permanent();
    fixture.register_hit();
    assert!(!fixture.should_despawn());
}

#[test]
fn hole_magnet_band_is_strict() {
    // with a band of 5..20 units, the pull applies strictly inside
    assert!(!hole_magnet_in_band(25, 5, 20)); // on the inner edge
    assert!(hole_magnet_in_band(26, 5, 20));
    assert!(hole_magnet_in_band(399, 5, 20));
    assert!(!hole_magnet_in_band(400, 5, 20)); // on the outer edge
    assert!(!hole_magnet_in_band(4, 5, 20));
}
