use minigolf::geom::{isqrt, Vec2i, Vec3i};
use minigolf::input::{
    clamp_length_max, impulse_of_move, validate_input, InputRejection, PlayerInput,
    MAX_MOVE_IMPULSE,
};
use minigolf::lobby::PlayerId;
use minigolf::player::Player;
use minigolf::power_ups::{PlayerPowerUps, PowerUpType};

fn immobile_player() -> Player {
    Player {
        id: PlayerId::from_bits(7),
        can_move: false,
    }
}

fn mobile_player() -> Player {
    Player {
        id: PlayerId::from_bits(7),
        can_move: true,
    }
}

#[test]
fn movement_while_immobile_is_dropped() {
    let player = immobile_player();
    let mut inventory = PlayerPowerUps::default();
    assert!(inventory.add_power_up(PowerUpType::Wind).is_ok());
    let before: Vec<PowerUpType> = inventory.get_power_ups().to_vec();
    let verdict = validate_input(
        &player,
        &mut inventory,
        PlayerInput::Move(Vec2i { x: 5, y: 5 }),
    );
    assert_eq!(verdict, Err(InputRejection::CannotMove));
    assert_eq!(inventory.get_power_ups(), before.as_slice());
}

#[test]
fn movement_while_mobile_passes() {
    let player = mobile_player();
    let mut inventory = PlayerPowerUps::default();
    let verdict = validate_input(
        &player,
        &mut inventory,
        PlayerInput::Move(Vec2i { x: 5, y: 5 }),
    );
    let validated = verdict.expect("a mobile player's move must pass");
    assert_eq!(validated.player, player.id);
    assert_eq!(validated.input, PlayerInput::Move(Vec2i { x: 5, y: 5 }));
}

#[test]
fn power_up_not_held_is_dropped() {
    let player = mobile_player();
    let mut inventory = PlayerPowerUps::default();
    let verdict = validate_input(&player, &mut inventory, PlayerInput::IceRink);
    assert_eq!(verdict, Err(InputRejection::NotHeld));
    assert_eq!(inventory.len(), 0);
}

#[test]
fn power_up_input_consumes_one_entry() {
    let player = mobile_player();
    let mut inventory = PlayerPowerUps::default();
    assert!(inventory.add_power_up(PowerUpType::IceRink).is_ok());
    assert!(inventory.add_power_up(PowerUpType::IceRink).is_ok());
    let verdict = validate_input(&player, &mut inventory, PlayerInput::IceRink);
    assert!(verdict.is_ok());
    assert_eq!(inventory.get_power_ups(), &[PowerUpType::IceRink]);
}

#[test]
fn power_up_inputs_even_while_immobile() {
    // only movement is gated by can_move
    let player = immobile_player();
    let mut inventory = PlayerPowerUps::default();
    assert!(inventory.add_power_up(PowerUpType::Wind).is_ok());
    let verdict = validate_input(
        &player,
        &mut inventory,
        PlayerInput::Wind(Vec2i { x: 1, y: 0 }),
    );
    assert!(verdict.is_ok());
    assert_eq!(inventory.len(), 0);
}

#[test]
fn movement_classification() {
    assert!(PlayerInput::Move(Vec2i { x: 0, y: 0 }).is_movement());
    assert!(!PlayerInput::Teleport(Vec3i { x: 0, y: 0, z: 0 }).is_movement());
    assert!(!PlayerInput::Wind(Vec2i { x: 1, y: 1 }).is_movement());
}

#[test]
fn power_up_kind_table() {
    assert_eq!(PlayerInput::Move(Vec2i { x: 1, y: 1 }).get_power_up_type(), None);
    assert_eq!(
        PlayerInput::Teleport(Vec3i { x: 0, y: 0, z: 0 }).get_power_up_type(),
        Some(PowerUpType::Teleport)
    );
    assert_eq!(PlayerInput::HoleMagnet.get_power_up_type(), Some(PowerUpType::HoleMagnet));
    assert_eq!(PlayerInput::ChipShot.get_power_up_type(), Some(PowerUpType::ChipShot));
    assert_eq!(PlayerInput::StickyBall.get_power_up_type(), Some(PowerUpType::StickyBall));
    assert_eq!(
        PlayerInput::Bumper(Vec3i { x: 0, y: 0, z: 0 }).get_power_up_type(),
        Some(PowerUpType::Bumper)
    );
    assert_eq!(
        PlayerInput::BlackHoleBumper(Vec3i { x: 0, y: 0, z: 0 }).get_power_up_type(),
        Some(PowerUpType::BlackHoleBumper)
    );
    assert_eq!(
        PlayerInput::Wind(Vec2i { x: 1, y: 0 }).get_power_up_type(),
        Some(PowerUpType::Wind)
    );
    assert_eq!(PlayerInput::StickyWalls.get_power_up_type(), Some(PowerUpType::StickyWalls));
    assert_eq!(PlayerInput::IceRink.get_power_up_type(), Some(PowerUpType::IceRink));
    assert_eq!(
        PlayerInput::StealPowerUp(PlayerId::from_bits(1)).get_power_up_type(),
        Some(PowerUpType::StealPowerUp)
    );
}

#[test]
fn isqrt_exact_values() {
    assert_eq!(isqrt(0), 0);
    assert_eq!(isqrt(1), 1);
    assert_eq!(isqrt(24), 4);
    assert_eq!(isqrt(25), 5);
    assert_eq!(isqrt(26), 5);
    assert_eq!(isqrt(u64::MAX), 0xFFFF_FFFF);
}

#[test]
fn short_vector_is_not_clamped() {
    let v = Vec2i { x: 3, y: 4 };
    assert_eq!(clamp_length_max(v, MAX_MOVE_IMPULSE), v);
}

#[test]
fn long_vector_is_clamped_within_budget() {
    let v = Vec2i { x: 30_000, y: 40_000 };
    let c = clamp_length_max(v, MAX_MOVE_IMPULSE);
    assert_eq!(c, Vec2i { x: 5_999, y: 7_999 });
    let len_sq = (c.x as i64) * (c.x as i64) + (c.y as i64) * (c.y as i64);
    assert!(len_sq <= (MAX_MOVE_IMPULSE as i64) * (MAX_MOVE_IMPULSE as i64));
}

#[test]
fn negative_vector_is_clamped_within_budget() {
    let v = Vec2i {
        x: -30_000,
        y: 40_000,
    };
    let c = clamp_length_max(v, MAX_MOVE_IMPULSE);
    assert_eq!(c, Vec2i { x: -5_999, y: 7_999 });
}

#[test]
fn plain_move_impulse_stays_in_plane() {
    let r = impulse_of_move(Vec2i { x: 3, y: 4 }, false);
    assert_eq!(r, Vec3i { x: 3, y: 0, z: 4 });
}

#[test]
fn chip_shot_gains_upward_component_equal_to_horizontal_magnitude() {
    let r = impulse_of_move(Vec2i { x: 3, y: 4 }, true);
    assert_eq!(r, Vec3i { x: 3, y: 5, z: 4 });
}
