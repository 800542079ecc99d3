use minigolf::power_ups::{
    implemented_power_ups, random_power_up, PlayerPowerUps, PowerUp, PowerUpType,
    PLAYER_POWER_UP_LIMIT,
};

#[test]
fn inventory_capacity_is_three() {
    assert_eq!(PLAYER_POWER_UP_LIMIT, 3);
    let mut inventory = PlayerPowerUps::default();
    assert_eq!(inventory.len(), 0);
    assert!(inventory.add_power_up(PowerUpType::Wind).is_ok());
    assert!(inventory.add_power_up(PowerUpType::Teleport).is_ok());
    assert!(inventory.add_power_up(PowerUpType::IceRink).is_ok());
    assert_eq!(inventory.len(), 3);
    assert!(inventory.add_power_up(PowerUpType::ChipShot).is_err());
    assert_eq!(inventory.len(), 3);
    assert_eq!(
        inventory.get_power_ups(),
        &[PowerUpType::Wind, PowerUpType::Teleport, PowerUpType::IceRink]
    );
}

#[test]
fn using_absent_power_up_is_a_noop() {
    let mut inventory = PlayerPowerUps::default();
    assert!(inventory.add_power_up(PowerUpType::Wind).is_ok());
    let before: Vec<PowerUpType> = inventory.get_power_ups().to_vec();
    assert_eq!(inventory.use_power_up(PowerUpType::Teleport), None);
    assert_eq!(inventory.get_power_ups(), before.as_slice());
}

#[test]
fn using_a_power_up_removes_the_first_matching_entry() {
    let mut inventory = PlayerPowerUps::default();
    assert!(inventory.add_power_up(PowerUpType::Wind).is_ok());
    assert!(inventory.add_power_up(PowerUpType::Teleport).is_ok());
    assert!(inventory.add_power_up(PowerUpType::Wind).is_ok());
    assert_eq!(inventory.use_power_up(PowerUpType::Wind), Some(PowerUpType::Wind));
    assert_eq!(
        inventory.get_power_ups(),
        &[PowerUpType::Teleport, PowerUpType::Wind]
    );
}

#[test]
fn implemented_power_ups_table() {
    let kinds = implemented_power_ups();
    assert_eq!(
        kinds,
        vec![
            PowerUpType::Teleport,
            PowerUpType::HoleMagnet,
            PowerUpType::ChipShot,
            PowerUpType::StickyBall,
            PowerUpType::Bumper,
            PowerUpType::BlackHoleBumper,
            PowerUpType::Wind,
            PowerUpType::StickyWalls,
            PowerUpType::IceRink,
        ]
    );
}

#[test]
fn random_power_up_is_implemented() {
    let kinds = implemented_power_ups();
    for _ in 0..50 {
        let kind = random_power_up();
        assert!(kinds.contains(&kind));
    }
}

#[test]
fn power_up_pickup_from_kind() {
    let pickup = PowerUp::from(PowerUpType::HoleMagnet);
    assert_eq!(pickup.power_up, PowerUpType::HoleMagnet);
}
