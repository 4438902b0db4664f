use mgba_siolink::{Peripheral, MAX_CABLE_PLAYERS, MAX_PLAYERS, MAX_WIRELESS_PLAYERS};

#[test]
fn peripherals_cap_their_players() {
    assert_eq!(Peripheral::Cable.max_players(), 4);
    assert_eq!(Peripheral::Wireless.max_players(), 63);
    assert_eq!(MAX_CABLE_PLAYERS, 4);
    assert_eq!(MAX_WIRELESS_PLAYERS, 63);
    assert_eq!(MAX_PLAYERS, 63);
}

#[test]
fn the_default_peripheral_is_the_cable() {
    assert_eq!(Peripheral::default(), Peripheral::Cable);
}
