use icecream_robots::config::{initial_stock, INITIAL_AMOUNT};
use icecream_robots::flavor_id::{FlavorID, FLAVOR_COUNT};
use icecream_robots::flavor_token::FlavorToken;
use icecream_robots::order_preparer::OrderPreparer;
use icecream_robots::messages::ScoopFlavor;
use icecream_robots::token_backup::TokenBackup;

const ALL: [FlavorID; 7] = [
    FlavorID::Chocolate,
    FlavorID::Vanilla,
    FlavorID::Strawberry,
    FlavorID::Mint,
    FlavorID::Pistachio,
    FlavorID::DulceDeLeche,
    FlavorID::Lemon,
];

#[test]
fn flavor_names_read_back() {
    for flavor in ALL {
        assert_eq!(FlavorID::from_str(&flavor.to_string()), Ok(flavor));
    }
    assert_eq!(FlavorID::from_str("Banana"), Err(()));
    assert_eq!(FlavorID::from_str(""), Err(()));
    assert_eq!(FlavorID::from_str("lemon"), Err(()));
    assert_eq!(FlavorID::Lemon.to_string(), "Lemon");
    assert_eq!(FlavorID::DulceDeLeche.to_string(), "DulceDeLeche");
}

#[test]
fn flavor_positions_read_back() {
    assert_eq!(FLAVOR_COUNT, 7);
    for (i, flavor) in ALL.iter().enumerate() {
        assert_eq!(flavor.index(), i);
        assert_eq!(FlavorID::from_index(i), Some(*flavor));
    }
    assert_eq!(FlavorID::from_index(7), None);
}

#[test]
fn opening_stock() {
    assert_eq!(INITIAL_AMOUNT, 4000);
    assert_eq!(initial_stock(FlavorID::Chocolate), 1200);
    assert_eq!(initial_stock(FlavorID::Lemon), 4000);
}

#[test]
fn token_text() {
    let token = FlavorToken::new(FlavorID::Chocolate, 1200);
    assert_eq!(token.serialize(), "Chocolate,1200,");
    assert_eq!(token.as_bytes(), b"Chocolate,1200,".to_vec());
    assert_eq!(FlavorToken::new(FlavorID::Mint, 0).serialize(), "Mint,0,");
    assert_eq!(
        FlavorToken::new(FlavorID::Mint, u32::MAX).serialize(),
        "Mint,4294967295,"
    );
}

#[test]
fn token_serves_only_less_than_it_holds() {
    let mut token = FlavorToken::new(FlavorID::Lemon, 250);
    assert!(token.can_serve(249));
    assert!(!token.can_serve(250));
    assert!(!token.can_serve(251));
    token.serve(100);
    assert_eq!(token.get_amnt(), 150);
    assert_eq!(token.get_id(), FlavorID::Lemon);
    token.serve(150);
    assert_eq!(token.get_amnt(), 0);
    assert!(!token.can_serve(0));
}

#[test]
fn scooping_takes_ten_milliseconds_a_gram() {
    let preparer = OrderPreparer::new();
    let back = preparer.scoop_flavor(ScoopFlavor {
        flavor_token: FlavorToken::new(FlavorID::Vanilla, 4000),
        amount: 250,
    });
    assert_eq!(back.token, FlavorToken::new(FlavorID::Vanilla, 3750));
    assert_eq!(back.delay_ms, 2500);
    assert_eq!(preparer.return_token(back).flavor_token.get_amnt(), 3750);
}

#[test]
fn probe_takes_the_lower_amount() {
    let mut probe = TokenBackup::new(FlavorID::Mint, 3000, 2);
    probe.change_amount_if_necessary(3500);
    assert_eq!(probe.get_amount(), 3000);
    probe.change_amount_if_necessary(2750);
    assert_eq!(probe.get_amount(), 2750);
    probe.change_amount_if_necessary(2750);
    assert_eq!(probe.get_amount(), 2750);
    assert_eq!(probe.get_flavor_id(), FlavorID::Mint);
    assert_eq!(probe.get_start_robot_id(), 2);
}

#[test]
fn probe_passes_are_idempotent_and_only_lower() {
    let seen = [3900u32, 3650, 4000, 3650, 3800];
    let mut probe = TokenBackup::new(FlavorID::Lemon, 4000, 0);
    let mut last = probe.get_amount();
    for amount in seen {
        probe.change_amount_if_necessary(amount);
        assert!(probe.get_amount() <= last);
        last = probe.get_amount();
    }
    assert_eq!(probe.get_amount(), 3650);
    let once = probe;
    for amount in seen {
        probe.change_amount_if_necessary(amount);
    }
    assert_eq!(probe, once);
}
