use icecream_robots::flavor_id::FlavorID;
use icecream_robots::flavor_token::FlavorToken;
use icecream_robots::messages::{
    AbortCurrentOrder, GetNewOrder, GetTokenBack, GetTokenBackup, OrderAborted, OrderPrepared,
    ScoopFlavor, SendTokenBackup, TimerWentOff, TransferToken,
};
use icecream_robots::order::Order;
use icecream_robots::order_manager::{OrderManager, OrderManagerOutput};
use icecream_robots::token_backup::TokenBackup;

fn new_order(manager: &mut OrderManager, order: Order, id: &str) -> Vec<OrderManagerOutput> {
    manager.get_new_order(GetNewOrder { new_order: order, id: id.to_string() })
}

fn token(flavor: FlavorID, amount: u32) -> TransferToken {
    TransferToken { flavor_token: FlavorToken::new(flavor, amount) }
}

fn pass_on(flavor: FlavorID, amount: u32) -> OrderManagerOutput {
    OrderManagerOutput::GetTokenBack(GetTokenBack { flavor_token: FlavorToken::new(flavor, amount) })
}

#[test]
fn order_arrived_properly() {
    let mut o_manager = OrderManager::new(0);
    new_order(&mut o_manager, Order::new_cucurucho(FlavorID::Chocolate), "1");
    let flavors_needed = o_manager.flavors_needed();
    assert_eq!(flavors_needed, vec![(FlavorID::Chocolate, 250)]);
}

#[test]
fn order_arrived_and_token_arrived() {
    let mut o_manager = OrderManager::new(0);
    new_order(&mut o_manager, Order::new_cucurucho(FlavorID::Chocolate), "1");
    let flavors_needed = o_manager.flavors_needed();
    assert_eq!(flavors_needed, vec![(FlavorID::Chocolate, 250)]);
    o_manager.transfer_token(token(FlavorID::Chocolate, 250));
    let flavors_needed = o_manager.flavors_needed();
    assert_eq!(flavors_needed, vec![]);
}

#[test]
fn order_arrived_and_incorrect_token_arrived_and_token_returned() {
    let mut o_manager = OrderManager::new(0);
    new_order(&mut o_manager, Order::new_cucurucho(FlavorID::Chocolate), "1");
    let flavors_needed = o_manager.flavors_needed();
    assert_eq!(flavors_needed, vec![(FlavorID::Chocolate, 250)]);
    o_manager.get_token_back(GetTokenBack { flavor_token: FlavorToken::new(FlavorID::Mint, 250) });
    let flavors_needed = o_manager.flavors_needed();
    assert_eq!(flavors_needed, vec![(FlavorID::Chocolate, 250)]);
}

#[test]
fn a_new_order_starts_the_timer() {
    let mut manager = OrderManager::new(0);
    let out = new_order(&mut manager, Order::new_cucurucho(FlavorID::Mint), "a");
    assert_eq!(out, vec![OrderManagerOutput::StartTimer]);
    assert!(!manager.is_scooping());
}

#[test]
fn a_needed_token_goes_to_the_preparer() {
    let mut manager = OrderManager::new(0);
    new_order(&mut manager, Order::new_cucurucho(FlavorID::Mint), "a");
    let out = manager.transfer_token(token(FlavorID::Mint, 251));
    assert_eq!(
        out,
        vec![
            OrderManagerOutput::ResetTimer,
            OrderManagerOutput::ScoopFlavor(ScoopFlavor {
                flavor_token: FlavorToken::new(FlavorID::Mint, 251),
                amount: 250
            })
        ]
    );
    assert!(manager.is_scooping());
    assert_eq!(manager.flavors_needed(), vec![]);
    assert_eq!(manager.last_seen(FlavorID::Mint), Some(251));
}

#[test]
fn a_token_that_is_not_needed_is_passed_on_unchanged() {
    let mut manager = OrderManager::new(0);
    new_order(&mut manager, Order::new_cucurucho(FlavorID::Mint), "a");
    let out = manager.transfer_token(token(FlavorID::Lemon, 4000));
    assert_eq!(out, vec![pass_on(FlavorID::Lemon, 4000)]);
    assert_eq!(manager.flavors_needed(), vec![(FlavorID::Mint, 250)]);
    assert_eq!(manager.last_seen(FlavorID::Lemon), Some(4000));
    assert_eq!(manager.last_seen(FlavorID::Mint), None);
}

#[test]
fn a_token_is_passed_on_while_another_is_in_use() {
    let mut manager = OrderManager::new(0);
    let order = Order::new_cuarto(vec![FlavorID::Mint, FlavorID::Lemon]).unwrap();
    new_order(&mut manager, order, "a");
    manager.transfer_token(token(FlavorID::Mint, 4000));
    let out = manager.transfer_token(token(FlavorID::Lemon, 4000));
    assert_eq!(out, vec![pass_on(FlavorID::Lemon, 4000)]);
    assert_eq!(manager.flavors_needed(), vec![(FlavorID::Lemon, 125)]);
}

#[test]
fn an_order_is_given_up_when_the_token_holds_no_more_than_needed() {
    let mut manager = OrderManager::new(0);
    new_order(&mut manager, Order::new_cucurucho(FlavorID::Lemon), "x7");
    let out = manager.transfer_token(token(FlavorID::Lemon, 100));
    assert_eq!(
        out,
        vec![
            OrderManagerOutput::StopTimer,
            OrderManagerOutput::OrderAborted(OrderAborted {
                order_result: false,
                id: "x7".to_string(),
                flavor: FlavorID::Lemon
            }),
            pass_on(FlavorID::Lemon, 100),
        ]
    );
    assert_eq!(manager.flavors_needed(), vec![]);
    assert!(!manager.is_scooping());
}

#[test]
fn an_order_that_would_empty_the_token_is_given_up() {
    let mut manager = OrderManager::new(0);
    new_order(&mut manager, Order::new_cucurucho(FlavorID::Lemon), "x");
    let out = manager.transfer_token(token(FlavorID::Lemon, 250));
    assert_eq!(out.len(), 3);
    assert!(matches!(out[1], OrderManagerOutput::OrderAborted(_)));
}

#[test]
fn the_order_is_ready_when_the_last_token_comes_back() {
    let mut manager = OrderManager::new(0);
    let order = Order::new_cuarto(vec![FlavorID::Mint, FlavorID::Lemon]).unwrap();
    new_order(&mut manager, order, "o1");
    manager.transfer_token(token(FlavorID::Mint, 4000));
    let out = manager.get_token_back(GetTokenBack {
        flavor_token: FlavorToken::new(FlavorID::Mint, 3875),
    });
    assert_eq!(out, vec![pass_on(FlavorID::Mint, 3875)]);
    assert_eq!(manager.last_seen(FlavorID::Mint), Some(3875));
    manager.transfer_token(token(FlavorID::Lemon, 4000));
    let out = manager.get_token_back(GetTokenBack {
        flavor_token: FlavorToken::new(FlavorID::Lemon, 3875),
    });
    assert_eq!(
        out,
        vec![
            pass_on(FlavorID::Lemon, 3875),
            OrderManagerOutput::StopTimer,
            OrderManagerOutput::OrderPrepared(OrderPrepared {
                order_result: true,
                id: "o1".to_string()
            }),
        ]
    );
    assert!(!manager.is_scooping());
}

#[test]
fn a_robot_told_to_give_up_reports_nothing_ready() {
    let mut manager = OrderManager::new(0);
    new_order(&mut manager, Order::new_cucurucho(FlavorID::Mint), "a");
    manager.transfer_token(token(FlavorID::Mint, 4000));
    assert_eq!(
        manager.abort_current_order(AbortCurrentOrder {}),
        vec![OrderManagerOutput::StopTimer]
    );
    assert_eq!(manager.flavors_needed(), vec![]);
    assert!(!manager.is_scooping());
    let out = manager.get_token_back(GetTokenBack {
        flavor_token: FlavorToken::new(FlavorID::Mint, 3750),
    });
    assert_eq!(out, vec![pass_on(FlavorID::Mint, 3750)]);
}

#[test]
fn a_probe_is_lowered_to_what_the_robot_has_seen() {
    let mut manager = OrderManager::new(1);
    manager.transfer_token(token(FlavorID::Mint, 3000));
    let out = manager.get_token_backup(GetTokenBackup {
        token_backup: TokenBackup::new(FlavorID::Mint, 3500, 0),
    });
    assert_eq!(
        out,
        vec![OrderManagerOutput::SendTokenBackup(SendTokenBackup {
            token_backup: TokenBackup::new(FlavorID::Mint, 3000, 0)
        })]
    );
    let out = manager.get_token_backup(GetTokenBackup {
        token_backup: TokenBackup::new(FlavorID::Mint, 2000, 0),
    });
    assert_eq!(
        out,
        vec![OrderManagerOutput::SendTokenBackup(SendTokenBackup {
            token_backup: TokenBackup::new(FlavorID::Mint, 2000, 0)
        })]
    );
    let out = manager.get_token_backup(GetTokenBackup {
        token_backup: TokenBackup::new(FlavorID::Lemon, 2000, 0),
    });
    assert_eq!(
        out,
        vec![OrderManagerOutput::SendTokenBackup(SendTokenBackup {
            token_backup: TokenBackup::new(FlavorID::Lemon, 2000, 0)
        })]
    );
}

#[test]
fn the_timer_starts_a_probe_for_each_flavor_still_needed() {
    let mut manager = OrderManager::new(2);
    let order =
        Order::new_medio(vec![FlavorID::Chocolate, FlavorID::Vanilla, FlavorID::Mint]).unwrap();
    new_order(&mut manager, order, "a");
    manager.transfer_token(token(FlavorID::Lemon, 3900));
    manager.transfer_token(token(FlavorID::Mint, 3000));
    manager.get_token_back(GetTokenBack { flavor_token: FlavorToken::new(FlavorID::Mint, 2833) });
    let out = manager.timer_went_off(TimerWentOff());
    assert_eq!(
        out,
        vec![
            OrderManagerOutput::SendTokenBackup(SendTokenBackup {
                token_backup: TokenBackup::new(FlavorID::Vanilla, 4000, 2)
            }),
            OrderManagerOutput::SendTokenBackup(SendTokenBackup {
                token_backup: TokenBackup::new(FlavorID::Chocolate, 4000, 2)
            }),
            OrderManagerOutput::StartTimer,
        ]
    );
}

#[test]
fn the_timer_of_an_idle_robot_only_starts_again() {
    let mut manager = OrderManager::new(2);
    assert_eq!(manager.timer_went_off(TimerWentOff()), vec![OrderManagerOutput::StartTimer]);
}
