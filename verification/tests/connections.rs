use icecream_robots::connections::{
    FromLeader, FromRing, FromRobot, FromScreen, LeaderToRobotConnection,
    LeaderToScreenConnection, RobotToLeaderConnection, RobotToRobotConnection,
};
use icecream_robots::flavor_id::FlavorID;
use icecream_robots::flavor_token::FlavorToken;
use icecream_robots::leader_backup::LeaderBackup;
use icecream_robots::messages::{
    AddOrderToBeSent, ChangeScreen, ConnectToNewScreen, CreateNewOrder, GetAbortedOrder,
    GetCompletedOrder, GetNewOrder, GetTokenBackup, NewLeaderElected, OrderAborted,
    OrderPrepared, ReceiveNewElection, RobotCommand, RobotDied, ScreenDied, SendLeaderBackup,
    SendNewOrder, StartElection, StoreBackup, TransferToken,
};
use icecream_robots::order::Order;
use icecream_robots::robot_messages::{abort_reason, RobotMessage};
use icecream_robots::screen_messages::ScreenMessage;
use icecream_robots::token_backup::TokenBackup;
use std::collections::{HashMap, VecDeque};

fn empty_backup() -> LeaderBackup {
    LeaderBackup::new(vec![1], vec![0], VecDeque::new(), vec![], vec![])
}

#[test]
fn leader_to_robot() {
    let connection = LeaderToRobotConnection::new(3);
    assert_eq!(
        connection.send_new_order(SendNewOrder {
            new_order: Order::new_cucurucho(FlavorID::Mint),
            order_id: "a".to_string()
        }),
        RobotCommand::NewOrder {
            order: Order::new_cucurucho(FlavorID::Mint),
            order_id: "a".to_string()
        }
    );
    assert_eq!(
        connection.send_leader_backup(SendLeaderBackup { backup: empty_backup() }),
        RobotCommand::ReceiveLeaderBackup { backup: empty_backup() }
    );
    assert_eq!(
        connection.handle(RobotCommand::OrderComplete { result: true, order_id: "a".to_string() }),
        Some(FromRobot::GetCompletedOrder(GetCompletedOrder {
            order_result: true,
            order_id: "a".to_string(),
            robot_id: 3
        }))
    );
    assert_eq!(
        connection.handle(RobotCommand::OrderNotFinished {
            result: false,
            order_id: "b".to_string(),
            flavor: FlavorID::Lemon
        }),
        Some(FromRobot::GetAbortedOrder(GetAbortedOrder {
            order_result: false,
            order_id: "b".to_string(),
            robot_id: 3,
            flavor: FlavorID::Lemon
        }))
    );
    assert_eq!(connection.handle(RobotCommand::NewRobot), None);
    assert_eq!(connection.handle(RobotCommand::NewLeader { leader: 1 }), None);
    assert_eq!(connection.finished(), RobotDied { robot_id: 3 });
}

#[test]
fn leader_to_screen() {
    let connection = LeaderToScreenConnection::new(2);
    assert_eq!(
        connection.handle(ScreenMessage::PrepareNewOrder {
            screen_id: 2,
            order_id: "a".to_string(),
            order: Order::new_cucurucho(FlavorID::Mint)
        }),
        Some(FromScreen::CreateNewOrder(CreateNewOrder {
            new_order: Order::new_cucurucho(FlavorID::Mint),
            id: "a".to_string(),
            screen_id: 2
        }))
    );
    assert_eq!(
        connection.handle(ScreenMessage::RequestRobotLeaderConnection { screen_id: 4 }),
        Some(FromScreen::ConnectToNewScreen(ConnectToNewScreen { screen_id: 4 }))
    );
    assert_eq!(
        connection.handle(ScreenMessage::GiveMeThisScreenOrders { my_id: 4, death_id: 3 }),
        Some(FromScreen::ChangeScreen(ChangeScreen { original_screen_id: 3, new_screen_id: 4 }))
    );
    assert_eq!(
        connection.handle(ScreenMessage::TakeMyBackup {
            orders_to_process: vec![],
            orders_processing: HashMap::new(),
            orders_pending_to_send: vec![],
            id_backup: 1
        }),
        None
    );
    assert_eq!(connection.finished(), ScreenDied { screen_id: 2 });
    let prepared = OrderPrepared { order_result: true, id: "a".to_string() };
    assert_eq!(
        connection.order_prepared(&prepared),
        RobotMessage::OrderPrepared { order_id: "a".to_string() }
    );
    assert_eq!(
        connection.prepared_not_sent(prepared),
        AddOrderToBeSent { order_result: true, id: "a".to_string(), screen_id: 2, flavor: None }
    );
    let aborted = OrderAborted { order_result: false, id: "b".to_string(), flavor: FlavorID::Lemon };
    assert_eq!(
        connection.order_aborted(&aborted),
        RobotMessage::OrderAborted {
            order_id: "b".to_string(),
            error: "Order Aborted because of insuficient amount of: Lemon".to_string()
        }
    );
    assert_eq!(
        connection.aborted_not_sent(aborted),
        AddOrderToBeSent {
            order_result: false,
            id: "b".to_string(),
            screen_id: 2,
            flavor: Some(FlavorID::Lemon)
        }
    );
}

#[test]
fn words_for_a_screen() {
    assert_eq!(
        abort_reason(FlavorID::DulceDeLeche),
        "Order Aborted because of insuficient amount of: DulceDeLeche"
    );
}

#[test]
fn robot_to_leader() {
    let connection = RobotToLeaderConnection::new();
    assert_eq!(
        connection.order_prepared(&OrderPrepared { order_result: true, id: "a".to_string() }),
        RobotCommand::OrderComplete { result: true, order_id: "a".to_string() }
    );
    assert_eq!(
        connection.order_aborted(&OrderAborted {
            order_result: false,
            id: "a".to_string(),
            flavor: FlavorID::Mint
        }),
        RobotCommand::OrderNotFinished {
            result: false,
            order_id: "a".to_string(),
            flavor: FlavorID::Mint
        }
    );
    assert_eq!(
        connection.handle(RobotCommand::NewOrder {
            order: Order::new_cucurucho(FlavorID::Mint),
            order_id: "a".to_string()
        }),
        Some(FromLeader::GetNewOrder(GetNewOrder {
            new_order: Order::new_cucurucho(FlavorID::Mint),
            id: "a".to_string()
        }))
    );
    assert_eq!(
        connection.handle(RobotCommand::ReceiveLeaderBackup { backup: empty_backup() }),
        Some(FromLeader::StoreBackup(StoreBackup { backup: empty_backup() }))
    );
    assert_eq!(connection.handle(RobotCommand::GetLeaderId), None);
    assert_eq!(connection.finished(), StartElection());
}

#[test]
fn robot_to_robot() {
    let connection = RobotToRobotConnection::new();
    let token = FlavorToken::new(FlavorID::Mint, 10);
    assert_eq!(
        connection.handle(RobotCommand::TokenMessage { token }),
        Some(FromRing::TransferToken(TransferToken { flavor_token: token }))
    );
    let token_backup = TokenBackup::new(FlavorID::Mint, 10, 1);
    assert_eq!(
        connection.handle(RobotCommand::TokenBackupMsg { token_backup }),
        Some(FromRing::GetTokenBackup(GetTokenBackup { token_backup }))
    );
    assert_eq!(
        connection.handle(RobotCommand::NewLeader { leader: 2 }),
        Some(FromRing::NewLeaderElected(NewLeaderElected { leader_id: 2 }))
    );
    assert_eq!(
        connection.handle(RobotCommand::NewElection { candidates: vec![(1, true)] }),
        Some(FromRing::ReceiveNewElection(ReceiveNewElection { candidates: vec![(1, true)] }))
    );
    assert_eq!(connection.handle(RobotCommand::NewPreviousRobot), None);
    assert_eq!(connection.handle(RobotCommand::NewNextRobot { next_robot: 1 }), None);
}
