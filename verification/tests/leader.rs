use icecream_robots::flavor_id::FlavorID;
use icecream_robots::flavor_token::FlavorToken;
use icecream_robots::leader_backup::LeaderBackup;
use icecream_robots::messages::{
    AddNewRobot, AddNewScreen, AddOrderToBeSent, ChangeScreen, ConnectToNewScreen,
    ConnectToScreen, CreateNewOrder, GetAbortedOrder, GetCompletedOrder, OrderAborted,
    OrderPrepared, RobotDied, ScreenDied, SendLeaderBackup, SendNewOrder, StartTokens,
};
use icecream_robots::order::Order;
use icecream_robots::order_info::OrderInfo;
use icecream_robots::order_waiting::OrderWaiting;
use icecream_robots::robot_leader::{initial_tokens, LeaderOutput, RobotLeader};
use std::collections::VecDeque;

fn order(id: &str, screen_id: usize) -> CreateNewOrder {
    CreateNewOrder { new_order: Order::new_cucurucho(FlavorID::Mint), id: id.to_string(), screen_id }
}

fn info(id: &str, screen_id: usize) -> OrderInfo {
    OrderInfo {
        order: Order::new_cucurucho(FlavorID::Mint),
        order_id: id.to_string(),
        screen_id,
    }
}

fn told(leader: &RobotLeader) -> LeaderOutput {
    LeaderOutput::SendLeaderBackup {
        robots: leader.robots_connections(),
        msg: SendLeaderBackup { backup: leader.backup() },
    }
}

fn leader_with(robots: &[usize], screens: &[usize]) -> RobotLeader {
    let mut leader = RobotLeader::new(0, true);
    for robot_id in robots {
        leader.add_new_robot(AddNewRobot { robot_id: *robot_id, asked: false });
    }
    for screen_id in screens {
        leader.add_new_screen(AddNewScreen { screen_id: *screen_id });
    }
    leader
}

#[test]
fn first_tokens_are_one_per_flavor() {
    assert_eq!(
        initial_tokens(),
        vec![
            FlavorToken::new(FlavorID::Chocolate, 1200),
            FlavorToken::new(FlavorID::Vanilla, 4000),
            FlavorToken::new(FlavorID::Strawberry, 4000),
            FlavorToken::new(FlavorID::Mint, 4000),
            FlavorToken::new(FlavorID::Pistachio, 4000),
            FlavorToken::new(FlavorID::DulceDeLeche, 4000),
            FlavorToken::new(FlavorID::Lemon, 4000),
        ]
    );
}

#[test]
fn a_first_leader_starts_the_tokens_and_calls_every_screen() {
    let mut leader = RobotLeader::new(2, true);
    assert_eq!(leader.my_id(), 2);
    let out = leader.started();
    let mut expected = vec![
        LeaderOutput::Listen,
        LeaderOutput::StartTokens(StartTokens { all_tokens: initial_tokens() }),
    ];
    for screen_id in 0..5 {
        expected.push(LeaderOutput::ConnectToScreen(ConnectToScreen { screen_id }));
    }
    assert_eq!(out, expected);
    let mut without_robot = RobotLeader::new(2, false);
    let out = without_robot.started();
    assert_eq!(out.len(), 6);
    assert_eq!(out[0], LeaderOutput::Listen);
    assert_eq!(out[1], LeaderOutput::ConnectToScreen(ConnectToScreen { screen_id: 0 }));
}

#[test]
fn an_order_waits_on_the_queue_until_a_robot_is_idle() {
    let mut leader = leader_with(&[], &[0]);
    let out = leader.create_new_order(order("a", 0));
    assert_eq!(out, vec![told(&leader)]);
    assert_eq!(leader.backup().orders_on_queue, VecDeque::from(vec![info("a", 0)]));
    let out = leader.add_new_robot(AddNewRobot { robot_id: 1, asked: false });
    assert_eq!(
        out,
        vec![
            LeaderOutput::SendNewOrder {
                robot_id: 1,
                msg: SendNewOrder {
                    new_order: Order::new_cucurucho(FlavorID::Mint),
                    order_id: "a".to_string()
                }
            },
            told(&leader),
        ]
    );
    let backup = leader.backup();
    assert!(backup.orders_on_queue.is_empty());
    assert!(backup.available_robots.is_empty());
    assert_eq!(backup.robots_orders, vec![(1, info("a", 0))]);
}

#[test]
fn orders_go_first_in_first_out_to_the_robot_that_came_last() {
    let mut leader = leader_with(&[1, 2], &[0]);
    assert_eq!(leader.backup().available_robots, vec![1, 2]);
    leader.create_new_order(order("a", 0));
    leader.create_new_order(order("b", 0));
    leader.create_new_order(order("c", 0));
    let backup = leader.backup();
    assert_eq!(backup.robots_orders, vec![(2, info("a", 0)), (1, info("b", 0))]);
    assert_eq!(backup.orders_on_queue, VecDeque::from(vec![info("c", 0)]));
    assert!(backup.available_robots.is_empty());
}

#[test]
fn a_result_goes_to_the_screen_and_the_robot_gets_the_next_order() {
    let mut leader = leader_with(&[1], &[0]);
    leader.create_new_order(order("a", 0));
    leader.create_new_order(order("b", 0));
    let out = leader.get_completed_order(GetCompletedOrder {
        order_result: true,
        order_id: "a".to_string(),
        robot_id: 1,
    });
    assert_eq!(out.len(), 4);
    assert_eq!(
        out[0],
        LeaderOutput::OrderPrepared {
            screen_id: 0,
            msg: OrderPrepared { order_result: true, id: "a".to_string() }
        }
    );
    assert!(matches!(out[1], LeaderOutput::SendLeaderBackup { .. }));
    assert_eq!(
        out[2],
        LeaderOutput::SendNewOrder {
            robot_id: 1,
            msg: SendNewOrder {
                new_order: Order::new_cucurucho(FlavorID::Mint),
                order_id: "b".to_string()
            }
        }
    );
    assert_eq!(out[3], told(&leader));
    assert_eq!(leader.backup().robots_orders, vec![(1, info("b", 0))]);
}

#[test]
fn a_result_for_a_screen_that_is_gone_is_kept() {
    let mut leader = leader_with(&[1], &[0]);
    leader.create_new_order(order("a", 3));
    let out = leader.get_aborted_order(GetAbortedOrder {
        order_result: false,
        order_id: "a".to_string(),
        robot_id: 1,
        flavor: FlavorID::Lemon,
    });
    assert_eq!(out, vec![told(&leader)]);
    let backup = leader.backup();
    assert_eq!(
        backup.orders_to_be_sent,
        vec![OrderWaiting {
            order_result: false,
            id: "a".to_string(),
            screen_id: 3,
            flavor: Some(FlavorID::Lemon)
        }]
    );
    assert_eq!(backup.available_robots, vec![1]);
    assert!(backup.robots_orders.is_empty());
}

#[test]
fn a_report_from_a_robot_without_an_order_only_makes_it_idle() {
    let mut leader = leader_with(&[], &[0]);
    let out = leader.get_completed_order(GetCompletedOrder {
        order_result: true,
        order_id: "zz".to_string(),
        robot_id: 4,
    });
    assert_eq!(out, vec![told(&leader)]);
    assert_eq!(leader.backup().available_robots, vec![4]);
    leader.get_completed_order(GetCompletedOrder {
        order_result: true,
        order_id: "zz".to_string(),
        robot_id: 4,
    });
    assert_eq!(leader.backup().available_robots, vec![4]);
}

#[test]
fn the_order_of_a_robot_that_died_goes_to_the_front() {
    let mut leader = leader_with(&[1], &[0]);
    leader.create_new_order(order("a", 0));
    leader.create_new_order(order("b", 0));
    let out = leader.robot_died(RobotDied { robot_id: 1 });
    assert_eq!(out, vec![LeaderOutput::DropRobot { robot_id: 1 }, told(&leader)]);
    let backup = leader.backup();
    assert_eq!(backup.orders_on_queue, VecDeque::from(vec![info("a", 0), info("b", 0)]));
    assert!(backup.robots_orders.is_empty());
    assert!(backup.available_robots.is_empty());
    assert!(leader.robots_connections().is_empty());
    let out = leader.add_new_robot(AddNewRobot { robot_id: 2, asked: false });
    assert!(matches!(
        &out[0],
        LeaderOutput::SendNewOrder { robot_id: 2, msg } if msg.order_id == "a"
    ));
}

#[test]
fn an_idle_robot_that_died_is_no_longer_idle() {
    let mut leader = leader_with(&[1, 2], &[]);
    leader.robot_died(RobotDied { robot_id: 1 });
    assert_eq!(leader.backup().available_robots, vec![2]);
    assert_eq!(leader.robots_connections(), vec![2]);
}

#[test]
fn a_screen_that_died_is_forgotten() {
    let mut leader = leader_with(&[], &[0, 3]);
    assert_eq!(leader.backup().screens, vec![0, 3]);
    let out = leader.screen_died(ScreenDied { screen_id: 0 });
    assert_eq!(out, vec![LeaderOutput::DropScreen { screen_id: 0 }, told(&leader)]);
    assert_eq!(leader.backup().screens, vec![3]);
    assert_eq!(leader.screens_connections(), vec![3]);
}

#[test]
fn a_screen_that_takes_over_gets_what_waited_and_what_is_in_work() {
    let mut leader = leader_with(&[1], &[4]);
    leader.create_new_order(order("a", 3));
    leader.create_new_order(order("b", 3));
    leader.create_new_order(order("c", 2));
    leader.add_order_to_be_sent(AddOrderToBeSent {
        order_result: true,
        id: "w".to_string(),
        screen_id: 3,
        flavor: None,
    });
    leader.add_order_to_be_sent(AddOrderToBeSent {
        order_result: false,
        id: "x".to_string(),
        screen_id: 2,
        flavor: Some(FlavorID::Mint),
    });
    leader.add_order_to_be_sent(AddOrderToBeSent {
        order_result: false,
        id: "y".to_string(),
        screen_id: 3,
        flavor: Some(FlavorID::Lemon),
    });
    let out = leader.change_screen(ChangeScreen { original_screen_id: 3, new_screen_id: 4 });
    assert_eq!(
        out,
        vec![
            LeaderOutput::OrderPrepared {
                screen_id: 4,
                msg: OrderPrepared { order_result: true, id: "w".to_string() }
            },
            LeaderOutput::OrderAborted {
                screen_id: 4,
                msg: OrderAborted {
                    order_result: false,
                    id: "y".to_string(),
                    flavor: FlavorID::Lemon
                }
            },
            told(&leader),
        ]
    );
    let backup = leader.backup();
    assert_eq!(backup.robots_orders, vec![(1, info("a", 4))]);
    assert_eq!(backup.orders_on_queue, VecDeque::from(vec![info("b", 4), info("c", 2)]));
    assert_eq!(
        backup.orders_to_be_sent,
        vec![OrderWaiting {
            order_result: false,
            id: "x".to_string(),
            screen_id: 2,
            flavor: Some(FlavorID::Mint)
        }]
    );
}

#[test]
fn what_waits_stays_while_the_new_screen_cannot_be_reached() {
    let mut leader = leader_with(&[], &[]);
    leader.create_new_order(order("b", 3));
    leader.add_order_to_be_sent(AddOrderToBeSent {
        order_result: true,
        id: "w".to_string(),
        screen_id: 3,
        flavor: None,
    });
    let out = leader.change_screen(ChangeScreen { original_screen_id: 3, new_screen_id: 4 });
    assert_eq!(out, vec![told(&leader)]);
    let backup = leader.backup();
    assert_eq!(backup.orders_to_be_sent.len(), 1);
    assert_eq!(backup.orders_to_be_sent[0].screen_id, 3);
    assert_eq!(backup.orders_on_queue, VecDeque::from(vec![info("b", 4)]));
}

#[test]
fn the_leader_calls_a_screen_when_asked() {
    let mut leader = leader_with(&[], &[]);
    assert_eq!(
        leader.connect_to_screen(ConnectToScreen { screen_id: 1 }),
        vec![LeaderOutput::ConnectToScreen(ConnectToScreen { screen_id: 1 })]
    );
    assert_eq!(
        leader.connect_to_new_screen(ConnectToNewScreen { screen_id: 2 }),
        vec![LeaderOutput::ConnectToScreen(ConnectToScreen { screen_id: 2 })]
    );
}

#[test]
fn a_connection_that_the_leader_opened_does_not_make_the_robot_idle() {
    let mut leader = leader_with(&[], &[]);
    let out = leader.add_new_robot(AddNewRobot { robot_id: 3, asked: true });
    assert_eq!(out, vec![]);
    assert!(leader.backup().available_robots.is_empty());
    assert_eq!(leader.robots_connections(), vec![3]);
}

#[test]
fn a_robot_with_an_order_that_connects_again_is_not_idle() {
    let mut leader = leader_with(&[1], &[0]);
    leader.create_new_order(order("a", 0));
    leader.create_new_order(order("b", 0));
    leader.add_new_robot(AddNewRobot { robot_id: 1, asked: false });
    let backup = leader.backup();
    assert!(backup.available_robots.is_empty());
    assert_eq!(backup.robots_orders, vec![(1, info("a", 0))]);
    assert_eq!(backup.orders_on_queue, VecDeque::from(vec![info("b", 0)]));
}

#[test]
fn an_order_is_not_given_to_a_robot_without_a_connection() {
    let backup = LeaderBackup::new(
        vec![1],
        vec![],
        VecDeque::from(vec![info("a", 0)]),
        vec![],
        vec![],
    );
    let mut leader = RobotLeader::from_backup(0, true, backup);
    let out = leader.create_new_order(order("b", 0));
    assert_eq!(out, vec![told(&leader)]);
    assert_eq!(leader.backup().orders_on_queue.len(), 2);
    assert_eq!(leader.backup().available_robots, vec![1]);
}

#[test]
fn a_leader_that_takes_over_puts_its_own_order_back() {
    let backup = LeaderBackup::new(
        vec![0, 1],
        vec![0, 2],
        VecDeque::from(vec![info("q", 0)]),
        vec![(2, info("two", 0)), (1, info("mine", 2))],
        vec![OrderWaiting { order_result: true, id: "w".to_string(), screen_id: 2, flavor: None }],
    );
    let mut leader = RobotLeader::from_backup(1, true, backup);
    let state = leader.backup();
    assert_eq!(state.available_robots, vec![0]);
    assert_eq!(state.orders_on_queue, VecDeque::from(vec![info("mine", 2), info("q", 0)]));
    assert_eq!(state.robots_orders, vec![(2, info("two", 0))]);
    assert_eq!(state.screens, vec![0, 2]);
    assert_eq!(state.orders_to_be_sent.len(), 1);
    let out = leader.started();
    assert_eq!(
        out,
        vec![
            LeaderOutput::Listen,
            LeaderOutput::ConnectToRobot { robot_id: 0 },
            LeaderOutput::ConnectToRobot { robot_id: 2 },
            LeaderOutput::ConnectToScreen(ConnectToScreen { screen_id: 0 }),
            LeaderOutput::ConnectToScreen(ConnectToScreen { screen_id: 2 }),
        ]
    );
    assert!(leader.backup().screens.is_empty());
}

#[test]
fn no_order_is_lost_over_a_run_of_events() {
    let mut leader = leader_with(&[1, 2], &[0]);
    let mut delivered: Vec<String> = vec![];
    let mut outs = vec![];
    for id in ["a", "b", "c", "d"] {
        outs.extend(leader.create_new_order(order(id, 0)));
    }
    outs.extend(leader.robot_died(RobotDied { robot_id: 2 }));
    outs.extend(leader.get_completed_order(GetCompletedOrder {
        order_result: true,
        order_id: String::new(),
        robot_id: 1,
    }));
    outs.extend(leader.screen_died(ScreenDied { screen_id: 0 }));
    outs.extend(leader.get_completed_order(GetCompletedOrder {
        order_result: true,
        order_id: String::new(),
        robot_id: 1,
    }));
    outs.extend(leader.add_new_screen(AddNewScreen { screen_id: 1 }));
    outs.extend(leader.change_screen(ChangeScreen { original_screen_id: 0, new_screen_id: 1 }));
    for out in outs {
        match out {
            LeaderOutput::OrderPrepared { msg, .. } => delivered.push(msg.id),
            LeaderOutput::OrderAborted { msg, .. } => delivered.push(msg.id),
            _ => {}
        }
    }
    let backup = leader.backup();
    for id in ["a", "b", "c", "d"] {
        let kept = backup.orders_on_queue.iter().any(|o| o.order_id == id)
            || backup.robots_orders.iter().any(|(_, o)| o.order_id == id)
            || backup.orders_to_be_sent.iter().any(|o| o.id == id);
        assert!(kept || delivered.iter().any(|d| d == id), "order {} is lost", id);
    }
    assert_eq!(delivered, vec!["b".to_string(), "a".to_string()]);
}
