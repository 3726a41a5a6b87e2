use icecream_robots::config::{MAX_JITTER_MS, MAX_NUMBER_OF_ROBOTS};
use icecream_robots::flavor_id::FlavorID;
use icecream_robots::flavor_token::FlavorToken;
use icecream_robots::leader_backup::LeaderBackup;
use icecream_robots::messages::{
    AbortCurrentOrder, AddNewLeader, AddNextRobot, AddPreviousRobot, GetNewOrder, GetTokenBack,
    GetTokenBackup, NewLeaderElected, OrderAborted, OrderPrepared, ReceiveNewElection,
    RobotCommand, SendTokenBackup, SetNewLeader, StartElection, StartTokens, StoreBackup,
    TransferToken,
};
use icecream_robots::order::Order;
use icecream_robots::robot_connection_handler::{
    HandlerOutput, Leadership, RobotConnectionHandler, RETRY_MS,
};
use icecream_robots::token_backup::TokenBackup;
use std::collections::VecDeque;

fn backup() -> LeaderBackup {
    LeaderBackup::new(vec![0, 1], vec![0], VecDeque::new(), vec![], vec![])
}

fn in_ring(my_id: usize, next: usize) -> RobotConnectionHandler {
    let mut handler = RobotConnectionHandler::new(my_id);
    handler.add_next_robot(AddNextRobot { robot_id: next });
    handler
}

#[test]
fn a_new_handler_knows_nobody() {
    let handler = RobotConnectionHandler::new(1);
    assert_eq!(handler.my_id(), 1);
    assert_eq!(handler.leader_id(), MAX_NUMBER_OF_ROBOTS);
    assert_eq!(handler.next_robot_id(), MAX_NUMBER_OF_ROBOTS);
    assert!(!handler.has_next());
    assert!(!handler.has_valid_backup());
    assert_eq!(handler.role(), Leadership::Follower);
}

#[test]
fn a_robot_alone_at_the_start_leads_without_a_backup() {
    let mut handler = RobotConnectionHandler::new(0);
    assert_eq!(handler.join_ring(), vec![HandlerOutput::JoinRing]);
    let out = handler.ring_joined(0);
    assert_eq!(
        out,
        vec![HandlerOutput::SetNewLeader(SetNewLeader { leader_id: 0, by_election: false })]
    );
    let out = handler.set_new_leader(SetNewLeader { leader_id: 0, by_election: false });
    assert_eq!(
        out,
        vec![
            HandlerOutput::StartLeader,
            HandlerOutput::ConnectToLeader { leader_id: 0, delay_ms: 200 }
        ]
    );
    assert_eq!(handler.role(), Leadership::Leader { from_backup: false });
    assert_eq!(handler.leader_id(), 0);
    let out = handler.set_new_leader(SetNewLeader { leader_id: 0, by_election: false });
    assert_eq!(out, vec![]);
}

#[test]
fn a_follower_connects_to_its_leader() {
    let mut handler = RobotConnectionHandler::new(1);
    let out = handler.set_new_leader(SetNewLeader { leader_id: 0, by_election: false });
    assert_eq!(out, vec![HandlerOutput::ConnectToLeader { leader_id: 0, delay_ms: 0 }]);
    assert_eq!(handler.role(), Leadership::Follower);
    assert_eq!(handler.leader_connected(true), vec![]);
    let prepared = OrderPrepared { order_result: true, id: "a".to_string() };
    assert_eq!(
        handler.order_prepared(OrderPrepared { order_result: true, id: "a".to_string() }),
        vec![HandlerOutput::OrderPrepared(prepared)]
    );
}

#[test]
fn a_report_without_a_leader_goes_nowhere() {
    let mut handler = RobotConnectionHandler::new(1);
    assert_eq!(
        handler.order_prepared(OrderPrepared { order_result: true, id: "a".to_string() }),
        vec![]
    );
    assert_eq!(
        handler.order_aborted(OrderAborted {
            order_result: false,
            id: "a".to_string(),
            flavor: FlavorID::Mint
        }),
        vec![]
    );
    handler.add_new_leader(AddNewLeader { leader_id: 2 });
    assert_eq!(handler.leader_id(), 2);
    let aborted = OrderAborted { order_result: false, id: "a".to_string(), flavor: FlavorID::Mint };
    assert_eq!(
        handler.order_aborted(OrderAborted {
            order_result: false,
            id: "a".to_string(),
            flavor: FlavorID::Mint
        }),
        vec![HandlerOutput::OrderAborted(aborted)]
    );
}

#[test]
fn a_report_that_could_not_be_handed_over_comes_back_after_a_second() {
    let handler = RobotConnectionHandler::new(1);
    assert_eq!(RETRY_MS, 1000);
    assert_eq!(
        handler.retry_order_prepared(OrderPrepared { order_result: true, id: "a".to_string() }),
        HandlerOutput::RetryPrepared {
            msg: OrderPrepared { order_result: true, id: "a".to_string() },
            delay_ms: 1000
        }
    );
    assert_eq!(
        handler.retry_order_aborted(OrderAborted {
            order_result: false,
            id: "a".to_string(),
            flavor: FlavorID::Lemon
        }),
        HandlerOutput::RetryAborted {
            msg: OrderAborted { order_result: false, id: "a".to_string(), flavor: FlavorID::Lemon },
            delay_ms: 1000
        }
    );
}

#[test]
fn a_robot_leads_from_a_backup_only_if_it_has_one() {
    let mut handler = RobotConnectionHandler::new(1);
    let out = handler.set_new_leader(SetNewLeader { leader_id: 1, by_election: true });
    assert_eq!(out, vec![]);
    assert_eq!(handler.role(), Leadership::Follower);

    let mut handler = RobotConnectionHandler::new(1);
    assert_eq!(handler.store_backup(StoreBackup { backup: backup() }), vec![]);
    assert!(handler.has_valid_backup());
    let out = handler.set_new_leader(SetNewLeader { leader_id: 1, by_election: true });
    assert_eq!(
        out,
        vec![
            HandlerOutput::AbortCurrentOrder(AbortCurrentOrder {}),
            HandlerOutput::StartLeaderFromBackup(backup()),
        ]
    );
    assert_eq!(handler.role(), Leadership::Leader { from_backup: true });
    assert!(handler.has_valid_backup());
}

#[test]
fn an_election_goes_round_the_ring() {
    let mut first = in_ring(0, 1);
    let mut second = in_ring(1, 0);
    first.store_backup(StoreBackup { backup: backup() });
    second.store_backup(StoreBackup { backup: backup() });
    let out = first.start_election(StartElection());
    assert_eq!(
        out,
        vec![HandlerOutput::SendNext(RobotCommand::NewElection { candidates: vec![(0, true)] })]
    );
    assert_eq!(first.role(), Leadership::Candidate);
    let out = second.receive_new_election(ReceiveNewElection { candidates: vec![(0, true)] });
    assert_eq!(
        out,
        vec![HandlerOutput::SendNext(RobotCommand::NewElection {
            candidates: vec![(0, true), (1, true)]
        })]
    );
    assert_eq!(second.role(), Leadership::Candidate);
    let out = first.receive_new_election(ReceiveNewElection {
        candidates: vec![(0, true), (1, true)],
    });
    assert_eq!(out, vec![HandlerOutput::SendNext(RobotCommand::NewLeader { leader: 1 })]);
    let out = second.new_leader_elected(NewLeaderElected { leader_id: 1 });
    assert_eq!(
        out,
        vec![HandlerOutput::SetNewLeader(SetNewLeader { leader_id: 1, by_election: true })]
    );
    let out = second.set_new_leader(SetNewLeader { leader_id: 1, by_election: true });
    assert_eq!(out.len(), 2);
    assert_eq!(second.role(), Leadership::Leader { from_backup: true });
    assert_eq!(first.role(), Leadership::Candidate);
    first.add_new_leader(AddNewLeader { leader_id: 1 });
    assert_eq!(first.leader_id(), 1);
    assert_eq!(first.role(), Leadership::Follower);
}

#[test]
fn the_robot_that_ends_the_round_and_wins_tells_itself() {
    let mut handler = in_ring(2, 0);
    handler.store_backup(StoreBackup { backup: backup() });
    let out = handler.receive_new_election(ReceiveNewElection {
        candidates: vec![(2, true), (0, true), (1, false)],
    });
    assert_eq!(
        out,
        vec![HandlerOutput::SetNewLeader(SetNewLeader { leader_id: 2, by_election: true })]
    );
}

#[test]
fn the_name_of_another_leader_is_passed_on() {
    let mut handler = in_ring(0, 1);
    handler.start_election(StartElection());
    let out = handler.new_leader_elected(NewLeaderElected { leader_id: 2 });
    assert_eq!(out, vec![HandlerOutput::SendNext(RobotCommand::NewLeader { leader: 2 })]);
    assert_eq!(handler.role(), Leadership::Follower);
    let mut alone = RobotConnectionHandler::new(0);
    assert_eq!(alone.new_leader_elected(NewLeaderElected { leader_id: 2 }), vec![]);
}

#[test]
fn neighbours() {
    let mut handler = RobotConnectionHandler::new(1);
    assert_eq!(
        handler.add_next_robot(AddNextRobot { robot_id: 2 }),
        vec![HandlerOutput::TakeNext { robot_id: 2 }]
    );
    assert!(handler.has_next());
    assert_eq!(handler.next_robot_id(), 2);
    assert_eq!(handler.add_next_robot(AddNextRobot { robot_id: 2 }), vec![]);
    assert_eq!(
        handler.add_next_robot(AddNextRobot { robot_id: 3 }),
        vec![HandlerOutput::CloseNext, HandlerOutput::TakeNext { robot_id: 3 }]
    );
    assert_eq!(handler.next_robot_id(), 3);
    assert_eq!(handler.add_previous_robot(AddPreviousRobot { asked: true }), vec![]);
    handler.add_new_leader(AddNewLeader { leader_id: 4 });
    assert_eq!(
        handler.add_previous_robot(AddPreviousRobot { asked: false }),
        vec![HandlerOutput::ClosePrevious, HandlerOutput::SendLeaderId { byte: 4 }]
    );
    assert_eq!(
        handler.add_new_leader(AddNewLeader { leader_id: 0 }),
        vec![HandlerOutput::CloseLeader]
    );
}

#[test]
fn a_token_from_the_ring_reaches_the_order_manager_within_a_second() {
    let mut handler = in_ring(1, 2);
    let token = FlavorToken::new(FlavorID::Mint, 10);
    for _ in 0..200 {
        let out = handler.transfer_token(TransferToken { flavor_token: token });
        assert_eq!(out.len(), 1);
        match &out[0] {
            HandlerOutput::TransferLater { msg, delay_ms } => {
                assert_eq!(msg.flavor_token, token);
                assert!(*delay_ms < MAX_JITTER_MS);
            }
            other => panic!("unexpected output {:?}", other),
        }
    }
    assert_eq!(
        handler.transfer_token_after(TransferToken { flavor_token: token }, 12),
        vec![HandlerOutput::TransferLater {
            msg: TransferToken { flavor_token: token },
            delay_ms: 12
        }]
    );
}

#[test]
fn a_token_goes_to_the_next_robot_or_back_to_the_robot_itself() {
    let token = FlavorToken::new(FlavorID::Mint, 10);
    let mut handler = in_ring(1, 2);
    assert_eq!(
        handler.get_token_back(GetTokenBack { flavor_token: token }),
        vec![HandlerOutput::SendNext(RobotCommand::TokenMessage { token })]
    );
    let mut alone = RobotConnectionHandler::new(1);
    assert_eq!(
        alone.get_token_back(GetTokenBack { flavor_token: token }),
        vec![HandlerOutput::TransferToSelf(TransferToken { flavor_token: token })]
    );
    let mut own_next = in_ring(1, 1);
    assert_eq!(
        own_next.get_token_back(GetTokenBack { flavor_token: token }),
        vec![HandlerOutput::TransferToSelf(TransferToken { flavor_token: token })]
    );
}

#[test]
fn first_tokens_and_orders_go_to_the_order_manager() {
    let mut handler = RobotConnectionHandler::new(0);
    let tokens = vec![FlavorToken::new(FlavorID::Mint, 10), FlavorToken::new(FlavorID::Lemon, 20)];
    assert_eq!(
        handler.start_tokens(StartTokens { all_tokens: tokens.clone() }),
        vec![
            HandlerOutput::TransferToken(TransferToken { flavor_token: tokens[0] }),
            HandlerOutput::TransferToken(TransferToken { flavor_token: tokens[1] }),
        ]
    );
    assert_eq!(
        handler.get_new_order(GetNewOrder {
            new_order: Order::new_cucurucho(FlavorID::Mint),
            id: "a".to_string()
        }),
        vec![HandlerOutput::GetNewOrder(GetNewOrder {
            new_order: Order::new_cucurucho(FlavorID::Mint),
            id: "a".to_string()
        })]
    );
}

#[test]
fn a_probe_that_comes_home_makes_the_token_anew() {
    let mut handler = in_ring(1, 2);
    let start = TokenBackup::new(FlavorID::Mint, 4000, 1);
    assert_eq!(
        handler.send_token_backup(SendTokenBackup { token_backup: start }),
        vec![HandlerOutput::SendNext(RobotCommand::TokenBackupMsg { token_backup: start })]
    );
    let home = TokenBackup::new(FlavorID::Mint, 3650, 1);
    assert_eq!(
        handler.get_token_backup(GetTokenBackup { token_backup: home }),
        vec![HandlerOutput::SendNext(RobotCommand::TokenMessage {
            token: FlavorToken::new(FlavorID::Mint, 3650)
        })]
    );
    assert_eq!(
        handler.get_token_backup(GetTokenBackup { token_backup: home }),
        vec![HandlerOutput::GetTokenBackup(GetTokenBackup { token_backup: home })]
    );
}

#[test]
fn a_probe_of_a_higher_robot_ends_the_wait_of_a_lower_one() {
    let mut handler = in_ring(1, 2);
    handler.send_token_backup(SendTokenBackup {
        token_backup: TokenBackup::new(FlavorID::Mint, 4000, 1),
    });
    let higher = TokenBackup::new(FlavorID::Mint, 3000, 3);
    assert_eq!(handler.get_token_backup(GetTokenBackup { token_backup: higher }), vec![]);
    let home = TokenBackup::new(FlavorID::Mint, 3650, 1);
    assert_eq!(
        handler.get_token_backup(GetTokenBackup { token_backup: home }),
        vec![HandlerOutput::GetTokenBackup(GetTokenBackup { token_backup: home })]
    );
}

#[test]
fn a_probe_of_another_robot_goes_to_the_order_manager() {
    let mut handler = in_ring(1, 2);
    let probe = TokenBackup::new(FlavorID::Mint, 3000, 0);
    assert_eq!(
        handler.get_token_backup(GetTokenBackup { token_backup: probe }),
        vec![HandlerOutput::GetTokenBackup(GetTokenBackup { token_backup: probe })]
    );
    assert_eq!(
        handler.send_token_backup(SendTokenBackup { token_backup: probe }),
        vec![HandlerOutput::SendNext(RobotCommand::TokenBackupMsg { token_backup: probe })]
    );
    let lower = TokenBackup::new(FlavorID::Lemon, 3000, 0);
    handler.send_token_backup(SendTokenBackup {
        token_backup: TokenBackup::new(FlavorID::Lemon, 4000, 1),
    });
    assert_eq!(
        handler.get_token_backup(GetTokenBackup { token_backup: lower }),
        vec![HandlerOutput::GetTokenBackup(GetTokenBackup { token_backup: lower })]
    );
}

#[test]
fn a_robot_that_finds_no_next_robot_is_alone_and_takes_the_lead() {
    let mut handler = in_ring(1, 2);
    handler.store_backup(StoreBackup { backup: backup() });
    assert_eq!(handler.next_sent(3), vec![]);
    assert_eq!(handler.next_robot_id(), 3);
    let out = handler.next_sent(1);
    assert_eq!(
        out,
        vec![HandlerOutput::SetNewLeader(SetNewLeader { leader_id: 1, by_election: true })]
    );
    assert!(!handler.has_next());
    assert_eq!(handler.role(), Leadership::Solo);
    handler.set_new_leader(SetNewLeader { leader_id: 1, by_election: true });
    assert_eq!(handler.role(), Leadership::Leader { from_backup: true });
    assert_eq!(handler.next_sent(1), vec![]);
    assert_eq!(handler.role(), Leadership::Leader { from_backup: true });
}
