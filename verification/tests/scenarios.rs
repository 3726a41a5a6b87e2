use icecream_robots::config::{initial_stock, MAX_NUMBER_OF_ROBOTS};
use icecream_robots::connections::{
    FromLeader, FromRing, FromRobot, LeaderToRobotConnection, LeaderToScreenConnection,
    RobotToLeaderConnection, RobotToRobotConnection,
};
use icecream_robots::flavor_id::FlavorID;
use icecream_robots::flavor_token::FlavorToken;
use icecream_robots::messages::{
    AbortCurrentOrder, AddNewLeader, AddNewRobot, AddNewScreen, AddNextRobot, AddOrderToBeSent,
    AddPreviousRobot, ChangeScreen, CreateNewOrder, GetAbortedOrder, GetCompletedOrder,
    GetNewOrder, GetTokenBack, GetTokenBackup, NewLeaderElected, OrderAborted, OrderPrepared,
    ReceiveNewElection, RobotCommand, RobotDied, ScreenDied, SendTokenBackup, SetNewLeader,
    StartElection, StartTokens, StoreBackup, TimerWentOff, TransferToken,
};
use icecream_robots::order::Order;
use icecream_robots::order_manager::{OrderManager, OrderManagerOutput};
use icecream_robots::order_preparer::OrderPreparer;
use icecream_robots::ring::{
    joined_leader, next_robot_candidates, previous_robot_candidates, robot_announced, Announced,
    SafeSend, SendStep,
};
use icecream_robots::robot_connection_handler::{HandlerOutput, Leadership, RobotConnectionHandler};
use icecream_robots::robot_leader::{LeaderOutput, RobotLeader};
use icecream_robots::robot_messages::RobotMessage;
use icecream_robots::screen_messages::ScreenMessage;
use std::collections::VecDeque;

const RING: usize = MAX_NUMBER_OF_ROBOTS;
const SCREENS: usize = 5;

enum ToHandler {
    TransferToken(TransferToken),
    GetTokenBack(GetTokenBack),
    OrderPrepared(OrderPrepared),
    OrderAborted(OrderAborted),
    SendTokenBackup(SendTokenBackup),
    GetTokenBackup(GetTokenBackup),
    SetNewLeader(SetNewLeader),
    NewLeaderElected(NewLeaderElected),
    ReceiveNewElection(ReceiveNewElection),
    StartElection,
    StartTokens(StartTokens),
    GetNewOrder(GetNewOrder),
    StoreBackup(StoreBackup),
    AddNewLeader(AddNewLeader),
}

enum ToManager {
    TransferToken(TransferToken),
    GetTokenBack(GetTokenBack),
    GetNewOrder(GetNewOrder),
    GetTokenBackup(GetTokenBackup),
    AbortCurrentOrder,
    TimerWentOff,
}

enum ToLeader {
    CreateNewOrder(CreateNewOrder),
    Completed(GetCompletedOrder),
    Aborted(GetAbortedOrder),
    RobotDied(RobotDied),
    ScreenDied(ScreenDied),
    ChangeScreen(ChangeScreen),
    AddOrderToBeSent(AddOrderToBeSent),
    AddNewRobot(AddNewRobot),
    AddNewScreen(AddNewScreen),
}

enum Mail {
    Handler(usize, ToHandler),
    Manager(usize, ToManager),
    Leader(usize, ToLeader),
}

struct Robot {
    alive: bool,
    handler: RobotConnectionHandler,
    manager: OrderManager,
    preparer: OrderPreparer,
    leader: Option<RobotLeader>,
}

struct World {
    robots: Vec<Robot>,
    mail: VecDeque<Mail>,
    screens_alive: Vec<bool>,
    inbox: Vec<Vec<RobotMessage>>,
    scooped: Vec<u32>,
    leader_link: Vec<Option<usize>>,
    lose_token_of: Option<FlavorID>,
    first_amount_of: Option<(FlavorID, u32)>,
    steps: usize,
}

impl World {
    fn new(screens: &[usize]) -> World {
        let mut robots = Vec::new();
        for id in 0..RING {
            robots.push(Robot {
                alive: false,
                handler: RobotConnectionHandler::new(id),
                manager: OrderManager::new(id),
                preparer: OrderPreparer::new(),
                leader: None,
            });
        }
        let mut screens_alive = vec![false; SCREENS];
        for screen in screens {
            screens_alive[*screen] = true;
        }
        World {
            robots,
            mail: VecDeque::new(),
            screens_alive,
            inbox: vec![Vec::new(); SCREENS],
            scooped: vec![0; 7],
            leader_link: vec![None; RING],
            lose_token_of: None,
            first_amount_of: None,
            steps: 0,
        }
    }

    fn leader_id(&self) -> Option<usize> {
        (0..RING).find(|id| self.robots[*id].alive && self.robots[*id].leader.is_some())
    }

    fn leader(&self) -> &RobotLeader {
        self.robots[self.leader_id().unwrap()].leader.as_ref().unwrap()
    }

    fn first_alive(&self, candidates: Vec<usize>) -> Option<usize> {
        candidates.into_iter().find(|id| self.robots[*id].alive)
    }

    fn start_robot(&mut self, id: usize) {
        let previous = self.first_alive(previous_robot_candidates(id, RING));
        let next = self.first_alive(next_robot_candidates(id, RING));
        self.robots[id].alive = true;
        if let Some(previous) = previous {
            let out = self.robots[previous].handler.add_next_robot(AddNextRobot { robot_id: id });
            self.handler_outputs(previous, out);
            let out = self.robots[id].handler.add_previous_robot(AddPreviousRobot { asked: true });
            self.handler_outputs(id, out);
        }
        let mut leader_from_next = None;
        if let Some(next) = next {
            let out = self.robots[next].handler.add_previous_robot(AddPreviousRobot { asked: false });
            for output in &out {
                if let HandlerOutput::SendLeaderId { byte } = output {
                    leader_from_next = Some(*byte as usize);
                }
            }
            let out = self.robots[id].handler.add_next_robot(AddNextRobot { robot_id: next });
            self.handler_outputs(id, out);
        }
        let leader = joined_leader(id, previous.is_some(), leader_from_next, RING);
        let out = self.robots[id].handler.ring_joined(leader);
        self.handler_outputs(id, out);
        self.run(200);
    }

    fn kill_robot(&mut self, id: usize) {
        self.robots[id].alive = false;
        let was_leader = self.robots[id].leader.is_some();
        for other in 0..RING {
            if other == id || !self.robots[other].alive {
                continue;
            }
            if was_leader && self.robots[other].handler.leader_id() == id {
                let _: StartElection = RobotToLeaderConnection::new().finished();
                self.mail.push_back(Mail::Handler(other, ToHandler::StartElection));
            }
        }
        if !was_leader {
            if let Some(leader) = self.leader_id() {
                let gone = LeaderToRobotConnection::new(id).finished();
                self.mail.push_back(Mail::Leader(leader, ToLeader::RobotDied(gone)));
            }
        }
    }

    fn kill_screen(&mut self, screen: usize) {
        self.screens_alive[screen] = false;
    }

    fn screen_sends(&mut self, screen: usize, record: ScreenMessage) {
        let leader = self.leader_id().unwrap();
        match LeaderToScreenConnection::new(screen).handle(record) {
            Some(icecream_robots::connections::FromScreen::CreateNewOrder(m)) => {
                self.mail.push_back(Mail::Leader(leader, ToLeader::CreateNewOrder(m)))
            }
            Some(icecream_robots::connections::FromScreen::ChangeScreen(m)) => {
                self.mail.push_back(Mail::Leader(leader, ToLeader::ChangeScreen(m)))
            }
            Some(icecream_robots::connections::FromScreen::ConnectToNewScreen(m)) => {
                if self.screens_alive[m.screen_id] {
                    self.mail.push_back(Mail::Leader(
                        leader,
                        ToLeader::AddNewScreen(AddNewScreen { screen_id: m.screen_id }),
                    ));
                }
            }
            None => {}
        }
    }

    fn submit(&mut self, screen: usize, order_id: &str, order: Order) {
        self.screen_sends(
            screen,
            ScreenMessage::PrepareNewOrder {
                screen_id: screen,
                order_id: order_id.to_string(),
                order,
            },
        );
    }

    fn run(&mut self, limit: usize) {
        for _ in 0..limit {
            match self.mail.pop_front() {
                Some(mail) => self.deliver(mail),
                None => return,
            }
        }
    }

    fn run_until_answer(&mut self, screen: usize, limit: usize) -> bool {
        for _ in 0..limit {
            if !self.inbox[screen].is_empty() {
                return true;
            }
            match self.mail.pop_front() {
                Some(mail) => self.deliver(mail),
                None => return !self.inbox[screen].is_empty(),
            }
        }
        !self.inbox[screen].is_empty()
    }

    fn deliver(&mut self, mail: Mail) {
        self.steps += 1;
        match mail {
            Mail::Handler(id, msg) => {
                if !self.robots[id].alive {
                    return;
                }
                let handler = &mut self.robots[id].handler;
                let out = match msg {
                    ToHandler::TransferToken(m) => handler.transfer_token(m),
                    ToHandler::GetTokenBack(m) => handler.get_token_back(m),
                    ToHandler::OrderPrepared(m) => handler.order_prepared(m),
                    ToHandler::OrderAborted(m) => handler.order_aborted(m),
                    ToHandler::SendTokenBackup(m) => handler.send_token_backup(m),
                    ToHandler::GetTokenBackup(m) => handler.get_token_backup(m),
                    ToHandler::SetNewLeader(m) => handler.set_new_leader(m),
                    ToHandler::NewLeaderElected(m) => handler.new_leader_elected(m),
                    ToHandler::ReceiveNewElection(m) => handler.receive_new_election(m),
                    ToHandler::StartElection => handler.start_election(StartElection()),
                    ToHandler::StartTokens(m) => handler.start_tokens(m),
                    ToHandler::GetNewOrder(m) => handler.get_new_order(m),
                    ToHandler::StoreBackup(m) => handler.store_backup(m),
                    ToHandler::AddNewLeader(m) => handler.add_new_leader(m),
                };
                self.handler_outputs(id, out);
            }
            Mail::Manager(id, msg) => {
                if !self.robots[id].alive {
                    return;
                }
                let manager = &mut self.robots[id].manager;
                let out = match msg {
                    ToManager::TransferToken(m) => manager.transfer_token(m),
                    ToManager::GetTokenBack(m) => manager.get_token_back(m),
                    ToManager::GetNewOrder(m) => manager.get_new_order(m),
                    ToManager::GetTokenBackup(m) => manager.get_token_backup(m),
                    ToManager::AbortCurrentOrder => manager.abort_current_order(AbortCurrentOrder {}),
                    ToManager::TimerWentOff => manager.timer_went_off(TimerWentOff()),
                };
                self.manager_outputs(id, out);
            }
            Mail::Leader(id, msg) => {
                if !self.robots[id].alive {
                    return;
                }
                let leader = match self.robots[id].leader.as_mut() {
                    Some(leader) => leader,
                    None => return,
                };
                let out = match msg {
                    ToLeader::CreateNewOrder(m) => leader.create_new_order(m),
                    ToLeader::Completed(m) => leader.get_completed_order(m),
                    ToLeader::Aborted(m) => leader.get_aborted_order(m),
                    ToLeader::RobotDied(m) => leader.robot_died(m),
                    ToLeader::ScreenDied(m) => leader.screen_died(m),
                    ToLeader::ChangeScreen(m) => leader.change_screen(m),
                    ToLeader::AddOrderToBeSent(m) => leader.add_order_to_be_sent(m),
                    ToLeader::AddNewRobot(m) => leader.add_new_robot(m),
                    ToLeader::AddNewScreen(m) => leader.add_new_screen(m),
                };
                self.leader_outputs(id, out);
            }
        }
    }

    fn send_next(&mut self, id: usize, record: RobotCommand) {
        let next_id = self.robots[id].handler.next_robot_id();
        let mut walk = SafeSend::new(id, next_id, RING);
        let wrote = next_id < RING && self.robots[next_id].alive;
        let mut step = walk.written(wrote);
        let target = loop {
            match step {
                SendStep::Done(target) => break target,
                SendStep::Try(candidate) => {
                    let ok = self.robots[candidate].alive;
                    if ok {
                        let out = self.robots[candidate]
                            .handler
                            .add_previous_robot(AddPreviousRobot { asked: false });
                        self.handler_outputs(candidate, out);
                    }
                    step = walk.tried(ok);
                }
            }
        };
        if target != id {
            let lost = match (&record, self.lose_token_of) {
                (RobotCommand::TokenMessage { token }, Some(flavor)) => token.get_id() == flavor,
                _ => false,
            };
            if lost {
                self.lose_token_of = None;
            } else {
                match RobotToRobotConnection::new().handle(record) {
                    Some(FromRing::TransferToken(m)) => {
                        self.mail.push_back(Mail::Handler(target, ToHandler::TransferToken(m)))
                    }
                    Some(FromRing::GetTokenBackup(m)) => {
                        self.mail.push_back(Mail::Handler(target, ToHandler::GetTokenBackup(m)))
                    }
                    Some(FromRing::NewLeaderElected(m)) => {
                        self.mail.push_back(Mail::Handler(target, ToHandler::NewLeaderElected(m)))
                    }
                    Some(FromRing::ReceiveNewElection(m)) => self
                        .mail
                        .push_back(Mail::Handler(target, ToHandler::ReceiveNewElection(m))),
                    None => {}
                }
            }
        }
        let out = self.robots[id].handler.next_sent(target);
        self.handler_outputs(id, out);
    }

    fn to_leader(&mut self, id: usize, record: RobotCommand) -> bool {
        let leader = match self.leader_link[id] {
            Some(leader) => leader,
            None => return false,
        };
        if !self.robots[leader].alive || self.robots[leader].leader.is_none() {
            return false;
        }
        match LeaderToRobotConnection::new(id).handle(record) {
            Some(FromRobot::GetCompletedOrder(m)) => {
                self.mail.push_back(Mail::Leader(leader, ToLeader::Completed(m)))
            }
            Some(FromRobot::GetAbortedOrder(m)) => {
                self.mail.push_back(Mail::Leader(leader, ToLeader::Aborted(m)))
            }
            None => {}
        }
        true
    }

    fn start_leader(&mut self, id: usize, mut leader: RobotLeader) {
        let out = leader.started();
        self.robots[id].leader = Some(leader);
        self.leader_outputs(id, out);
    }

    fn handler_outputs(&mut self, id: usize, out: Vec<HandlerOutput>) {
        for output in out {
            match output {
                HandlerOutput::SetNewLeader(m) => {
                    self.mail.push_back(Mail::Handler(id, ToHandler::SetNewLeader(m)))
                }
                HandlerOutput::TransferToSelf(m) => {
                    self.mail.push_back(Mail::Handler(id, ToHandler::TransferToken(m)))
                }
                HandlerOutput::TransferLater { msg, delay_ms } => {
                    assert!(delay_ms < 1000);
                    self.mail.push_back(Mail::Manager(id, ToManager::TransferToken(msg)))
                }
                HandlerOutput::TransferToken(m) => {
                    self.mail.push_back(Mail::Manager(id, ToManager::TransferToken(m)))
                }
                HandlerOutput::GetNewOrder(m) => {
                    self.mail.push_back(Mail::Manager(id, ToManager::GetNewOrder(m)))
                }
                HandlerOutput::GetTokenBackup(m) => {
                    self.mail.push_back(Mail::Manager(id, ToManager::GetTokenBackup(m)))
                }
                HandlerOutput::AbortCurrentOrder(_) => {
                    self.mail.push_back(Mail::Manager(id, ToManager::AbortCurrentOrder))
                }
                HandlerOutput::SendNext(record) => self.send_next(id, record),
                HandlerOutput::OrderPrepared(m) => {
                    let record = RobotToLeaderConnection::new().order_prepared(&m);
                    if !self.to_leader(id, record) {
                        self.mail.push_back(Mail::Handler(id, ToHandler::OrderPrepared(m)));
                    }
                }
                HandlerOutput::OrderAborted(m) => {
                    let record = RobotToLeaderConnection::new().order_aborted(&m);
                    if !self.to_leader(id, record) {
                        self.mail.push_back(Mail::Handler(id, ToHandler::OrderAborted(m)));
                    }
                }
                HandlerOutput::RetryPrepared { .. } | HandlerOutput::RetryAborted { .. } => {}
                HandlerOutput::ConnectToLeader { leader_id, delay_ms } => {
                    assert_eq!(delay_ms, if leader_id == id { 200 } else { 0 });
                    let there = leader_id < RING
                        && self.robots[leader_id].alive
                        && self.robots[leader_id].leader.is_some();
                    let out = self.robots[id].handler.leader_connected(there);
                    self.handler_outputs(id, out);
                    if there {
                        self.leader_link[id] = Some(leader_id);
                        self.mail.push_back(Mail::Leader(
                            leader_id,
                            ToLeader::AddNewRobot(AddNewRobot { robot_id: id, asked: false }),
                        ));
                    }
                }
                HandlerOutput::StartLeader => self.start_leader(id, RobotLeader::new(id, true)),
                HandlerOutput::StartLeaderFromBackup(backup) => {
                    self.start_leader(id, RobotLeader::from_backup(id, true, backup))
                }
                HandlerOutput::CloseLeader
                | HandlerOutput::ClosePrevious
                | HandlerOutput::CloseNext
                | HandlerOutput::TakeNext { .. }
                | HandlerOutput::SendLeaderId { .. }
                | HandlerOutput::JoinRing => {}
            }
        }
    }

    fn manager_outputs(&mut self, id: usize, out: Vec<OrderManagerOutput>) {
        for output in out {
            match output {
                OrderManagerOutput::GetTokenBack(m) => {
                    self.mail.push_back(Mail::Handler(id, ToHandler::GetTokenBack(m)))
                }
                OrderManagerOutput::ScoopFlavor(m) => {
                    assert!(m.flavor_token.can_serve(m.amount));
                    self.scooped[m.flavor_token.get_id().index()] += m.amount;
                    let back = self.robots[id].preparer.scoop_flavor(m);
                    assert_eq!(back.delay_ms, m.amount as u64 * 10);
                    let msg = self.robots[id].preparer.return_token(back);
                    self.mail.push_back(Mail::Manager(id, ToManager::GetTokenBack(msg)));
                }
                OrderManagerOutput::OrderPrepared(m) => {
                    self.mail.push_back(Mail::Handler(id, ToHandler::OrderPrepared(m)))
                }
                OrderManagerOutput::OrderAborted(m) => {
                    self.mail.push_back(Mail::Handler(id, ToHandler::OrderAborted(m)))
                }
                OrderManagerOutput::SendTokenBackup(m) => {
                    self.mail.push_back(Mail::Handler(id, ToHandler::SendTokenBackup(m)))
                }
                OrderManagerOutput::StartTimer
                | OrderManagerOutput::ResetTimer
                | OrderManagerOutput::StopTimer => {}
            }
        }
    }

    fn leader_outputs(&mut self, id: usize, out: Vec<LeaderOutput>) {
        for output in out {
            match output {
                LeaderOutput::Listen | LeaderOutput::DropRobot { .. } | LeaderOutput::DropScreen { .. } => {}
                LeaderOutput::StartTokens(mut m) => {
                    if let Some((flavor, amount)) = self.first_amount_of {
                        for token in m.all_tokens.iter_mut() {
                            if token.get_id() == flavor {
                                *token = FlavorToken::new(flavor, amount);
                            }
                        }
                    }
                    self.mail.push_back(Mail::Handler(id, ToHandler::StartTokens(m)))
                }
                LeaderOutput::ConnectToScreen(m) => {
                    if self.screens_alive[m.screen_id] {
                        self.mail.push_back(Mail::Leader(
                            id,
                            ToLeader::AddNewScreen(AddNewScreen { screen_id: m.screen_id }),
                        ));
                    }
                }
                LeaderOutput::ConnectToRobot { robot_id } => {
                    match robot_announced(robot_id, self.robots[robot_id].alive) {
                        Announced::Connected(msg) => {
                            self.mail.push_back(Mail::Leader(id, ToLeader::AddNewRobot(msg)));
                            self.leader_link[robot_id] = Some(id);
                            self.mail.push_back(Mail::Handler(
                                robot_id,
                                ToHandler::AddNewLeader(AddNewLeader { leader_id: id }),
                            ));
                        }
                        Announced::Gone(msg) => {
                            self.mail.push_back(Mail::Leader(id, ToLeader::RobotDied(msg)));
                        }
                    }
                }
                LeaderOutput::SendNewOrder { robot_id, msg } => {
                    let record = LeaderToRobotConnection::new(robot_id).send_new_order(msg);
                    if let Some(FromLeader::GetNewOrder(m)) =
                        RobotToLeaderConnection::new().handle(record)
                    {
                        self.mail.push_back(Mail::Handler(robot_id, ToHandler::GetNewOrder(m)));
                    }
                }
                LeaderOutput::SendLeaderBackup { robots, msg } => {
                    for robot_id in robots {
                        let record = LeaderToRobotConnection::new(robot_id).send_leader_backup(
                            icecream_robots::messages::SendLeaderBackup { backup: msg.backup.clone() },
                        );
                        if let Some(FromLeader::StoreBackup(m)) =
                            RobotToLeaderConnection::new().handle(record)
                        {
                            self.mail.push_back(Mail::Handler(robot_id, ToHandler::StoreBackup(m)));
                        }
                    }
                }
                LeaderOutput::OrderPrepared { screen_id, msg } => {
                    let connection = LeaderToScreenConnection::new(screen_id);
                    if self.screens_alive[screen_id] {
                        self.inbox[screen_id].push(connection.order_prepared(&msg));
                    } else {
                        let keep = connection.prepared_not_sent(msg);
                        self.mail.push_back(Mail::Leader(id, ToLeader::AddOrderToBeSent(keep)));
                        let gone = connection.finished();
                        self.mail.push_back(Mail::Leader(id, ToLeader::ScreenDied(gone)));
                    }
                }
                LeaderOutput::OrderAborted { screen_id, msg } => {
                    let connection = LeaderToScreenConnection::new(screen_id);
                    if self.screens_alive[screen_id] {
                        self.inbox[screen_id].push(connection.order_aborted(&msg));
                    } else {
                        let keep = connection.aborted_not_sent(msg);
                        self.mail.push_back(Mail::Leader(id, ToLeader::AddOrderToBeSent(keep)));
                        let gone = connection.finished();
                        self.mail.push_back(Mail::Leader(id, ToLeader::ScreenDied(gone)));
                    }
                }
            }
        }
    }

    fn tokens_in_the_mail(&self, flavor: FlavorID) -> Vec<u32> {
        let mut found = Vec::new();
        for mail in &self.mail {
            let token = match mail {
                Mail::Handler(id, ToHandler::TransferToken(m)) if self.robots[*id].alive => {
                    Some(m.flavor_token)
                }
                Mail::Handler(id, ToHandler::GetTokenBack(m)) if self.robots[*id].alive => {
                    Some(m.flavor_token)
                }
                Mail::Manager(id, ToManager::TransferToken(m)) if self.robots[*id].alive => {
                    Some(m.flavor_token)
                }
                Mail::Manager(id, ToManager::GetTokenBack(m)) if self.robots[*id].alive => {
                    Some(m.flavor_token)
                }
                _ => None,
            };
            if let Some(token) = token {
                if token.get_id() == flavor {
                    found.push(token.get_amnt());
                }
            }
        }
        found
    }

    fn check_tokens(&self) {
        for index in 0..7 {
            let flavor = FlavorID::from_index(index).unwrap();
            let tokens = self.tokens_in_the_mail(flavor);
            assert!(tokens.len() <= 1, "{:?} has {} tokens", flavor, tokens.len());
            let on_token: u32 = tokens.iter().sum();
            assert!(on_token + self.scooped[index] <= initial_stock(flavor));
        }
    }
}

fn three_robots() -> World {
    let mut world = World::new(&[0]);
    world.start_robot(0);
    world.start_robot(1);
    world.start_robot(2);
    world
}

#[test]
fn happy_path() {
    let mut world = three_robots();
    assert_eq!(world.leader_id(), Some(0));
    assert_eq!(world.robots[0].handler.role(), Leadership::Leader { from_backup: false });
    assert_eq!(world.robots[1].handler.role(), Leadership::Follower);
    assert_eq!(world.robots[1].handler.leader_id(), 0);
    assert_eq!(world.robots[2].handler.leader_id(), 0);
    world.submit(0, "X", Order::new_cucurucho(FlavorID::Chocolate));
    assert!(world.run_until_answer(0, 500));
    assert_eq!(world.inbox[0], vec![RobotMessage::OrderPrepared { order_id: "X".to_string() }]);
    assert_eq!(world.tokens_in_the_mail(FlavorID::Chocolate), vec![1200 - 250]);
    assert_eq!(world.scooped[FlavorID::Chocolate.index()], 250);
    world.check_tokens();
    world.run(300);
    world.check_tokens();
    let backup = world.leader().backup();
    assert!(backup.orders_on_queue.is_empty());
    assert!(backup.robots_orders.is_empty());
    assert!(backup.orders_to_be_sent.is_empty());
}

#[test]
fn flavor_exhaustion() {
    let mut world = World::new(&[0]);
    world.first_amount_of = Some((FlavorID::Lemon, 100));
    world.start_robot(0);
    world.start_robot(1);
    world.submit(0, "L", Order::new_cucurucho(FlavorID::Lemon));
    assert!(world.run_until_answer(0, 500));
    match &world.inbox[0][0] {
        RobotMessage::OrderAborted { order_id, error } => {
            assert_eq!(order_id, "L");
            assert!(error.contains("Lemon"));
        }
        other => panic!("unexpected answer {:?}", other),
    }
    world.run(100);
    assert_eq!(world.tokens_in_the_mail(FlavorID::Lemon), vec![100]);
    assert_eq!(world.scooped[FlavorID::Lemon.index()], 0);
}

#[test]
fn leader_crash() {
    let mut world = World::new(&[0]);
    world.start_robot(2);
    world.start_robot(0);
    world.start_robot(1);
    assert_eq!(world.leader_id(), Some(2));
    world.submit(0, "A", Order::new_cucurucho(FlavorID::Vanilla));
    world.submit(0, "B", Order::new_cucurucho(FlavorID::Mint));
    world.submit(0, "C", Order::new_cucurucho(FlavorID::Lemon));
    for _ in 0..500 {
        if world.leader().backup().robots_orders.len() == 3 {
            break;
        }
        world.run(1);
    }
    let assigned: Vec<usize> =
        world.leader().backup().robots_orders.iter().map(|(robot, _)| *robot).collect();
    assert_eq!(assigned, vec![1, 0, 2]);
    for _ in 0..60 {
        let known = |id: usize| match world.robots[id].handler.has_valid_backup() {
            true => world.robots[id].manager.flavors_needed().len() == 1,
            false => false,
        };
        if known(0) && known(1) {
            break;
        }
        world.run(1);
    }
    assert!(world.robots[0].handler.has_valid_backup());
    assert!(world.robots[1].handler.has_valid_backup());
    world.kill_robot(2);
    for _ in 0..400 {
        if world.leader_id().is_some() {
            break;
        }
        world.run(1);
    }
    assert_eq!(world.leader_id(), Some(1));
    assert_eq!(world.robots[1].handler.role(), Leadership::Leader { from_backup: true });
    assert_ne!(world.robots[0].handler.role(), Leadership::Leader { from_backup: true });
    for round in 0..40 {
        if world.inbox[0].len() >= 3 {
            break;
        }
        world.run(400);
        if round % 4 == 3 {
            world.mail.push_back(Mail::Manager(0, ToManager::TimerWentOff));
        }
    }
    assert_eq!(world.robots[0].handler.leader_id(), 1);
    let mut answered: Vec<String> = world.inbox[0]
        .iter()
        .map(|record| match record {
            RobotMessage::OrderPrepared { order_id } => order_id.clone(),
            RobotMessage::OrderAborted { order_id, .. } => order_id.clone(),
        })
        .collect();
    answered.sort();
    answered.dedup();
    assert_eq!(answered, vec!["A".to_string(), "B".to_string(), "C".to_string()]);
    assert!(world
        .inbox[0]
        .iter()
        .all(|record| matches!(record, RobotMessage::OrderPrepared { .. })));
}

#[test]
fn token_loss() {
    let mut world = three_robots();
    world.lose_token_of = Some(FlavorID::Mint);
    world.run(400);
    assert!(world.lose_token_of.is_none());
    assert_eq!(world.tokens_in_the_mail(FlavorID::Mint), Vec::<u32>::new());
    world.submit(0, "M", Order::new_cucurucho(FlavorID::Mint));
    world.run(400);
    assert!(world.inbox[0].is_empty());
    let worker = (0..3)
        .find(|id| world.robots[*id].manager.flavors_needed() == vec![(FlavorID::Mint, 250)])
        .unwrap();
    world.mail.push_back(Mail::Manager(worker, ToManager::TimerWentOff));
    assert!(world.run_until_answer(0, 2000));
    assert_eq!(world.inbox[0], vec![RobotMessage::OrderPrepared { order_id: "M".to_string() }]);
    assert_eq!(world.tokens_in_the_mail(FlavorID::Mint), vec![4000 - 250]);
    world.check_tokens();
    world.run(300);
    world.check_tokens();
}

#[test]
fn screen_dropout_and_takeover() {
    let mut world = World::new(&[3, 4]);
    world.start_robot(0);
    world.start_robot(1);
    world.submit(3, "S", Order::new_cucurucho(FlavorID::Vanilla));
    world.submit(3, "T", Order::new_cucurucho(FlavorID::Vanilla));
    world.submit(3, "U", Order::new_cucurucho(FlavorID::Vanilla));
    world.run(4);
    world.kill_screen(3);
    for _ in 0..3000 {
        if !world.leader().backup().orders_to_be_sent.is_empty() {
            break;
        }
        world.run(1);
    }
    let backup = world.leader().backup();
    assert_eq!(backup.orders_to_be_sent.len(), 1);
    assert_eq!(backup.orders_to_be_sent[0].screen_id, 3);
    assert!(backup.orders_to_be_sent[0].flavor.is_none());
    let waiting = backup.orders_to_be_sent[0].id.clone();
    assert!(world.inbox[3].is_empty());
    world.screen_sends(4, ScreenMessage::GiveMeThisScreenOrders { my_id: 4, death_id: 3 });
    for _ in 0..200 {
        if !world.inbox[4].is_empty() {
            break;
        }
        world.run(1);
    }
    assert_eq!(world.inbox[4][0], RobotMessage::OrderPrepared { order_id: waiting });
    let backup = world.leader().backup();
    assert!(backup.orders_on_queue.iter().all(|order| order.screen_id == 4));
    assert!(backup.robots_orders.iter().all(|(_, order)| order.screen_id == 4));
    for _ in 0..6000 {
        if world.inbox[4].len() == 3 {
            break;
        }
        world.run(1);
    }
    let mut answered: Vec<String> = world.inbox[4]
        .iter()
        .map(|record| match record {
            RobotMessage::OrderPrepared { order_id } => order_id.clone(),
            RobotMessage::OrderAborted { order_id, .. } => order_id.clone(),
        })
        .collect();
    answered.sort();
    assert_eq!(answered, vec!["S".to_string(), "T".to_string(), "U".to_string()]);
}

#[test]
fn solo_node() {
    let mut world = World::new(&[0]);
    world.start_robot(0);
    assert_eq!(world.leader_id(), Some(0));
    assert_eq!(world.robots[0].handler.role(), Leadership::Leader { from_backup: false });
    for index in 0..7 {
        let flavor = FlavorID::from_index(index).unwrap();
        assert_eq!(world.robots[0].manager.last_seen(flavor), Some(initial_stock(flavor)));
    }
    world.submit(0, "V", Order::new_cucurucho(FlavorID::Vanilla));
    assert!(world.run_until_answer(0, 500));
    assert_eq!(world.inbox[0], vec![RobotMessage::OrderPrepared { order_id: "V".to_string() }]);
    assert_eq!(world.tokens_in_the_mail(FlavorID::Vanilla), vec![3750]);
    world.check_tokens();
}

#[test]
fn every_token_has_one_holder_through_a_busy_run() {
    let mut world = three_robots();
    let flavors = [FlavorID::Vanilla, FlavorID::Mint, FlavorID::Lemon, FlavorID::Chocolate];
    for (i, flavor) in flavors.iter().enumerate() {
        world.submit(0, &format!("o{}", i), Order::new_cucurucho(*flavor));
    }
    world.submit(
        0,
        "big",
        Order::new_kilo(vec![
            FlavorID::Vanilla,
            FlavorID::Mint,
            FlavorID::Pistachio,
            FlavorID::Strawberry,
        ])
        .unwrap(),
    );
    for _ in 0..3000 {
        world.run(1);
        world.check_tokens();
        if world.inbox[0].len() == 5 {
            break;
        }
    }
    assert_eq!(world.inbox[0].len(), 5);
    assert!(world
        .inbox[0]
        .iter()
        .all(|record| matches!(record, RobotMessage::OrderPrepared { .. })));
    assert_eq!(world.scooped[FlavorID::Vanilla.index()], 500);
    assert_eq!(world.tokens_in_the_mail(FlavorID::Vanilla), vec![3500]);
    assert!(world.steps > 0);
}
