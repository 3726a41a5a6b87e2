//! The four kinds of connection: what each makes of a record that comes
//! in, and which record each writes for a message it is given.

use crate::messages::{
    AddOrderToBeSent, ChangeScreen, ConnectToNewScreen, CreateNewOrder, GetAbortedOrder,
    GetCompletedOrder, GetNewOrder, GetTokenBackup, NewLeaderElected, OrderAborted,
    OrderPrepared, ReceiveNewElection, RobotCommand, RobotDied, ScreenDied, SendLeaderBackup,
    SendNewOrder, StartElection, StoreBackup, TransferToken,
};
use crate::robot_messages::{abort_reason, spec_abort_reason, RobotMessage};
use crate::screen_messages::ScreenMessage;
use vstd::prelude::*;
use vstd::string::*;

verus! {

/// A record as it goes over the wire: its text and a line feed.
pub fn frame(text: String) -> (line: String)
    ensures
        line@ == text@ + seq!['\n'],
{
    let mut line = text;
    line.append("\n");
    proof {
        reveal_strlit("\n");
        assert("\n"@ =~= seq!['\n']);
    }
    line
}

/// What the leader is told by one of its connections to a robot.
#[derive(Debug, PartialEq, Eq, Clone)]
pub enum FromRobot {
    GetCompletedOrder(GetCompletedOrder),
    GetAbortedOrder(GetAbortedOrder),
}

/// The leader's end of its connection to one robot.
#[derive(Debug, PartialEq, Eq, Structural, Clone, Copy)]
pub struct LeaderToRobotConnection {
    pub my_id: usize,
}

impl LeaderToRobotConnection {
    /// The connection to robot `my_id`.
    pub fn new(my_id: usize) -> (connection: LeaderToRobotConnection)
        ensures
            connection.my_id == my_id,
    {
        Self { my_id }
    }

    /// The record that gives the robot an order.
    pub fn send_new_order(&self, msg: SendNewOrder) -> (record: RobotCommand)
        ensures
            record == (RobotCommand::NewOrder { order: msg.new_order, order_id: msg.order_id }),
    {
        RobotCommand::NewOrder { order: msg.new_order, order_id: msg.order_id }
    }

    /// The record that gives the robot a snapshot of the leader's state.
    pub fn send_leader_backup(&self, msg: SendLeaderBackup) -> (record: RobotCommand)
        ensures
            record == (RobotCommand::ReceiveLeaderBackup { backup: msg.backup }),
    {
        RobotCommand::ReceiveLeaderBackup { backup: msg.backup }
    }

    /// What the leader is told of a record from the robot: that its
    /// order is ready, or given up; of any other record, nothing.
    pub fn handle(&self, record: RobotCommand) -> (told: Option<FromRobot>)
        ensures
            told == match record {
                RobotCommand::OrderComplete { result, order_id } => Some(
                    FromRobot::GetCompletedOrder(
                        GetCompletedOrder { order_result: result, order_id, robot_id: self.my_id },
                    ),
                ),
                RobotCommand::OrderNotFinished { result, order_id, flavor } => Some(
                    FromRobot::GetAbortedOrder(
                        GetAbortedOrder {
                            order_result: result,
                            order_id,
                            robot_id: self.my_id,
                            flavor,
                        },
                    ),
                ),
                _ => None,
            },
    {
        match record {
            RobotCommand::OrderComplete { result, order_id } => Some(
                FromRobot::GetCompletedOrder(
                    GetCompletedOrder { order_result: result, order_id, robot_id: self.my_id },
                ),
            ),
            RobotCommand::OrderNotFinished { result, order_id, flavor } => Some(
                FromRobot::GetAbortedOrder(
                    GetAbortedOrder { order_result: result, order_id, robot_id: self.my_id, flavor },
                ),
            ),
            _ => None,
        }
    }

    /// What the leader is told when the connection ends.
    pub fn finished(&self) -> (told: RobotDied)
        ensures
            told.robot_id == self.my_id,
    {
        RobotDied { robot_id: self.my_id }
    }
}

/// What the leader is told by one of its connections to a screen.
#[derive(Debug, PartialEq, Eq, Clone)]
pub enum FromScreen {
    CreateNewOrder(CreateNewOrder),
    ConnectToNewScreen(ConnectToNewScreen),
    ChangeScreen(ChangeScreen),
}

/// The leader's end of its connection to one screen.
#[derive(Debug, PartialEq, Eq, Structural, Clone, Copy)]
pub struct LeaderToScreenConnection {
    pub screen_id: usize,
}

impl LeaderToScreenConnection {
    /// The connection to screen `screen_id`.
    pub fn new(screen_id: usize) -> (connection: LeaderToScreenConnection)
        ensures
            connection.screen_id == screen_id,
    {
        Self { screen_id }
    }

    /// What the leader is told of a record from the screen: a new order,
    /// the wish for a connection to another screen, or that the screen
    /// takes over from another; of a screen's own backup, nothing.
    pub fn handle(&self, record: ScreenMessage) -> (told: Option<FromScreen>)
        ensures
            told == match record {
                ScreenMessage::PrepareNewOrder { screen_id, order_id, order } => Some(
                    FromScreen::CreateNewOrder(
                        CreateNewOrder { new_order: order, id: order_id, screen_id },
                    ),
                ),
                ScreenMessage::RequestRobotLeaderConnection { screen_id } => Some(
                    FromScreen::ConnectToNewScreen(ConnectToNewScreen { screen_id }),
                ),
                ScreenMessage::GiveMeThisScreenOrders { my_id, death_id } => Some(
                    FromScreen::ChangeScreen(
                        ChangeScreen { original_screen_id: death_id, new_screen_id: my_id },
                    ),
                ),
                ScreenMessage::TakeMyBackup { .. } => None,
            },
    {
        match record {
            ScreenMessage::PrepareNewOrder { screen_id, order_id, order } => Some(
                FromScreen::CreateNewOrder(
                    CreateNewOrder { new_order: order, id: order_id, screen_id },
                ),
            ),
            ScreenMessage::RequestRobotLeaderConnection { screen_id } => Some(
                FromScreen::ConnectToNewScreen(ConnectToNewScreen { screen_id }),
            ),
            ScreenMessage::GiveMeThisScreenOrders { my_id, death_id } => Some(
                FromScreen::ChangeScreen(
                    ChangeScreen { original_screen_id: death_id, new_screen_id: my_id },
                ),
            ),
            ScreenMessage::TakeMyBackup { .. } => None,
        }
    }

    /// What the leader is told when the connection ends.
    pub fn finished(&self) -> (told: ScreenDied)
        ensures
            told.screen_id == self.screen_id,
    {
        ScreenDied { screen_id: self.screen_id }
    }

    /// The record that tells the screen that an order is ready.
    pub fn order_prepared(&self, msg: &OrderPrepared) -> (record: RobotMessage)
        ensures
            record matches RobotMessage::OrderPrepared { order_id } && order_id@ == msg.id@,
    {
        RobotMessage::OrderPrepared { order_id: msg.id.clone() }
    }

    /// The record that tells the screen that an order was given up, and why.
    pub fn order_aborted(&self, msg: &OrderAborted) -> (record: RobotMessage)
        ensures
            record matches RobotMessage::OrderAborted { order_id, error } && order_id@ == msg.id@
                && error@ == spec_abort_reason(msg.flavor),
    {
        RobotMessage::OrderAborted { order_id: msg.id.clone(), error: abort_reason(msg.flavor) }
    }

    /// What the leader is told when the word that an order is ready could
    /// not be written to the screen: to keep the result.
    pub fn prepared_not_sent(&self, msg: OrderPrepared) -> (told: AddOrderToBeSent)
        ensures
            told == (AddOrderToBeSent {
                order_result: msg.order_result,
                id: msg.id,
                screen_id: self.screen_id,
                flavor: None,
            }),
    {
        AddOrderToBeSent {
            order_result: msg.order_result,
            id: msg.id,
            screen_id: self.screen_id,
            flavor: None,
        }
    }

    /// What the leader is told when the word that an order was given up
    /// could not be written to the screen: to keep the result.
    pub fn aborted_not_sent(&self, msg: OrderAborted) -> (told: AddOrderToBeSent)
        ensures
            told == (AddOrderToBeSent {
                order_result: msg.order_result,
                id: msg.id,
                screen_id: self.screen_id,
                flavor: Some(msg.flavor),
            }),
    {
        AddOrderToBeSent {
            order_result: msg.order_result,
            id: msg.id,
            screen_id: self.screen_id,
            flavor: Some(msg.flavor),
        }
    }
}

/// What a robot is told by its connection to the leader.
#[derive(Debug, PartialEq, Eq, Clone)]
pub enum FromLeader {
    GetNewOrder(GetNewOrder),
    StoreBackup(StoreBackup),
}

/// A robot's end of its connection to the leader.
#[derive(Debug, PartialEq, Eq, Structural, Clone, Copy)]
pub struct RobotToLeaderConnection {}

impl RobotToLeaderConnection {
    /// A connection to the leader.
    pub fn new() -> (connection: RobotToLeaderConnection)
        ensures
            connection == (RobotToLeaderConnection {  }),
    {
        Self {  }
    }

    /// The record that tells the leader that the order is ready.
    pub fn order_prepared(&self, msg: &OrderPrepared) -> (record: RobotCommand)
        ensures
            record matches RobotCommand::OrderComplete { result, order_id } && result
                == msg.order_result && order_id@ == msg.id@,
    {
        RobotCommand::OrderComplete { result: msg.order_result, order_id: msg.id.clone() }
    }

    /// The record that tells the leader that the order was given up.
    pub fn order_aborted(&self, msg: &OrderAborted) -> (record: RobotCommand)
        ensures
            record matches RobotCommand::OrderNotFinished { result, order_id, flavor } && result
                == msg.order_result && order_id@ == msg.id@ && flavor == msg.flavor,
    {
        RobotCommand::OrderNotFinished {
            result: msg.order_result,
            order_id: msg.id.clone(),
            flavor: msg.flavor,
        }
    }

    /// What the robot is told of a record from the leader: a new order,
    /// or a snapshot to keep; of any other record, nothing.
    pub fn handle(&self, record: RobotCommand) -> (told: Option<FromLeader>)
        ensures
            told == match record {
                RobotCommand::NewOrder { order, order_id } => Some(
                    FromLeader::GetNewOrder(GetNewOrder { new_order: order, id: order_id }),
                ),
                RobotCommand::ReceiveLeaderBackup { backup } => Some(
                    FromLeader::StoreBackup(StoreBackup { backup }),
                ),
                _ => None,
            },
    {
        match record {
            RobotCommand::NewOrder { order, order_id } => Some(
                FromLeader::GetNewOrder(GetNewOrder { new_order: order, id: order_id }),
            ),
            RobotCommand::ReceiveLeaderBackup { backup } => Some(
                FromLeader::StoreBackup(StoreBackup { backup }),
            ),
            _ => None,
        }
    }

    /// What the robot is told when the connection ends: to open a ballot.
    pub fn finished(&self) -> (told: StartElection)
        ensures
            told == StartElection(),
    {
        StartElection()
    }
}

/// What a robot is told by the connection from its previous robot.
#[derive(Debug, PartialEq, Eq, Clone)]
pub enum FromRing {
    TransferToken(TransferToken),
    GetTokenBackup(GetTokenBackup),
    NewLeaderElected(NewLeaderElected),
    ReceiveNewElection(ReceiveNewElection),
}

/// A robot's end of the connection from its previous robot.
#[derive(Debug, PartialEq, Eq, Structural, Clone, Copy)]
pub struct RobotToRobotConnection {}

impl RobotToRobotConnection {
    /// A connection from the previous robot.
    pub fn new() -> (connection: RobotToRobotConnection)
        ensures
            connection == (RobotToRobotConnection {  }),
    {
        Self {  }
    }

    /// What the robot is told of a record from the ring: a token, a
    /// probe, the name of a new leader, or a ballot; of any other
    /// record, nothing.
    pub fn handle(&self, record: RobotCommand) -> (told: Option<FromRing>)
        ensures
            told == match record {
                RobotCommand::TokenMessage { token } => Some(
                    FromRing::TransferToken(TransferToken { flavor_token: token }),
                ),
                RobotCommand::TokenBackupMsg { token_backup } => Some(
                    FromRing::GetTokenBackup(GetTokenBackup { token_backup }),
                ),
                RobotCommand::NewLeader { leader } => Some(
                    FromRing::NewLeaderElected(NewLeaderElected { leader_id: leader }),
                ),
                RobotCommand::NewElection { candidates } => Some(
                    FromRing::ReceiveNewElection(ReceiveNewElection { candidates }),
                ),
                _ => None,
            },
    {
        match record {
            RobotCommand::TokenMessage { token } => Some(
                FromRing::TransferToken(TransferToken { flavor_token: token }),
            ),
            RobotCommand::TokenBackupMsg { token_backup } => Some(
                FromRing::GetTokenBackup(GetTokenBackup { token_backup }),
            ),
            RobotCommand::NewLeader { leader } => Some(
                FromRing::NewLeaderElected(NewLeaderElected { leader_id: leader }),
            ),
            RobotCommand::NewElection { candidates } => Some(
                FromRing::ReceiveNewElection(ReceiveNewElection { candidates }),
            ),
            _ => None,
        }
    }
}

} // verus!
