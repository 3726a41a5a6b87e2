//! The messages that the parts of a robot send each other, and the records
//! that robots send each other over the wire.

use crate::flavor_id::FlavorID;
use crate::flavor_token::FlavorToken;
use crate::leader_backup::{LeaderBackup, LeaderBackupView};
use crate::order::{Order, OrderView};
use crate::token_backup::TokenBackup;
use vstd::prelude::*;

verus! {

/// Why a wire record could not be read or written.
#[derive(Debug, PartialEq, Eq, Clone)]
pub enum RobotCommandError {
    ErrorParsing(String),
}

/// A record on the wire between two robots, or between a robot and the leader.
#[derive(Debug, PartialEq, Eq, Clone)]
pub enum RobotCommand {
    NewRobot,
    NewPreviousRobot,
    GetLeaderId,
    ReceiveLeaderBackup { backup: LeaderBackup },
    NewNextRobot { next_robot: usize },
    TokenMessage { token: FlavorToken },
    TokenBackupMsg { token_backup: TokenBackup },
    NewLeader { leader: usize },
    NewElection { candidates: Vec<(usize, bool)> },
    NewOrder { order: Order, order_id: String },
    OrderComplete { result: bool, order_id: String },
    OrderNotFinished { result: bool, order_id: String, flavor: FlavorID },
}

/// What a `RobotCommand` is, mathematically.
pub enum RobotCommandView {
    NewRobot,
    NewPreviousRobot,
    GetLeaderId,
    ReceiveLeaderBackup { backup: LeaderBackupView },
    NewNextRobot { next_robot: usize },
    TokenMessage { token: FlavorToken },
    TokenBackupMsg { token_backup: TokenBackup },
    NewLeader { leader: usize },
    NewElection { candidates: Seq<(usize, bool)> },
    NewOrder { order: OrderView, order_id: Seq<char> },
    OrderComplete { result: bool, order_id: Seq<char> },
    OrderNotFinished { result: bool, order_id: Seq<char>, flavor: FlavorID },
}

impl View for RobotCommand {
    type V = RobotCommandView;

    open spec fn view(&self) -> RobotCommandView {
        match *self {
            RobotCommand::NewRobot => RobotCommandView::NewRobot,
            RobotCommand::NewPreviousRobot => RobotCommandView::NewPreviousRobot,
            RobotCommand::GetLeaderId => RobotCommandView::GetLeaderId,
            RobotCommand::ReceiveLeaderBackup { backup } => RobotCommandView::ReceiveLeaderBackup {
                backup: backup@,
            },
            RobotCommand::NewNextRobot { next_robot } => RobotCommandView::NewNextRobot {
                next_robot,
            },
            RobotCommand::TokenMessage { token } => RobotCommandView::TokenMessage { token },
            RobotCommand::TokenBackupMsg { token_backup } => RobotCommandView::TokenBackupMsg {
                token_backup,
            },
            RobotCommand::NewLeader { leader } => RobotCommandView::NewLeader { leader },
            RobotCommand::NewElection { candidates } => RobotCommandView::NewElection {
                candidates: candidates@,
            },
            RobotCommand::NewOrder { order, order_id } => RobotCommandView::NewOrder {
                order: order@,
                order_id: order_id@,
            },
            RobotCommand::OrderComplete { result, order_id } => RobotCommandView::OrderComplete {
                result,
                order_id: order_id@,
            },
            RobotCommand::OrderNotFinished {
                result,
                order_id,
                flavor,
            } => RobotCommandView::OrderNotFinished { result, order_id: order_id@, flavor },
        }
    }
}

impl DeepView for RobotCommand {
    type V = RobotCommandView;

    open spec fn deep_view(&self) -> RobotCommandView {
        self@
    }
}

/// To the leader: connect to this screen.
#[derive(Debug, PartialEq, Eq, Structural, Clone, Copy)]
pub struct ConnectToScreen {
    pub screen_id: usize,
}

/// To a robot: a recovery probe has come in.
#[derive(Debug, PartialEq, Eq, Structural, Clone, Copy)]
pub struct GetTokenBackup {
    pub token_backup: TokenBackup,
}

/// To the connection handler: send this recovery probe on.
#[derive(Debug, PartialEq, Eq, Structural, Clone, Copy)]
pub struct SendTokenBackup {
    pub token_backup: TokenBackup,
}

/// The first token of a flavor, for one robot.
#[derive(Debug, PartialEq, Eq, Structural, Clone, Copy)]
pub struct SendFirstToken {
    pub flavor_id: FlavorID,
    pub amount: u32,
    pub robot_id: usize,
}

/// To the order manager: the wait for a token ran out.
#[derive(Debug, PartialEq, Eq, Structural, Clone, Copy)]
pub struct TimerWentOff();

/// To the leader: the connection to this screen is gone.
#[derive(Debug, PartialEq, Eq, Structural, Clone, Copy)]
pub struct ScreenDied {
    pub screen_id: usize,
}

/// To the leader: one screen takes over the orders of another.
#[derive(Debug, PartialEq, Eq, Structural, Clone, Copy)]
pub struct ChangeScreen {
    pub original_screen_id: usize,
    pub new_screen_id: usize,
}

/// To the connection handler: keep this snapshot of the leader's state.
#[derive(Debug, PartialEq, Eq, Clone)]
pub struct StoreBackup {
    pub backup: LeaderBackup,
}

/// To a leader-to-robot connection: send this snapshot to the robot.
#[derive(Debug, PartialEq, Eq, Clone)]
pub struct SendLeaderBackup {
    pub backup: LeaderBackup,
}

/// To the leader: a connection to this screen stands.
#[derive(Debug, PartialEq, Eq, Structural, Clone, Copy)]
pub struct AddNewScreen {
    pub screen_id: usize,
}

/// To the leader: give out the next order if that can be done.
#[derive(Debug, PartialEq, Eq, Structural, Clone, Copy)]
pub struct AssignNewOrder();

/// To the connection handler: the leader is gone, open a ballot.
#[derive(Debug, PartialEq, Eq, Structural, Clone, Copy)]
pub struct StartElection();

/// To the leader: a screen asks for a connection to this screen.
#[derive(Debug, PartialEq, Eq, Structural, Clone, Copy)]
pub struct ConnectToNewScreen {
    pub screen_id: usize,
}

/// To the connection handler: a ballot has come in.
#[derive(Debug, PartialEq, Eq, Clone)]
pub struct ReceiveNewElection {
    pub candidates: Vec<(usize, bool)>,
}

/// To the connection handler: this robot is the leader now.
#[derive(Debug, PartialEq, Eq, Structural, Clone, Copy)]
pub struct SetNewLeader {
    pub leader_id: usize,
    pub by_election: bool,
}

/// To the connection handler: the new leader has connected.
#[derive(Debug, PartialEq, Eq, Structural, Clone, Copy)]
pub struct AddNewLeader {
    pub leader_id: usize,
}

/// To the connection handler: an election has named this leader.
#[derive(Debug, PartialEq, Eq, Structural, Clone, Copy)]
pub struct NewLeaderElected {
    pub leader_id: usize,
}

/// To the leader: a connection to this robot stands. `asked` says that the
/// leader opened it, not the robot.
#[derive(Debug, PartialEq, Eq, Structural, Clone, Copy)]
pub struct AddNewRobot {
    pub robot_id: usize,
    pub asked: bool,
}

/// To the order preparer: scoop `amount` grams with this token.
#[derive(Debug, PartialEq, Eq, Structural, Clone, Copy)]
pub struct ScoopFlavor {
    pub flavor_token: FlavorToken,
    pub amount: u32,
}

/// A token handed over to be used or passed on.
#[derive(Debug, PartialEq, Eq, Structural, Clone, Copy)]
pub struct TransferToken {
    pub flavor_token: FlavorToken,
}

/// A token handed back after use.
#[derive(Debug, PartialEq, Eq, Structural, Clone, Copy)]
pub struct GetTokenBack {
    pub flavor_token: FlavorToken,
}

/// To the order manager: give up the order at hand.
#[derive(Debug, PartialEq, Eq, Structural, Clone, Copy)]
pub struct AbortCurrentOrder {}

/// An order has been prepared.
#[derive(Debug, PartialEq, Eq, Clone)]
pub struct OrderPrepared {
    pub order_result: bool,
    pub id: String,
}

/// An order has been given up for want of a flavor.
#[derive(Debug, PartialEq, Eq, Clone)]
pub struct OrderAborted {
    pub order_result: bool,
    pub id: String,
    pub flavor: FlavorID,
}

/// To a robot: prepare this order.
#[derive(Debug, PartialEq, Eq, Clone)]
pub struct GetNewOrder {
    pub new_order: Order,
    pub id: String,
}

/// To the leader: a screen has sent this order.
#[derive(Debug, PartialEq, Eq, Clone)]
pub struct CreateNewOrder {
    pub new_order: Order,
    pub id: String,
    pub screen_id: usize,
}

/// To a leader-to-robot connection: send this order to the robot.
#[derive(Debug, PartialEq, Eq, Clone)]
pub struct SendNewOrder {
    pub new_order: Order,
    pub order_id: String,
}

/// To the leader: this robot has prepared its order.
#[derive(Debug, PartialEq, Eq, Clone)]
pub struct GetCompletedOrder {
    pub order_result: bool,
    pub order_id: String,
    pub robot_id: usize,
}

/// To the leader: this robot has given up its order for want of a flavor.
#[derive(Debug, PartialEq, Eq, Clone)]
pub struct GetAbortedOrder {
    pub order_result: bool,
    pub order_id: String,
    pub robot_id: usize,
    pub flavor: FlavorID,
}

/// To the leader: keep this result until a screen can take it.
#[derive(Debug, PartialEq, Eq, Clone)]
pub struct AddOrderToBeSent {
    pub order_result: bool,
    pub id: String,
    pub screen_id: usize,
    pub flavor: Option<FlavorID>,
}

/// To the leader: the connection to this robot is gone.
#[derive(Debug, PartialEq, Eq, Structural, Clone, Copy)]
pub struct RobotDied {
    pub robot_id: usize,
}

/// To the connection handler: find the neighbours and the leader.
#[derive(Debug, PartialEq, Eq, Structural, Clone, Copy)]
pub struct JoinRing();

/// To the connection handler: put these first tokens into the ring.
#[derive(Debug, PartialEq, Eq, Clone)]
pub struct StartTokens {
    pub all_tokens: Vec<FlavorToken>,
}

/// To the connection handler: a connection from the previous robot stands.
/// `asked` says that this robot opened it.
#[derive(Debug, PartialEq, Eq, Structural, Clone, Copy)]
pub struct AddPreviousRobot {
    pub asked: bool,
}

/// To the connection handler: a connection to this next robot stands.
#[derive(Debug, PartialEq, Eq, Structural, Clone, Copy)]
pub struct AddNextRobot {
    pub robot_id: usize,
}

/// To a connection: close.
#[derive(Debug, PartialEq, Eq, Structural, Clone, Copy)]
pub struct Harakiri();

} // verus!
