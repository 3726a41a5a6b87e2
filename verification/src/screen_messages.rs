//! What a screen tells the leader, or another screen.

use crate::order::Order;
use std::collections::HashMap;
use vstd::prelude::*;

verus! {

/// Why a record from a screen could not be read or written.
#[derive(Debug, PartialEq, Eq, Clone)]
pub enum ScreenMessageError {
    ErrorParsing(String),
}

/// A record from a screen.
#[derive(Debug, PartialEq, Eq, Clone)]
pub enum ScreenMessage {
    PrepareNewOrder { screen_id: usize, order_id: String, order: Order },
    TakeMyBackup {
        orders_to_process: Vec<Order>,
        orders_processing: HashMap<String, Order>,
        orders_pending_to_send: Vec<(String, Order)>,
        id_backup: usize,
    },
    RequestRobotLeaderConnection { screen_id: usize },
    GiveMeThisScreenOrders { my_id: usize, death_id: usize },
}

} // verus!
