//! What the leader tells a screen about an order.

use crate::flavor_id::FlavorID;
use vstd::prelude::*;
use vstd::string::*;

verus! {

/// Why a record for a screen could not be read or written.
#[derive(Debug, PartialEq, Eq, Clone)]
pub enum RobotMessageError {
    ErrorParsing(String),
}

/// A record from the leader to a screen.
#[derive(Debug, PartialEq, Eq, Clone)]
pub enum RobotMessage {
    OrderPrepared { order_id: String },
    OrderAborted { order_id: String, error: String },
}

/// The text that tells a screen which flavor ran short.
pub open spec fn spec_abort_reason(flavor: FlavorID) -> Seq<char> {
    "Order Aborted because of insuficient amount of: "@ + flavor.spec_name()
}

/// The text that tells a screen which flavor ran short.
pub fn abort_reason(flavor: FlavorID) -> (text: String)
    ensures
        text@ == spec_abort_reason(flavor),
{
    let mut text = String::from_str("Order Aborted because of insuficient amount of: ");
    text.append(flavor.as_str());
    text
}

} // verus!
