//! The order preparer of a robot: it scoops, which takes time.

use crate::config::SCOOP_TIME_FACTOR;
use crate::flavor_token::FlavorToken;
use crate::messages::{GetTokenBack, ScoopFlavor};
use vstd::prelude::*;

verus! {

/// The order preparer. It keeps nothing between two scoops.
#[derive(Debug, PartialEq, Eq, Structural, Clone, Copy)]
pub struct OrderPreparer {}

/// A token on its way back to the order manager, and the milliseconds
/// after which it is to be handed over.
#[derive(Debug, PartialEq, Eq, Structural, Clone, Copy)]
pub struct ReturnToken {
    pub token: FlavorToken,
    pub delay_ms: u64,
}

/// Milliseconds it takes to scoop `grams`.
pub open spec fn spec_scoop_time_ms(grams: u32) -> nat {
    (grams * 10) as nat
}

impl OrderPreparer {
    /// An order preparer.
    pub fn new() -> (preparer: OrderPreparer)
        ensures
            preparer == (OrderPreparer {  }),
    {
        OrderPreparer {  }
    }

    /// Scoops `msg.amount` grams: the token goes back with that much less,
    /// after the time the scooping takes.
    pub fn scoop_flavor(&self, msg: ScoopFlavor) -> (back: ReturnToken)
        requires
            msg.amount <= msg.flavor_token.spec_amount(),
        ensures
            back.token == msg.flavor_token.spec_serve(msg.amount),
            back.delay_ms == spec_scoop_time_ms(msg.amount),
    {
        let mut flavor = msg.flavor_token;
        flavor.serve(msg.amount);
        let factor: u64 = SCOOP_TIME_FACTOR as u64;
        assert(factor == 10);
        ReturnToken { token: flavor, delay_ms: msg.amount as u64 * factor }
    }

    /// Hands the token back once the scooping time is over.
    pub fn return_token(&self, back: ReturnToken) -> (msg: GetTokenBack)
        ensures
            msg.flavor_token == back.token,
    {
        GetTokenBack { flavor_token: back.token }
    }
}

} // verus!
