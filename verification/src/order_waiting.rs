//! A result that could not be handed to its screen yet.

use crate::flavor_id::FlavorID;
use vstd::prelude::*;

verus! {

/// The result of an order whose screen could not be reached. `flavor` is
/// the flavor that ran short where the order was aborted, and `None` where
/// it was prepared.
#[derive(PartialEq, Eq, Debug)]
pub struct OrderWaiting {
    pub order_result: bool,
    pub id: String,
    pub screen_id: usize,
    pub flavor: Option<FlavorID>,
}

/// What an `OrderWaiting` is, mathematically.
pub struct OrderWaitingView {
    pub order_result: bool,
    pub id: Seq<char>,
    pub screen_id: usize,
    pub flavor: Option<FlavorID>,
}

impl View for OrderWaiting {
    type V = OrderWaitingView;

    open spec fn view(&self) -> OrderWaitingView {
        OrderWaitingView {
            order_result: self.order_result,
            id: self.id@,
            screen_id: self.screen_id,
            flavor: self.flavor,
        }
    }
}

impl DeepView for OrderWaiting {
    type V = OrderWaitingView;

    open spec fn deep_view(&self) -> OrderWaitingView {
        self@
    }
}

impl Clone for OrderWaiting {
    fn clone(&self) -> (r: OrderWaiting)
        ensures
            r@ == self@,
    {
        OrderWaiting {
            order_result: self.order_result,
            id: self.id.clone(),
            screen_id: self.screen_id,
            flavor: self.flavor,
        }
    }
}

} // verus!
