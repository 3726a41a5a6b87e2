//! An order together with its id and the screen it came from.

use crate::order::{Order, OrderView};
use vstd::prelude::*;

verus! {

/// An order as the leader keeps it: the order, its id and the screen that
/// is to hear of its result.
#[derive(PartialEq, Eq, Debug)]
pub struct OrderInfo {
    pub order: Order,
    pub order_id: String,
    pub screen_id: usize,
}

/// What an `OrderInfo` is, mathematically.
pub struct OrderInfoView {
    pub order: OrderView,
    pub order_id: Seq<char>,
    pub screen_id: usize,
}

impl OrderInfoView {
    /// The same order, to be answered to another screen: `new_screen` where
    /// it was `old_screen`, unchanged otherwise.
    pub open spec fn moved(self, old_screen: usize, new_screen: usize) -> OrderInfoView {
        if self.screen_id == old_screen {
            OrderInfoView { order: self.order, order_id: self.order_id, screen_id: new_screen }
        } else {
            self
        }
    }
}

impl View for OrderInfo {
    type V = OrderInfoView;

    open spec fn view(&self) -> OrderInfoView {
        OrderInfoView { order: self.order@, order_id: self.order_id@, screen_id: self.screen_id }
    }
}

impl DeepView for OrderInfo {
    type V = OrderInfoView;

    open spec fn deep_view(&self) -> OrderInfoView {
        self@
    }
}

impl Clone for OrderInfo {
    fn clone(&self) -> (r: OrderInfo)
        ensures
            r@ == self@,
    {
        OrderInfo {
            order: self.order.clone(),
            order_id: self.order_id.clone(),
            screen_id: self.screen_id,
        }
    }
}

impl OrderInfo {
    /// A copy of the order that is to be answered to `new_screen` where it
    /// was to be answered to `old_screen`.
    pub fn moved(&self, old_screen: usize, new_screen: usize) -> (r: OrderInfo)
        ensures
            r@ == self@.moved(old_screen, new_screen),
    {
        OrderInfo {
            order: self.order.clone(),
            order_id: self.order_id.clone(),
            screen_id: if self.screen_id == old_screen {
                new_screen
            } else {
                self.screen_id
            },
        }
    }
}

} // verus!
