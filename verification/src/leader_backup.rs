//! The snapshot of the leader's state that every follower keeps.

use crate::order_info::{OrderInfo, OrderInfoView};
use crate::order_waiting::{OrderWaiting, OrderWaitingView};
use crate::views::{lemma_views_push, views};
use std::collections::VecDeque;
use vstd::prelude::*;

verus! {

/// The leader's dispatch state, as it is sent to the followers. With it a
/// follower can take over where the leader stopped.
#[derive(PartialEq, Eq, Debug)]
pub struct LeaderBackup {
    /// The idle robots; the last one is the next to get an order.
    pub available_robots: Vec<usize>,
    /// The orders not yet given to a robot; the first one is the next to go.
    pub orders_on_queue: VecDeque<OrderInfo>,
    /// The orders being prepared, each with the robot that has it.
    pub robots_orders: Vec<(usize, OrderInfo)>,
    /// The screens the leader is connected to.
    pub screens: Vec<usize>,
    /// The results that wait for a screen that can take them.
    pub orders_to_be_sent: Vec<OrderWaiting>,
}

/// What a `LeaderBackup` is, mathematically.
pub struct LeaderBackupView {
    pub available_robots: Seq<usize>,
    pub orders_on_queue: Seq<OrderInfoView>,
    pub robots_orders: Seq<(usize, OrderInfoView)>,
    pub screens: Seq<usize>,
    pub orders_to_be_sent: Seq<OrderWaitingView>,
}

/// The robots that have an order, in the order of the list.
pub open spec fn busy_robots(orders: Seq<(usize, OrderInfoView)>) -> Seq<usize> {
    Seq::new(orders.len(), |i: int| orders[i].0)
}

impl LeaderBackupView {
    /// The idle robots and the robots with an order are two sets: no
    /// robot stands twice among the idle, none has two orders, and none
    /// is idle while it has an order.
    pub open spec fn wf(self) -> bool {
        &&& self.available_robots.no_duplicates()
        &&& busy_robots(self.robots_orders).no_duplicates()
        &&& forall|i: int, j: int|
            0 <= i < self.available_robots.len() && 0 <= j < self.robots_orders.len()
                ==> #[trigger] self.available_robots[i] != (#[trigger] self.robots_orders[j]).0
    }
}

impl View for LeaderBackup {
    type V = LeaderBackupView;

    open spec fn view(&self) -> LeaderBackupView {
        LeaderBackupView {
            available_robots: self.available_robots@,
            orders_on_queue: views(self.orders_on_queue@),
            robots_orders: views(self.robots_orders@),
            screens: self.screens@,
            orders_to_be_sent: views(self.orders_to_be_sent@),
        }
    }
}

impl DeepView for LeaderBackup {
    type V = LeaderBackupView;

    open spec fn deep_view(&self) -> LeaderBackupView {
        self@
    }
}

/// A copy of a list of ids.
pub fn copy_ids(ids: &Vec<usize>) -> (r: Vec<usize>)
    ensures
        r@ == ids@,
{
    let mut r: Vec<usize> = Vec::new();
    let mut i: usize = 0;
    while i < ids.len()
        invariant
            i <= ids.len(),
            r@ == ids@.subrange(0, i as int),
        decreases ids.len() - i,
    {
        r.push(ids[i]);
        i = i + 1;
        assert(r@ =~= ids@.subrange(0, i as int));
    }
    assert(ids@.subrange(0, ids.len() as int) =~= ids@);
    r
}

/// A copy of a queue of orders.
pub fn copy_queue(queue: &VecDeque<OrderInfo>) -> (r: VecDeque<OrderInfo>)
    ensures
        views(r@) == views(queue@),
{
    let mut r: VecDeque<OrderInfo> = VecDeque::new();
    let mut i: usize = 0;
    while i < queue.len()
        invariant
            i <= queue.len(),
            views(r@) == views(queue@.subrange(0, i as int)),
        decreases queue.len() - i,
    {
        let item = queue[i].clone();
        proof {
            lemma_views_push(r@, item);
            lemma_views_push(queue@.subrange(0, i as int), queue@[i as int]);
            assert(queue@.subrange(0, i as int + 1) =~= queue@.subrange(0, i as int).push(
                queue@[i as int],
            ));
        }
        r.push_back(item);
        i = i + 1;
        
    }
    assert(queue@.subrange(0, queue.len() as int) =~= queue@);
    r
}

/// A copy of a list of orders being prepared.
pub fn copy_assignments(list: &Vec<(usize, OrderInfo)>) -> (r: Vec<(usize, OrderInfo)>)
    ensures
        views(r@) == views(list@),
{
    let mut r: Vec<(usize, OrderInfo)> = Vec::new();
    let mut i: usize = 0;
    while i < list.len()
        invariant
            i <= list.len(),
            views(r@) == views(list@.subrange(0, i as int)),
        decreases list.len() - i,
    {
        let item = (list[i].0, list[i].1.clone());
        proof {
            lemma_views_push(r@, item);
            lemma_views_push(list@.subrange(0, i as int), list@[i as int]);
            assert(list@.subrange(0, i as int + 1) =~= list@.subrange(0, i as int).push(
                list@[i as int],
            ));
        }
        r.push(item);
        i = i + 1;
        
    }
    assert(list@.subrange(0, list.len() as int) =~= list@);
    r
}

/// A copy of a list of waiting results.
pub fn copy_waiting(list: &Vec<OrderWaiting>) -> (r: Vec<OrderWaiting>)
    ensures
        views(r@) == views(list@),
{
    let mut r: Vec<OrderWaiting> = Vec::new();
    let mut i: usize = 0;
    while i < list.len()
        invariant
            i <= list.len(),
            views(r@) == views(list@.subrange(0, i as int)),
        decreases list.len() - i,
    {
        let item = list[i].clone();
        proof {
            lemma_views_push(r@, item);
            lemma_views_push(list@.subrange(0, i as int), list@[i as int]);
            assert(list@.subrange(0, i as int + 1) =~= list@.subrange(0, i as int).push(
                list@[i as int],
            ));
        }
        r.push(item);
        i = i + 1;
        
    }
    assert(list@.subrange(0, list.len() as int) =~= list@);
    r
}

impl LeaderBackup {
    /// A snapshot made of the five parts of the leader's state.
    pub fn new(
        available_robots: Vec<usize>,
        screens: Vec<usize>,
        orders_on_queue: VecDeque<OrderInfo>,
        robots_orders: Vec<(usize, OrderInfo)>,
        orders_to_be_sent: Vec<OrderWaiting>,
    ) -> (backup: LeaderBackup)
        ensures
            backup@ == (LeaderBackupView {
                available_robots: available_robots@,
                orders_on_queue: views(orders_on_queue@),
                robots_orders: views(robots_orders@),
                screens: screens@,
                orders_to_be_sent: views(orders_to_be_sent@),
            }),
    {
        Self { available_robots, orders_on_queue, robots_orders, screens, orders_to_be_sent }
    }
}

impl Clone for LeaderBackup {
    fn clone(&self) -> (r: LeaderBackup)
        ensures
            r@ == self@,
    {
        LeaderBackup {
            available_robots: copy_ids(&self.available_robots),
            orders_on_queue: copy_queue(&self.orders_on_queue),
            robots_orders: copy_assignments(&self.robots_orders),
            screens: copy_ids(&self.screens),
            orders_to_be_sent: copy_waiting(&self.orders_to_be_sent),
        }
    }
}

} // verus!
