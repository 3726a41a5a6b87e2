//! The leader: it keeps the queue of orders, gives them to idle robots,
//! hands the results to the screens and tells the followers its state.

use crate::config::{initial_stock, spec_initial_stock, MAX_NUMBER_OF_SCREENS};
use crate::flavor_id::{flavor_at, FlavorID, FLAVOR_COUNT};
use crate::flavor_token::FlavorToken;
use crate::ids::{add_id, has_id, lemma_with_id, lemma_without, remove_id, with_id, without};
use crate::leader_backup::{busy_robots, copy_ids, LeaderBackup, LeaderBackupView};
use crate::messages::{
    AddNewRobot, AddNewScreen, AddOrderToBeSent, ChangeScreen, ConnectToNewScreen,
    ConnectToScreen, CreateNewOrder, GetAbortedOrder, GetCompletedOrder, OrderAborted,
    OrderPrepared, RobotDied, ScreenDied, SendLeaderBackup, SendNewOrder, StartTokens,
};
use crate::order::OrderView;
use crate::order_info::{OrderInfo, OrderInfoView};
use crate::order_waiting::{OrderWaiting, OrderWaitingView};
use crate::views::{lemma_views_insert, lemma_views_push, lemma_views_remove, views};
use std::collections::VecDeque;
use vstd::prelude::*;

verus! {

/// What the leader hands out.
#[allow(inconsistent_fields)]
#[derive(Debug, PartialEq, Eq, Clone)]
pub enum LeaderOutput {
    /// Open the port on which robots reach the leader.
    Listen,
    /// To the leader's own robot: put these first tokens into the ring.
    StartTokens(StartTokens),
    /// Connect to this screen.
    ConnectToScreen(ConnectToScreen),
    /// Connect to this robot and tell it who leads.
    ConnectToRobot { robot_id: usize },
    /// To the connection to `robot_id`: send this order.
    SendNewOrder { robot_id: usize, msg: SendNewOrder },
    /// To the connections to `robots`: send this snapshot.
    SendLeaderBackup { robots: Vec<usize>, msg: SendLeaderBackup },
    /// To the connection to `screen_id`: the order is ready.
    OrderPrepared { screen_id: usize, msg: OrderPrepared },
    /// To the connection to `screen_id`: the order was given up.
    OrderAborted { screen_id: usize, msg: OrderAborted },
    /// Close the connection to this robot.
    DropRobot { robot_id: usize },
    /// Close the connection to this screen.
    DropScreen { screen_id: usize },
}

/// What a `LeaderOutput` is, mathematically.
pub enum LeaderOutputView {
    Listen,
    StartTokens(Seq<FlavorToken>),
    ConnectToScreen(usize),
    ConnectToRobot(usize),
    SendNewOrder(usize, OrderView, Seq<char>),
    SendLeaderBackup(Seq<usize>, LeaderBackupView),
    OrderPrepared(usize, bool, Seq<char>),
    OrderAborted(usize, bool, Seq<char>, FlavorID),
    DropRobot(usize),
    DropScreen(usize),
}

impl DeepView for LeaderOutput {
    type V = LeaderOutputView;

    open spec fn deep_view(&self) -> LeaderOutputView {
        match *self {
            LeaderOutput::Listen => LeaderOutputView::Listen,
            LeaderOutput::StartTokens(m) => LeaderOutputView::StartTokens(m.all_tokens@),
            LeaderOutput::ConnectToScreen(m) => LeaderOutputView::ConnectToScreen(m.screen_id),
            LeaderOutput::ConnectToRobot { robot_id } => LeaderOutputView::ConnectToRobot(
                robot_id,
            ),
            LeaderOutput::SendNewOrder { robot_id, msg } => LeaderOutputView::SendNewOrder(
                robot_id,
                msg.new_order@,
                msg.order_id@,
            ),
            LeaderOutput::SendLeaderBackup { robots, msg } => LeaderOutputView::SendLeaderBackup(
                robots@,
                msg.backup@,
            ),
            LeaderOutput::OrderPrepared { screen_id, msg } => LeaderOutputView::OrderPrepared(
                screen_id,
                msg.order_result,
                msg.id@,
            ),
            LeaderOutput::OrderAborted { screen_id, msg } => LeaderOutputView::OrderAborted(
                screen_id,
                msg.order_result,
                msg.id@,
                msg.flavor,
            ),
            LeaderOutput::DropRobot { robot_id } => LeaderOutputView::DropRobot(robot_id),
            LeaderOutput::DropScreen { screen_id } => LeaderOutputView::DropScreen(screen_id),
        }
    }
}

/// What a leader is, mathematically.
pub struct RobotLeaderView {
    /// The id of the robot that leads.
    pub my_id: usize,
    /// Whether this leader started the shop, rather than took over.
    pub first_leader: bool,
    /// Whether the leader can reach the robot it runs on.
    pub has_robot: bool,
    /// The idle robots; the last one is the next to get an order.
    pub available_robots: Seq<usize>,
    /// The orders not yet given to a robot; the first is the next to go.
    pub orders_on_queue: Seq<OrderInfoView>,
    /// The orders being prepared, each with the robot that has it.
    pub robots_orders: Seq<(usize, OrderInfoView)>,
    /// The screens known to the followers.
    pub screen_ids: Seq<usize>,
    /// The results that wait for a screen that can take them.
    pub orders_to_be_sent: Seq<OrderWaitingView>,
    /// The robots to which a connection stands.
    pub robots_connections: Seq<usize>,
    /// The screens to which a connection stands.
    pub screens_connections: Seq<usize>,
}

/// A new state and what is handed out on the way to it.
pub struct LeaderStep {
    pub next: RobotLeaderView,
    pub out: Seq<LeaderOutputView>,
}

/// The first place at which `robot` stands in the list of orders being
/// prepared, if it stands there.
pub open spec fn assigned_at(orders: Seq<(usize, OrderInfoView)>, robot: usize) -> Option<int>
    decreases orders.len(),
{
    if orders.len() == 0 {
        None
    } else if orders[0].0 == robot {
        Some(0)
    } else {
        match assigned_at(orders.drop_first(), robot) {
            Some(i) => Some(i + 1),
            None => None,
        }
    }
}

/// The output that tells a screen the result of an order: given up for
/// want of `flavor`, or ready where there is none.
pub open spec fn result_output(
    screen_id: usize,
    order_result: bool,
    id: Seq<char>,
    flavor: Option<FlavorID>,
) -> LeaderOutputView {
    match flavor {
        Some(f) => LeaderOutputView::OrderAborted(screen_id, order_result, id, f),
        None => LeaderOutputView::OrderPrepared(screen_id, order_result, id),
    }
}

/// The queue with every order of `old_screen` moved to `new_screen`.
pub open spec fn moved_orders(
    queue: Seq<OrderInfoView>,
    old_screen: usize,
    new_screen: usize,
) -> Seq<OrderInfoView> {
    Seq::new(queue.len(), |i: int| queue[i].moved(old_screen, new_screen))
}

/// The orders being prepared with every order of `old_screen` moved to
/// `new_screen`.
pub open spec fn moved_assignments(
    orders: Seq<(usize, OrderInfoView)>,
    old_screen: usize,
    new_screen: usize,
) -> Seq<(usize, OrderInfoView)> {
    Seq::new(orders.len(), |i: int| (orders[i].0, orders[i].1.moved(old_screen, new_screen)))
}

/// The waiting results that are not for `screen`, in order.
pub open spec fn kept_waiting(waiting: Seq<OrderWaitingView>, screen: usize) -> Seq<
    OrderWaitingView,
>
    decreases waiting.len(),
{
    if waiting.len() == 0 {
        Seq::empty()
    } else if waiting.last().screen_id == screen {
        kept_waiting(waiting.drop_last(), screen)
    } else {
        kept_waiting(waiting.drop_last(), screen).push(waiting.last())
    }
}

/// The outputs that hand the waiting results of `old_screen` to
/// `new_screen`, in order.
pub open spec fn redelivered(
    waiting: Seq<OrderWaitingView>,
    old_screen: usize,
    new_screen: usize,
) -> Seq<LeaderOutputView>
    decreases waiting.len(),
{
    if waiting.len() == 0 {
        Seq::empty()
    } else if waiting.last().screen_id == old_screen {
        redelivered(waiting.drop_last(), old_screen, new_screen).push(
            result_output(
                new_screen,
                waiting.last().order_result,
                waiting.last().id,
                waiting.last().flavor,
            ),
        )
    } else {
        redelivered(waiting.drop_last(), old_screen, new_screen)
    }
}

/// The first token of each flavor, in the order of the flavors.
pub open spec fn first_tokens() -> Seq<FlavorToken> {
    Seq::new(
        FLAVOR_COUNT as nat,
        |i: int| FlavorToken::spec_new(flavor_at(i as nat), spec_initial_stock(flavor_at(i as nat))),
    )
}

/// One output per screen to connect to.
pub open spec fn screen_calls(screens: Seq<usize>) -> Seq<LeaderOutputView> {
    Seq::new(screens.len(), |i: int| LeaderOutputView::ConnectToScreen(screens[i]))
}

/// One output per robot to connect to.
pub open spec fn robot_calls(robots: Seq<usize>) -> Seq<LeaderOutputView> {
    Seq::new(robots.len(), |i: int| LeaderOutputView::ConnectToRobot(robots[i]))
}

/// The ids of all the screens there can be, in order.
pub open spec fn all_screens() -> Seq<usize> {
    Seq::new(MAX_NUMBER_OF_SCREENS as nat, |i: int| i as usize)
}

impl LeaderStep {
    /// The step, followed by the snapshot going out to the followers.
    pub open spec fn then_tell(self) -> LeaderStep {
        LeaderStep { next: self.next, out: self.out.push(self.next.snapshot_output()) }
    }

    /// The step, followed by giving out the next order where that can be done.
    pub open spec fn then_assign(self) -> LeaderStep {
        LeaderStep {
            next: self.next.assign_new_order().next,
            out: self.out + self.next.assign_new_order().out,
        }
    }

    /// The step, followed by giving out the next order where that can be
    /// done, and then by the snapshot where an order was given out.
    pub open spec fn then_assign_and_tell(self) -> LeaderStep {
        if self.next.can_assign() {
            self.then_assign().then_tell()
        } else {
            self
        }
    }
}

impl RobotLeaderView {
    /// The snapshot of the state that the followers get.
    pub open spec fn backup(self) -> LeaderBackupView {
        LeaderBackupView {
            available_robots: self.available_robots,
            orders_on_queue: self.orders_on_queue,
            robots_orders: self.robots_orders,
            screens: self.screen_ids,
            orders_to_be_sent: self.orders_to_be_sent,
        }
    }

    /// The output that sends the snapshot to every connected robot.
    pub open spec fn snapshot_output(self) -> LeaderOutputView {
        LeaderOutputView::SendLeaderBackup(self.robots_connections, self.backup())
    }

    /// Whether an order can be given out: there is one on the queue, a
    /// robot is idle, and the connection to the last idle robot stands.
    pub open spec fn can_assign(self) -> bool {
        &&& self.orders_on_queue.len() > 0
        &&& self.available_robots.len() > 0
        &&& self.robots_connections.contains(self.available_robots.last())
    }

    /// Gives the first order of the queue to the last idle robot, where
    /// that can be done; else nothing changes.
    pub open spec fn assign_new_order(self) -> LeaderStep {
        if self.can_assign() {
            let robot = self.available_robots.last();
            let order = self.orders_on_queue[0];
            LeaderStep {
                next: RobotLeaderView {
                    available_robots: self.available_robots.drop_last(),
                    orders_on_queue: self.orders_on_queue.drop_first(),
                    robots_orders: self.robots_orders.push((robot, order)),
                    ..self
                },
                out: seq![LeaderOutputView::SendNewOrder(robot, order.order, order.order_id)],
            }
        } else {
            LeaderStep { next: self, out: Seq::empty() }
        }
    }

    /// A leader that starts the shop.
    pub open spec fn fresh(my_id: usize, has_robot: bool) -> RobotLeaderView {
        RobotLeaderView {
            my_id,
            first_leader: true,
            has_robot,
            available_robots: Seq::empty(),
            orders_on_queue: Seq::empty(),
            robots_orders: Seq::empty(),
            screen_ids: Seq::empty(),
            orders_to_be_sent: Seq::empty(),
            robots_connections: Seq::empty(),
            screens_connections: Seq::empty(),
        }
    }

    /// A leader that takes over with a snapshot: the robot itself is no
    /// longer idle, and the order it had, if any, goes to the front of
    /// the queue.
    pub open spec fn from_backup(
        my_id: usize,
        has_robot: bool,
        backup: LeaderBackupView,
    ) -> RobotLeaderView {
        let mine = assigned_at(backup.robots_orders, my_id);
        RobotLeaderView {
            my_id,
            first_leader: false,
            has_robot,
            available_robots: without(backup.available_robots, my_id),
            orders_on_queue: match mine {
                Some(i) => backup.orders_on_queue.insert(0, backup.robots_orders[i].1),
                None => backup.orders_on_queue,
            },
            robots_orders: match mine {
                Some(i) => backup.robots_orders.remove(i),
                None => backup.robots_orders,
            },
            screen_ids: backup.screens,
            orders_to_be_sent: backup.orders_to_be_sent,
            robots_connections: Seq::empty(),
            screens_connections: Seq::empty(),
        }
    }

    /// The leader starts. A first leader opens its port, puts the first
    /// tokens into the ring through its own robot, and connects to every
    /// screen there can be. A leader that took over opens its port and
    /// connects to the robots and the screens of the snapshot; it forgets
    /// the screens until their connections stand.
    pub open spec fn started(self) -> LeaderStep {
        if self.first_leader {
            LeaderStep {
                next: self,
                out: seq![LeaderOutputView::Listen] + (if self.has_robot {
                    seq![LeaderOutputView::StartTokens(first_tokens())]
                } else {
                    Seq::empty()
                }) + screen_calls(all_screens()),
            }
        } else {
            LeaderStep {
                next: RobotLeaderView { screen_ids: Seq::empty(), ..self },
                out: seq![LeaderOutputView::Listen] + robot_calls(
                    without(
                        self.available_robots + busy_robots(self.robots_orders),
                        self.my_id,
                    ),
                ) + screen_calls(self.screen_ids),
            }
        }
    }

    /// A connection to a robot stands. Where the robot opened it, the
    /// robot is idle unless it has an order; the next order is given out
    /// and the followers are told.
    pub open spec fn add_new_robot(self, robot_id: usize, asked: bool) -> LeaderStep {
        let connected = RobotLeaderView {
            robots_connections: with_id(self.robots_connections, robot_id),
            ..self
        };
        if asked {
            LeaderStep { next: connected, out: Seq::empty() }
        } else {
            LeaderStep {
                next: RobotLeaderView {
                    available_robots: if assigned_at(self.robots_orders, robot_id) is Some {
                        self.available_robots
                    } else {
                        with_id(self.available_robots, robot_id)
                    },
                    ..connected
                },
                out: Seq::empty(),
            }.then_assign().then_tell()
        }
    }

    /// A connection to a screen stands: the screen is noted and the
    /// followers are told.
    pub open spec fn add_new_screen(self, screen_id: usize) -> LeaderStep {
        LeaderStep {
            next: RobotLeaderView {
                screens_connections: with_id(self.screens_connections, screen_id),
                screen_ids: with_id(self.screen_ids, screen_id),
                ..self
            },
            out: Seq::empty(),
        }.then_tell()
    }

    /// The leader is asked to connect to a screen.
    pub open spec fn connect_to_screen(self, screen_id: usize) -> LeaderStep {
        LeaderStep { next: self, out: seq![LeaderOutputView::ConnectToScreen(screen_id)] }
    }

    /// A screen sends an order: it goes to the end of the queue, the next
    /// order is given out where that can be done, and the followers are told.
    pub open spec fn create_new_order(self, order: OrderInfoView) -> LeaderStep {
        LeaderStep {
            next: RobotLeaderView { orders_on_queue: self.orders_on_queue.push(order), ..self },
            out: Seq::empty(),
        }.then_assign().then_tell()
    }

    /// A result is kept until a screen can take it.
    pub open spec fn stashed(self, waiting: OrderWaitingView) -> RobotLeaderView {
        RobotLeaderView { orders_to_be_sent: self.orders_to_be_sent.push(waiting), ..self }
    }

    /// A robot reports the end of its order, ready or given up for want
    /// of `flavor`. The robot is idle again. The result goes to the screen
    /// of the order it had, or is kept where no connection to that screen
    /// stands. The followers are told, and then the next order is given out.
    pub open spec fn order_result(
        self,
        robot_id: usize,
        order_result: bool,
        flavor: Option<FlavorID>,
    ) -> LeaderStep {
        let idle = with_id(self.available_robots, robot_id);
        (match assigned_at(self.robots_orders, robot_id) {
            None => LeaderStep {
                next: RobotLeaderView { available_robots: idle, ..self },
                out: Seq::empty(),
            },
            Some(i) => {
                let order = self.robots_orders[i].1;
                let retired = RobotLeaderView {
                    available_robots: idle,
                    robots_orders: self.robots_orders.remove(i),
                    ..self
                };
                if self.screens_connections.contains(order.screen_id) {
                    LeaderStep {
                        next: retired,
                        out: seq![
                            result_output(order.screen_id, order_result, order.order_id, flavor),
                        ],
                    }
                } else {
                    LeaderStep {
                        next: retired.stashed(
                            OrderWaitingView {
                                order_result,
                                id: order.order_id,
                                screen_id: order.screen_id,
                                flavor,
                            },
                        ),
                        out: Seq::empty(),
                    }
                }
            },
        }).then_tell().then_assign_and_tell()
    }

    /// A result could not be handed to its screen: it is kept, and the
    /// followers are told.
    pub open spec fn add_order_to_be_sent(self, waiting: OrderWaitingView) -> LeaderStep {
        LeaderStep { next: self.stashed(waiting), out: Seq::empty() }.then_tell()
    }

    /// The connection to a robot is gone: the robot is no longer idle,
    /// the order it had goes to the front of the queue, its connection is
    /// closed, the next order is given out, and the followers are told.
    pub open spec fn robot_died(self, robot_id: usize) -> LeaderStep {
        let mine = assigned_at(self.robots_orders, robot_id);
        LeaderStep {
            next: RobotLeaderView {
                available_robots: without(self.available_robots, robot_id),
                orders_on_queue: match mine {
                    Some(i) => self.orders_on_queue.insert(0, self.robots_orders[i].1),
                    None => self.orders_on_queue,
                },
                robots_orders: match mine {
                    Some(i) => self.robots_orders.remove(i),
                    None => self.robots_orders,
                },
                robots_connections: without(self.robots_connections, robot_id),
                ..self
            },
            out: seq![LeaderOutputView::DropRobot(robot_id)],
        }.then_assign().then_tell()
    }

    /// The connection to a screen is gone: the screen is forgotten, its
    /// connection closed, and the followers are told.
    pub open spec fn screen_died(self, screen_id: usize) -> LeaderStep {
        LeaderStep {
            next: RobotLeaderView {
                screen_ids: without(self.screen_ids, screen_id),
                screens_connections: without(self.screens_connections, screen_id),
                ..self
            },
            out: seq![LeaderOutputView::DropScreen(screen_id)],
        }.then_tell()
    }

    /// One screen takes over from another. Where a connection to the new
    /// screen stands, the waiting results of the old screen are handed to
    /// it and no longer kept. Every order of the old screen, on the queue
    /// or with a robot, is from now on an order of the new screen. The
    /// followers are told.
    pub open spec fn change_screen(self, old_screen: usize, new_screen: usize) -> LeaderStep {
        let reachable = self.screens_connections.contains(new_screen);
        LeaderStep {
            next: RobotLeaderView {
                orders_on_queue: moved_orders(self.orders_on_queue, old_screen, new_screen),
                robots_orders: moved_assignments(self.robots_orders, old_screen, new_screen),
                orders_to_be_sent: if reachable {
                    kept_waiting(self.orders_to_be_sent, old_screen)
                } else {
                    self.orders_to_be_sent
                },
                ..self
            },
            out: if reachable {
                redelivered(self.orders_to_be_sent, old_screen, new_screen)
            } else {
                Seq::empty()
            },
        }.then_tell()
    }
}

/// `assigned_at` gives the first place of the robot, and `None` exactly
/// when the robot has no order.
pub proof fn lemma_assigned_at(orders: Seq<(usize, OrderInfoView)>, robot: usize)
    ensures
        match assigned_at(orders, robot) {
            Some(i) => 0 <= i < orders.len() && orders[i].0 == robot && forall|j: int|
                0 <= j < i ==> (#[trigger] orders[j]).0 != robot,
            None => forall|j: int| 0 <= j < orders.len() ==> (#[trigger] orders[j]).0 != robot,
        },
    decreases orders.len(),
{
    if orders.len() > 0 && orders[0].0 != robot {
        let rest = orders.drop_first();
        lemma_assigned_at(rest, robot);
        match assigned_at(rest, robot) {
            Some(i) => {
                assert forall|j: int| 0 <= j < i + 1 implies (#[trigger] orders[j]).0
                    != robot by {
                    if j > 0 {
                        assert(rest[j - 1] == orders[j]);
                    }
                }
            },
            None => {
                assert forall|j: int| 0 <= j < orders.len() implies (#[trigger] orders[j]).0
                    != robot by {
                    if j > 0 {
                        assert(rest[j - 1] == orders[j]);
                    }
                }
            },
        }
    }
}

/// The place of the first order that `robot` has, if it has one.
fn find_assignment(orders: &Vec<(usize, OrderInfo)>, robot: usize) -> (place: Option<usize>)
    ensures
        match place {
            Some(i) => assigned_at(views(orders@), robot) == Some(i as int) && i < orders.len(),
            None => assigned_at(views(orders@), robot) is None,
        },
{
    let ghost all = views(orders@);
    let mut i: usize = 0;
    while i < orders.len()
        invariant
            i <= orders.len(),
            all == views(orders@),
            forall|j: int| 0 <= j < i ==> (#[trigger] all[j]).0 != robot,
        decreases orders.len() - i,
    {
        if orders[i].0 == robot {
            proof {
                lemma_assigned_at(all, robot);
                assert(all[i as int].0 == robot);
                let found = assigned_at(all, robot);
                assert(found is Some);
                let k = found.unwrap();
                if k < i {
                    assert(all[k].0 != robot);
                }
                if k > i {
                    assert(all[i as int].0 != robot);
                }
            }
            return Some(i);
        }
        assert(all[i as int].0 != robot);
        i = i + 1;
    }
    proof {
        lemma_assigned_at(all, robot);
        if assigned_at(all, robot) is Some {
            let k = assigned_at(all, robot).unwrap();
            assert(all[k].0 != robot);
        }
    }
    None
}

/// Adds one output per screen to connect to.
fn push_screen_calls(out: &mut Vec<LeaderOutput>, screens: &Vec<usize>)
    ensures
        views(final(out)@) == views(old(out)@) + screen_calls(screens@),
{
    let ghost before = views(out@);
    let mut i: usize = 0;
    while i < screens.len()
        invariant
            i <= screens.len(),
            views(out@) == before + screen_calls(screens@.subrange(0, i as int)),
        decreases screens.len() - i,
    {
        let item = LeaderOutput::ConnectToScreen(ConnectToScreen { screen_id: screens[i] });
        proof {
            lemma_views_push(out@, item);
            assert((before + screen_calls(screens@.subrange(0, i as int))).push(
                item.deep_view(),
            ) =~= before + screen_calls(screens@.subrange(0, i as int + 1)));
        }
        out.push(item);
        i = i + 1;
    }
    proof {
        assert(screens@.subrange(0, i as int) =~= screens@);
    }
}

/// Adds one output per robot to connect to.
fn push_robot_calls(out: &mut Vec<LeaderOutput>, robots: &Vec<usize>)
    ensures
        views(final(out)@) == views(old(out)@) + robot_calls(robots@),
{
    let ghost before = views(out@);
    let mut i: usize = 0;
    while i < robots.len()
        invariant
            i <= robots.len(),
            views(out@) == before + robot_calls(robots@.subrange(0, i as int)),
        decreases robots.len() - i,
    {
        let item = LeaderOutput::ConnectToRobot { robot_id: robots[i] };
        proof {
            lemma_views_push(out@, item);
            assert((before + robot_calls(robots@.subrange(0, i as int))).push(item.deep_view())
                =~= before + robot_calls(robots@.subrange(0, i as int + 1)));
        }
        out.push(item);
        i = i + 1;
    }
    proof {
        assert(robots@.subrange(0, i as int) =~= robots@);
    }
}

/// The first token of each flavor.
pub fn initial_tokens() -> (tokens: Vec<FlavorToken>)
    ensures
        tokens@ == first_tokens(),
{
    let mut tokens: Vec<FlavorToken> = Vec::new();
    let mut i: usize = 0;
    while i < FLAVOR_COUNT
        invariant
            i <= FLAVOR_COUNT,
            tokens@.len() == i,
            forall|j: int| 0 <= j < i ==> tokens@[j] == first_tokens()[j],
        decreases FLAVOR_COUNT - i,
    {
        match FlavorID::from_index(i) {
            Some(flavor) => {
                tokens.push(FlavorToken::new(flavor, initial_stock(flavor)));
            },
            None => {},
        }
        i = i + 1;
    }
    assert(tokens@ =~= first_tokens());
    tokens
}

/// The ids of all the screens there can be.
fn all_screen_ids() -> (screens: Vec<usize>)
    ensures
        screens@ == all_screens(),
{
    let mut screens: Vec<usize> = Vec::new();
    let mut i: usize = 0;
    while i < MAX_NUMBER_OF_SCREENS
        invariant
            i <= MAX_NUMBER_OF_SCREENS,
            screens@.len() == i,
            forall|j: int| 0 <= j < i ==> screens@[j] == j as usize,
        decreases MAX_NUMBER_OF_SCREENS - i,
    {
        screens.push(i);
        i = i + 1;
    }
    assert(screens@ =~= all_screens());
    screens
}

/// Takes the robot that takes over out of the snapshot: it is no longer
/// idle, and the order it had goes to the front of the queue.
fn remove_me_from_backup(backup: &mut LeaderBackup, my_id: usize)
    ensures
        final(backup)@.available_robots == without(old(backup)@.available_robots, my_id),
        final(backup)@.orders_on_queue == RobotLeaderView::from_backup(
            my_id,
            true,
            old(backup)@,
        ).orders_on_queue,
        final(backup)@.robots_orders == RobotLeaderView::from_backup(
            my_id,
            true,
            old(backup)@,
        ).robots_orders,
        final(backup)@.screens == old(backup)@.screens,
        final(backup)@.orders_to_be_sent == old(backup)@.orders_to_be_sent,
{
    remove_id(&mut backup.available_robots, my_id);
    match find_assignment(&backup.robots_orders, my_id) {
        Some(i) => {
            proof {
                lemma_views_remove(backup.robots_orders@, i as int);
            }
            let entry = backup.robots_orders.remove(i);
            proof {
                lemma_views_insert(backup.orders_on_queue@, 0, entry.1);
                assert(seq![entry.1] + backup.orders_on_queue@ =~= backup.orders_on_queue@.insert(
                    0,
                    entry.1,
                ));
            }
            backup.orders_on_queue.push_front(entry.1);
        },
        None => {},
    }
}

/// The leader.
#[derive(Debug, PartialEq, Eq, Clone)]
pub struct RobotLeader {
    my_id: usize,
    first_leader: bool,
    has_robot: bool,
    state: LeaderBackup,
    robots_connections: Vec<usize>,
    screens_connections: Vec<usize>,
}

impl View for RobotLeader {
    type V = RobotLeaderView;

    closed spec fn view(&self) -> RobotLeaderView {
        RobotLeaderView {
            my_id: self.my_id,
            first_leader: self.first_leader,
            has_robot: self.has_robot,
            available_robots: self.state.available_robots@,
            orders_on_queue: views(self.state.orders_on_queue@),
            robots_orders: views(self.state.robots_orders@),
            screen_ids: self.state.screens@,
            orders_to_be_sent: views(self.state.orders_to_be_sent@),
            robots_connections: self.robots_connections@,
            screens_connections: self.screens_connections@,
        }
    }
}

impl RobotLeader {
    /// A leader that starts the shop. `has_robot` says whether it can
    /// reach the robot it runs on.
    pub fn new(my_id: usize, has_robot: bool) -> (leader: RobotLeader)
        ensures
            leader@ == RobotLeaderView::fresh(my_id, has_robot),
            leader@.wf(),
    {
        let leader = Self {
            my_id,
            first_leader: true,
            has_robot,
            state: LeaderBackup::new(
                Vec::new(),
                Vec::new(),
                VecDeque::new(),
                Vec::new(),
                Vec::new(),
            ),
            robots_connections: Vec::new(),
            screens_connections: Vec::new(),
        };
        assert(leader@.orders_on_queue =~= Seq::empty());
        assert(leader@.robots_orders =~= Seq::empty());
        assert(leader@.orders_to_be_sent =~= Seq::empty());
        leader
    }

    /// A leader that takes over with the last snapshot it got. Where the
    /// snapshot is sound the leader is sound, and the robot it runs on is
    /// neither idle nor has an order.
    pub fn from_backup(my_id: usize, has_robot: bool, backup: LeaderBackup) -> (leader:
        RobotLeader)
        ensures
            leader@ == RobotLeaderView::from_backup(my_id, has_robot, backup@),
            backup@.wf() ==> leader@.wf() && !leader@.available_robots.contains(my_id)
                && assigned_at(leader@.robots_orders, my_id) is None,
    {
        proof {
            if backup@.wf() {
                lemma_takeover_frees_the_robot(my_id, has_robot, backup@);
            }
        }
        let mut backup = backup;
        remove_me_from_backup(&mut backup, my_id);
        Self {
            my_id,
            first_leader: false,
            has_robot,
            state: backup,
            robots_connections: Vec::new(),
            screens_connections: Vec::new(),
        }
    }

    /// The snapshot of the state that the followers get.
    pub fn backup(&self) -> (snapshot: LeaderBackup)
        ensures
            snapshot@ == self@.backup(),
    {
        self.state.clone()
    }

    /// The id of the robot that leads.
    pub fn my_id(&self) -> (id: usize)
        ensures
            id == self@.my_id,
    {
        self.my_id
    }

    /// The robots to which a connection stands.
    pub fn robots_connections(&self) -> (robots: Vec<usize>)
        ensures
            robots@ == self@.robots_connections,
    {
        copy_ids(&self.robots_connections)
    }

    /// The screens to which a connection stands.
    pub fn screens_connections(&self) -> (screens: Vec<usize>)
        ensures
            screens@ == self@.screens_connections,
    {
        copy_ids(&self.screens_connections)
    }

    /// Adds the snapshot for the followers to the outputs.
    fn make_and_send_backup(&self, out: &mut Vec<LeaderOutput>)
        ensures
            views(final(out)@) == views(old(out)@).push(self@.snapshot_output()),
    {
        let item = LeaderOutput::SendLeaderBackup {
            robots: copy_ids(&self.robots_connections),
            msg: SendLeaderBackup { backup: self.state.clone() },
        };
        proof {
            lemma_views_push(out@, item);
        }
        out.push(item);
    }

    /// Gives the first order of the queue to the last idle robot, where
    /// that can be done, and says whether it was.
    fn assign_new_order(&mut self, out: &mut Vec<LeaderOutput>) -> (given: bool)
        ensures
            given == old(self)@.can_assign(),
            final(self)@ == old(self)@.assign_new_order().next,
            views(final(out)@) == views(old(out)@) + old(self)@.assign_new_order().out,
    {
        if self.state.orders_on_queue.len() == 0 || self.state.available_robots.len() == 0 {
            assert(views(out@) + Seq::<LeaderOutputView>::empty() =~= views(out@));
            return false;
        }
        let robot_id = self.state.available_robots[self.state.available_robots.len() - 1];
        if !has_id(&self.robots_connections, robot_id) {
            assert(views(out@) + Seq::<LeaderOutputView>::empty() =~= views(out@));
            return false;
        }
        let ghost before = self@;
        self.state.available_robots.pop();
        let order_info = self.state.orders_on_queue.pop_front().unwrap();
        let item = LeaderOutput::SendNewOrder {
            robot_id,
            msg: SendNewOrder {
                new_order: order_info.order.clone(),
                order_id: order_info.order_id.clone(),
            },
        };
        proof {
            lemma_views_push(out@, item);
            lemma_views_push(self.state.robots_orders@, (robot_id, order_info));
            assert(views(out@).push(item.deep_view()) =~= views(out@) + seq![item.deep_view()]);
            assert(self.state.available_robots@ =~= before.available_robots.drop_last());
            assert(views(self.state.orders_on_queue@) =~= before.orders_on_queue.drop_first());
        }
        out.push(item);
        self.state.robots_orders.push((robot_id, order_info));
        true
    }

    /// Keeps a result until a screen can take it.
    fn stash_order_waiting(
        &mut self,
        id: String,
        order_result: bool,
        screen_id: usize,
        flavor: Option<FlavorID>,
    )
        ensures
            final(self)@ == old(self)@.stashed(
                OrderWaitingView { order_result, id: id@, screen_id, flavor },
            ),
    {
        let order = OrderWaiting { id, order_result, screen_id, flavor };
        proof {
            lemma_views_push(self.state.orders_to_be_sent@, order);
        }
        self.state.orders_to_be_sent.push(order);
    }
}

impl RobotLeader {
    /// Starts the leader.
    pub fn started(&mut self) -> (out: Vec<LeaderOutput>)
        ensures
            old(self)@.wf() ==> final(self)@.wf(),
            final(self)@ == old(self)@.started().next,
            views(out@) == old(self)@.started().out,
    {
        let ghost event = LeaderEvent::Started;
        let mut out: Vec<LeaderOutput> = Vec::new();
        proof {
            lemma_views_push(out@, LeaderOutput::Listen);
        }
        out.push(LeaderOutput::Listen);
        assert(views(out@) =~= seq![LeaderOutputView::Listen]);
        if self.first_leader {
            if self.has_robot {
                let item = LeaderOutput::StartTokens(StartTokens { all_tokens: initial_tokens() });
                proof {
                    lemma_views_push(out@, item);
                    assert(views(out@).push(item.deep_view()) =~= seq![LeaderOutputView::Listen]
                        + seq![LeaderOutputView::StartTokens(first_tokens())]);
                }
                out.push(item);
            } else {
                assert(views(out@) =~= seq![LeaderOutputView::Listen] + Seq::<
                    LeaderOutputView,
                >::empty());
            }
            let screens = all_screen_ids();
            push_screen_calls(&mut out, &screens);
        } else {
            let mut robots = copy_ids(&self.state.available_robots);
            let mut i: usize = 0;
            while i < self.state.robots_orders.len()
                invariant
                    i <= self.state.robots_orders.len(),
                    robots@ == self.state.available_robots@ + busy_robots(
                        views(self.state.robots_orders@),
                    ).subrange(0, i as int),
                decreases self.state.robots_orders.len() - i,
            {
                robots.push(self.state.robots_orders[i].0);
                i = i + 1;
                assert(robots@ =~= self.state.available_robots@ + busy_robots(
                    views(self.state.robots_orders@),
                ).subrange(0, i as int));
            }
            proof {
                let busy = busy_robots(views(self.state.robots_orders@));
                assert(busy.subrange(0, i as int) =~= busy);
            }
            remove_id(&mut robots, self.my_id);
            push_robot_calls(&mut out, &robots);
            push_screen_calls(&mut out, &self.state.screens);
            self.state.screens.clear();
        }
        proof {
            if old(self)@.wf() {
                lemma_leader_stays_sound(old(self)@, event);
            }
        }
        out
    }

    /// Takes note of a connection to a robot.
    pub fn add_new_robot(&mut self, msg: AddNewRobot) -> (out: Vec<LeaderOutput>)
        ensures
            old(self)@.wf() ==> final(self)@.wf(),
            final(self)@ == old(self)@.add_new_robot(msg.robot_id, msg.asked).next,
            views(out@) == old(self)@.add_new_robot(msg.robot_id, msg.asked).out,
    {
        let ghost event = LeaderEvent::AddNewRobot(msg.robot_id, msg.asked);
        let mut out: Vec<LeaderOutput> = Vec::new();
        add_id(&mut self.robots_connections, msg.robot_id);
        assert(views(out@) =~= Seq::<LeaderOutputView>::empty());
        if !msg.asked {
            if find_assignment(&self.state.robots_orders, msg.robot_id).is_none() {
                add_id(&mut self.state.available_robots, msg.robot_id);
            }
            self.assign_new_order(&mut out);
            self.make_and_send_backup(&mut out);
        }
        proof {
            if old(self)@.wf() {
                lemma_leader_stays_sound(old(self)@, event);
            }
        }
        out
    }

    /// Takes note of a connection to a screen.
    pub fn add_new_screen(&mut self, msg: AddNewScreen) -> (out: Vec<LeaderOutput>)
        ensures
            old(self)@.wf() ==> final(self)@.wf(),
            final(self)@ == old(self)@.add_new_screen(msg.screen_id).next,
            views(out@) == old(self)@.add_new_screen(msg.screen_id).out,
    {
        let ghost event = LeaderEvent::AddNewScreen(msg.screen_id);
        let mut out: Vec<LeaderOutput> = Vec::new();
        add_id(&mut self.screens_connections, msg.screen_id);
        add_id(&mut self.state.screens, msg.screen_id);
        assert(views(out@) =~= Seq::<LeaderOutputView>::empty());
        self.make_and_send_backup(&mut out);
        proof {
            if old(self)@.wf() {
                lemma_leader_stays_sound(old(self)@, event);
            }
        }
        out
    }

    /// Asks for a connection to a screen.
    pub fn connect_to_screen(&mut self, msg: ConnectToScreen) -> (out: Vec<LeaderOutput>)
        ensures
            old(self)@.wf() ==> final(self)@.wf(),
            final(self)@ == old(self)@.connect_to_screen(msg.screen_id).next,
            views(out@) == old(self)@.connect_to_screen(msg.screen_id).out,
    {
        let ghost event = LeaderEvent::ConnectToScreen(msg.screen_id);
        let mut out: Vec<LeaderOutput> = Vec::new();
        out.push(LeaderOutput::ConnectToScreen(msg));
        assert(views(out@) =~= seq![LeaderOutputView::ConnectToScreen(msg.screen_id)]);
        proof {
            if old(self)@.wf() {
                lemma_leader_stays_sound(old(self)@, event);
            }
        }
        out
    }

    /// Asks for a connection to a screen that another screen has named.
    pub fn connect_to_new_screen(&mut self, msg: ConnectToNewScreen) -> (out: Vec<LeaderOutput>)
        ensures
            old(self)@.wf() ==> final(self)@.wf(),
            final(self)@ == old(self)@.connect_to_screen(msg.screen_id).next,
            views(out@) == old(self)@.connect_to_screen(msg.screen_id).out,
    {
        self.connect_to_screen(ConnectToScreen { screen_id: msg.screen_id })
    }

    /// Takes an order that a screen has sent.
    pub fn create_new_order(&mut self, msg: CreateNewOrder) -> (out: Vec<LeaderOutput>)
        ensures
            old(self)@.wf() ==> final(self)@.wf(),
            final(self)@ == old(self)@.create_new_order(
                OrderInfoView { order: msg.new_order@, order_id: msg.id@, screen_id: msg.screen_id },
            ).next,
            views(out@) == old(self)@.create_new_order(
                OrderInfoView { order: msg.new_order@, order_id: msg.id@, screen_id: msg.screen_id },
            ).out,
    {
        let ghost event = LeaderEvent::CreateNewOrder(
            OrderInfoView { order: msg.new_order@, order_id: msg.id@, screen_id: msg.screen_id },
        );
        let mut out: Vec<LeaderOutput> = Vec::new();
        let order_info = OrderInfo {
            order: msg.new_order,
            order_id: msg.id,
            screen_id: msg.screen_id,
        };
        proof {
            lemma_views_push(self.state.orders_on_queue@, order_info);
        }
        self.state.orders_on_queue.push_back(order_info);
        assert(views(out@) =~= Seq::<LeaderOutputView>::empty());
        self.assign_new_order(&mut out);
        self.make_and_send_backup(&mut out);
        proof {
            if old(self)@.wf() {
                lemma_leader_stays_sound(old(self)@, event);
            }
        }
        out
    }

    /// Retires the order of a robot and finds where its result goes.
#[verifier::rlimit(50)]
    fn get_order_result(
        &mut self,
        robot_id: usize,
        order_result: bool,
        flavor: Option<FlavorID>,
    ) -> (out: Vec<LeaderOutput>)
        ensures
            old(self)@.wf() ==> final(self)@.wf(),
            final(self)@ == old(self)@.order_result(robot_id, order_result, flavor).next,
            views(out@) == old(self)@.order_result(robot_id, order_result, flavor).out,
    {
        let ghost event = LeaderEvent::OrderResult(robot_id, order_result, flavor);
        let mut out: Vec<LeaderOutput> = Vec::new();
        assert(views(out@) =~= Seq::<LeaderOutputView>::empty());
        add_id(&mut self.state.available_robots, robot_id);
        match find_assignment(&self.state.robots_orders, robot_id) {
            None => {},
            Some(i) => {
                proof {
                    lemma_views_remove(self.state.robots_orders@, i as int);
                }
                let entry = self.state.robots_orders.remove(i);
                let order = entry.1;
                if has_id(&self.screens_connections, order.screen_id) {
                    let item = match flavor {
                        Some(f) => LeaderOutput::OrderAborted {
                            screen_id: order.screen_id,
                            msg: OrderAborted { order_result, id: order.order_id, flavor: f },
                        },
                        None => LeaderOutput::OrderPrepared {
                            screen_id: order.screen_id,
                            msg: OrderPrepared { order_result, id: order.order_id },
                        },
                    };
                    proof {
                        lemma_views_push(out@, item);
                        assert(views(out@).push(item.deep_view()) =~= seq![item.deep_view()]);
                    }
                    out.push(item);
                } else {
                    self.stash_order_waiting(
                        order.order_id,
                        order_result,
                        order.screen_id,
                        flavor,
                    );
                }
            },
        }
        self.make_and_send_backup(&mut out);
        let ghost told = views(out@);
        let given = self.assign_new_order(&mut out);
        if given {
            self.make_and_send_backup(&mut out);
        } else {
            assert(views(out@) =~= told);
        }
        proof {
            if old(self)@.wf() {
                lemma_leader_stays_sound(old(self)@, event);
            }
        }
        out
    }

    /// Takes the report that a robot has prepared its order.
    pub fn get_completed_order(&mut self, msg: GetCompletedOrder) -> (out: Vec<LeaderOutput>)
        ensures
            old(self)@.wf() ==> final(self)@.wf(),
            final(self)@ == old(self)@.order_result(msg.robot_id, msg.order_result, None).next,
            views(out@) == old(self)@.order_result(msg.robot_id, msg.order_result, None).out,
    {
        self.get_order_result(msg.robot_id, msg.order_result, None)
    }

    /// Takes the report that a robot has given up its order.
    pub fn get_aborted_order(&mut self, msg: GetAbortedOrder) -> (out: Vec<LeaderOutput>)
        ensures
            old(self)@.wf() ==> final(self)@.wf(),
            final(self)@ == old(self)@.order_result(
                msg.robot_id,
                msg.order_result,
                Some(msg.flavor),
            ).next,
            views(out@) == old(self)@.order_result(
                msg.robot_id,
                msg.order_result,
                Some(msg.flavor),
            ).out,
    {
        self.get_order_result(msg.robot_id, msg.order_result, Some(msg.flavor))
    }

    /// Keeps a result that could not be handed to its screen.
    pub fn add_order_to_be_sent(&mut self, msg: AddOrderToBeSent) -> (out: Vec<LeaderOutput>)
        ensures
            old(self)@.wf() ==> final(self)@.wf(),
            final(self)@ == old(self)@.add_order_to_be_sent(
                OrderWaitingView {
                    order_result: msg.order_result,
                    id: msg.id@,
                    screen_id: msg.screen_id,
                    flavor: msg.flavor,
                },
            ).next,
            views(out@) == old(self)@.add_order_to_be_sent(
                OrderWaitingView {
                    order_result: msg.order_result,
                    id: msg.id@,
                    screen_id: msg.screen_id,
                    flavor: msg.flavor,
                },
            ).out,
    {
        let ghost event = LeaderEvent::AddOrderToBeSent(
            OrderWaitingView {
                order_result: msg.order_result,
                id: msg.id@,
                screen_id: msg.screen_id,
                flavor: msg.flavor,
            },
        );
        let mut out: Vec<LeaderOutput> = Vec::new();
        assert(views(out@) =~= Seq::<LeaderOutputView>::empty());
        self.stash_order_waiting(msg.id, msg.order_result, msg.screen_id, msg.flavor);
        self.make_and_send_backup(&mut out);
        proof {
            if old(self)@.wf() {
                lemma_leader_stays_sound(old(self)@, event);
            }
        }
        out
    }

    /// Takes note that a robot is gone.
    pub fn robot_died(&mut self, msg: RobotDied) -> (out: Vec<LeaderOutput>)
        ensures
            old(self)@.wf() ==> final(self)@.wf(),
            final(self)@ == old(self)@.robot_died(msg.robot_id).next,
            views(out@) == old(self)@.robot_died(msg.robot_id).out,
    {
        let ghost event = LeaderEvent::RobotDied(msg.robot_id);
        let robot_id = msg.robot_id;
        let mut out: Vec<LeaderOutput> = Vec::new();
        out.push(LeaderOutput::DropRobot { robot_id });
        assert(views(out@) =~= seq![LeaderOutputView::DropRobot(robot_id)]);
        remove_id(&mut self.state.available_robots, robot_id);
        match find_assignment(&self.state.robots_orders, robot_id) {
            Some(i) => {
                proof {
                    lemma_views_remove(self.state.robots_orders@, i as int);
                }
                let entry = self.state.robots_orders.remove(i);
                proof {
                    lemma_views_insert(self.state.orders_on_queue@, 0, entry.1);
                    assert(seq![entry.1] + self.state.orders_on_queue@
                        =~= self.state.orders_on_queue@.insert(0, entry.1));
                }
                self.state.orders_on_queue.push_front(entry.1);
            },
            None => {},
        }
        remove_id(&mut self.robots_connections, robot_id);
        self.assign_new_order(&mut out);
        self.make_and_send_backup(&mut out);
        proof {
            if old(self)@.wf() {
                lemma_leader_stays_sound(old(self)@, event);
            }
        }
        out
    }

    /// Takes note that a screen is gone.
    pub fn screen_died(&mut self, msg: ScreenDied) -> (out: Vec<LeaderOutput>)
        ensures
            old(self)@.wf() ==> final(self)@.wf(),
            final(self)@ == old(self)@.screen_died(msg.screen_id).next,
            views(out@) == old(self)@.screen_died(msg.screen_id).out,
    {
        let ghost event = LeaderEvent::ScreenDied(msg.screen_id);
        let mut out: Vec<LeaderOutput> = Vec::new();
        out.push(LeaderOutput::DropScreen { screen_id: msg.screen_id });
        assert(views(out@) =~= seq![LeaderOutputView::DropScreen(msg.screen_id)]);
        remove_id(&mut self.state.screens, msg.screen_id);
        remove_id(&mut self.screens_connections, msg.screen_id);
        self.make_and_send_backup(&mut out);
        proof {
            if old(self)@.wf() {
                lemma_leader_stays_sound(old(self)@, event);
            }
        }
        out
    }

    /// Lets one screen take over from another.
#[verifier::rlimit(50)]
    pub fn change_screen(&mut self, msg: ChangeScreen) -> (out: Vec<LeaderOutput>)
        ensures
            old(self)@.wf() ==> final(self)@.wf(),
            final(self)@ == old(self)@.change_screen(
                msg.original_screen_id,
                msg.new_screen_id,
            ).next,
            views(out@) == old(self)@.change_screen(msg.original_screen_id, msg.new_screen_id).out,
    {
        let ghost event = LeaderEvent::ChangeScreen(msg.original_screen_id, msg.new_screen_id);
        let old_screen = msg.original_screen_id;
        let new_screen = msg.new_screen_id;
        let mut out: Vec<LeaderOutput> = Vec::new();
        assert(views(out@) =~= Seq::<LeaderOutputView>::empty());
        if has_id(&self.screens_connections, new_screen) {
            let mut kept: Vec<OrderWaiting> = Vec::new();
            let mut i: usize = 0;
            assert(views(kept@) =~= Seq::<OrderWaitingView>::empty());
            while i < self.state.orders_to_be_sent.len()
                invariant
                    i <= self.state.orders_to_be_sent.len(),
                    views(kept@) == kept_waiting(
                        views(self.state.orders_to_be_sent@).subrange(0, i as int),
                        old_screen,
                    ),
                    views(out@) == redelivered(
                        views(self.state.orders_to_be_sent@).subrange(0, i as int),
                        old_screen,
                        new_screen,
                    ),
                decreases self.state.orders_to_be_sent.len() - i,
            {
                let order = self.state.orders_to_be_sent[i].clone();
                proof {
                    let all = views(self.state.orders_to_be_sent@);
                    assert(all.subrange(0, i as int + 1).drop_last() =~= all.subrange(
                        0,
                        i as int,
                    ));
                    assert(all.subrange(0, i as int + 1).last() == order@);
                }
                if order.screen_id == old_screen {
                    let item = match order.flavor {
                        Some(f) => LeaderOutput::OrderAborted {
                            screen_id: new_screen,
                            msg: OrderAborted {
                                order_result: order.order_result,
                                id: order.id,
                                flavor: f,
                            },
                        },
                        None => LeaderOutput::OrderPrepared {
                            screen_id: new_screen,
                            msg: OrderPrepared { order_result: order.order_result, id: order.id },
                        },
                    };
                    proof {
                        lemma_views_push(out@, item);
                    }
                    out.push(item);
                } else {
                    proof {
                        lemma_views_push(kept@, order);
                    }
                    kept.push(order);
                }
                i = i + 1;
            }
            proof {
                let all = views(self.state.orders_to_be_sent@);
                assert(all.subrange(0, i as int) =~= all);
            }
            self.state.orders_to_be_sent = kept;
        }
        let mut queue: VecDeque<OrderInfo> = VecDeque::new();
        let mut i: usize = 0;
        while i < self.state.orders_on_queue.len()
            invariant
                i <= self.state.orders_on_queue.len(),
                views(queue@) == moved_orders(
                    views(self.state.orders_on_queue@),
                    old_screen,
                    new_screen,
                ).subrange(0, i as int),
            decreases self.state.orders_on_queue.len() - i,
        {
            let order = self.state.orders_on_queue[i].moved(old_screen, new_screen);
            proof {
                lemma_views_push(queue@, order);
            }
            queue.push_back(order);
            i = i + 1;
            assert(views(queue@) =~= moved_orders(
                views(self.state.orders_on_queue@),
                old_screen,
                new_screen,
            ).subrange(0, i as int));
        }
        proof {
            let all = moved_orders(views(self.state.orders_on_queue@), old_screen, new_screen);
            assert(all.subrange(0, i as int) =~= all);
        }
        self.state.orders_on_queue = queue;
        let mut assignments: Vec<(usize, OrderInfo)> = Vec::new();
        let mut i: usize = 0;
        while i < self.state.robots_orders.len()
            invariant
                i <= self.state.robots_orders.len(),
                views(assignments@) == moved_assignments(
                    views(self.state.robots_orders@),
                    old_screen,
                    new_screen,
                ).subrange(0, i as int),
            decreases self.state.robots_orders.len() - i,
        {
            let entry = (
                self.state.robots_orders[i].0,
                self.state.robots_orders[i].1.moved(old_screen, new_screen),
            );
            proof {
                lemma_views_push(assignments@, entry);
            }
            assignments.push(entry);
            i = i + 1;
            assert(views(assignments@) =~= moved_assignments(
                views(self.state.robots_orders@),
                old_screen,
                new_screen,
            ).subrange(0, i as int));
        }
        proof {
            let all = moved_assignments(
                views(self.state.robots_orders@),
                old_screen,
                new_screen,
            );
            assert(all.subrange(0, i as int) =~= all);
        }
        self.state.robots_orders = assignments;
        self.make_and_send_backup(&mut out);
        proof {
            if old(self)@.wf() {
                lemma_leader_stays_sound(old(self)@, event);
            }
        }
        out
    }
}

/// Anything that can happen to a leader.
pub enum LeaderEvent {
    Started,
    AddNewRobot(usize, bool),
    AddNewScreen(usize),
    ConnectToScreen(usize),
    CreateNewOrder(OrderInfoView),
    OrderResult(usize, bool, Option<FlavorID>),
    AddOrderToBeSent(OrderWaitingView),
    RobotDied(usize),
    ScreenDied(usize),
    ChangeScreen(usize, usize),
}

/// Whether the order `id` stands on the queue.
pub open spec fn queued(queue: Seq<OrderInfoView>, id: Seq<char>) -> bool {
    exists|i: int| 0 <= i < queue.len() && (#[trigger] queue[i]).order_id == id
}

/// Whether the order `id` is with a robot.
pub open spec fn in_preparation(orders: Seq<(usize, OrderInfoView)>, id: Seq<char>) -> bool {
    exists|i: int| 0 <= i < orders.len() && (#[trigger] orders[i]).1.order_id == id
}

/// Whether the result of the order `id` waits for a screen.
pub open spec fn awaits_screen(waiting: Seq<OrderWaitingView>, id: Seq<char>) -> bool {
    exists|i: int| 0 <= i < waiting.len() && (#[trigger] waiting[i]).id == id
}

/// Whether an output tells a screen the result of the order `id`.
pub open spec fn tells_result(output: LeaderOutputView, id: Seq<char>) -> bool {
    match output {
        LeaderOutputView::OrderPrepared(_, _, told) => told == id,
        LeaderOutputView::OrderAborted(_, _, told, _) => told == id,
        _ => false,
    }
}

/// Whether the result of the order `id` goes out to a screen.
pub open spec fn delivers(out: Seq<LeaderOutputView>, id: Seq<char>) -> bool {
    exists|k: int| 0 <= k < out.len() && tells_result(#[trigger] out[k], id)
}

impl RobotLeaderView {
    /// What an event does to the leader.
    pub open spec fn step(self, event: LeaderEvent) -> LeaderStep {
        match event {
            LeaderEvent::Started => self.started(),
            LeaderEvent::AddNewRobot(robot_id, asked) => self.add_new_robot(robot_id, asked),
            LeaderEvent::AddNewScreen(screen_id) => self.add_new_screen(screen_id),
            LeaderEvent::ConnectToScreen(screen_id) => self.connect_to_screen(screen_id),
            LeaderEvent::CreateNewOrder(order) => self.create_new_order(order),
            LeaderEvent::OrderResult(robot_id, result, flavor) => self.order_result(
                robot_id,
                result,
                flavor,
            ),
            LeaderEvent::AddOrderToBeSent(waiting) => self.add_order_to_be_sent(waiting),
            LeaderEvent::RobotDied(robot_id) => self.robot_died(robot_id),
            LeaderEvent::ScreenDied(screen_id) => self.screen_died(screen_id),
            LeaderEvent::ChangeScreen(old_screen, new_screen) => self.change_screen(
                old_screen,
                new_screen,
            ),
        }
    }

    /// Whether the leader keeps the order `id`: on the queue, with a
    /// robot, or as a result that waits for a screen.
    pub open spec fn tracks(self, id: Seq<char>) -> bool {
        ||| queued(self.orders_on_queue, id)
        ||| in_preparation(self.robots_orders, id)
        ||| awaits_screen(self.orders_to_be_sent, id)
    }

    /// The idle robots and the robots with an order are two sets: no
    /// robot stands twice among the idle, none has two orders, and none
    /// is idle while it has an order.
    pub open spec fn wf(self) -> bool {
        &&& self.available_robots.no_duplicates()
        &&& busy_robots(self.robots_orders).no_duplicates()
        &&& forall|i: int, j: int|
            0 <= i < self.available_robots.len() && 0 <= j < self.robots_orders.len()
                ==> #[trigger] self.available_robots[i] != (#[trigger] self.robots_orders[j]).0
    }
}

/// Telling the followers keeps the state and delivers nothing more.
proof fn lemma_then_tell(step: LeaderStep, id: Seq<char>)
    ensures
        step.then_tell().next == step.next,
        delivers(step.then_tell().out, id) <==> delivers(step.out, id),
{
    let told = step.then_tell().out;
    if delivers(told, id) {
        let k = choose|k: int| 0 <= k < told.len() && tells_result(#[trigger] told[k], id);
        assert(tells_result(step.out[k], id));
    }
    if delivers(step.out, id) {
        let k = choose|k: int| 0 <= k < step.out.len() && tells_result(#[trigger] step.out[k], id);
        assert(tells_result(told[k], id));
    }
}

/// Giving out an order keeps every order, and delivers nothing.
#[verifier::rlimit(50)]
proof fn lemma_then_assign(step: LeaderStep, id: Seq<char>)
    ensures
        step.then_assign().next.tracks(id) <==> step.next.tracks(id),
        delivers(step.then_assign().out, id) <==> delivers(step.out, id),
        step.next.wf() ==> step.then_assign().next.wf(),
{
    let state = step.next;
    let given = state.assign_new_order();
    let out = step.then_assign().out;
    if delivers(out, id) {
        let k = choose|k: int| 0 <= k < out.len() && tells_result(#[trigger] out[k], id);
        if k < step.out.len() {
            assert(tells_result(step.out[k], id));
        }
    }
    if delivers(step.out, id) {
        let k = choose|k: int| 0 <= k < step.out.len() && tells_result(#[trigger] step.out[k], id);
        assert(tells_result(out[k], id));
    }
    if state.can_assign() {
        let next = given.next;
        let robot = state.available_robots.last();
        let order = state.orders_on_queue[0];
        if queued(state.orders_on_queue, id) {
            let i = choose|i: int|
                0 <= i < state.orders_on_queue.len() && (#[trigger] state.orders_on_queue[i]).order_id
                    == id;
            if i == 0 {
                assert(next.robots_orders[state.robots_orders.len() as int].1.order_id == id);
            } else {
                assert(next.orders_on_queue[i - 1].order_id == id);
            }
        }
        if in_preparation(state.robots_orders, id) {
            let i = choose|i: int|
                0 <= i < state.robots_orders.len() && (#[trigger] state.robots_orders[i]).1.order_id
                    == id;
            assert(next.robots_orders[i].1.order_id == id);
        }
        if queued(next.orders_on_queue, id) {
            let i = choose|i: int|
                0 <= i < next.orders_on_queue.len() && (#[trigger] next.orders_on_queue[i]).order_id
                    == id;
            assert(state.orders_on_queue[i + 1].order_id == id);
        }
        if in_preparation(next.robots_orders, id) {
            let i = choose|i: int|
                0 <= i < next.robots_orders.len() && (#[trigger] next.robots_orders[i]).1.order_id
                    == id;
            if i < state.robots_orders.len() {
                assert(state.robots_orders[i].1.order_id == id);
            } else {
                assert(state.orders_on_queue[0].order_id == id);
            }
        }
        if state.wf() {
            let last = state.available_robots.len() - 1;
            assert forall|i: int, j: int|
                0 <= i < next.available_robots.len() && 0 <= j < next.robots_orders.len()
                implies #[trigger] next.available_robots[i] != (#[trigger] next.robots_orders[j]).0 by {
                if j < state.robots_orders.len() {
                    assert(state.available_robots[i] != state.robots_orders[j].0);
                } else {
                    assert(state.available_robots[i] != state.available_robots[last]);
                }
            }
            let busy = busy_robots(next.robots_orders);
            let was = busy_robots(state.robots_orders);
            assert forall|a: int, b: int|
                0 <= a < busy.len() && 0 <= b < busy.len() && a != b implies busy[a]
                != busy[b] by {
                if a < was.len() && b < was.len() {
                    assert(was[a] != was[b]);
                } else if a < was.len() {
                    assert(state.available_robots[last] != state.robots_orders[a].0);
                } else {
                    assert(state.available_robots[last] != state.robots_orders[b].0);
                }
            }
        }
    }
}

/// Giving out an order and telling of it keeps every order, and
/// delivers nothing.
proof fn lemma_then_assign_and_tell(step: LeaderStep, id: Seq<char>)
    ensures
        step.then_assign_and_tell().next.tracks(id) <==> step.next.tracks(id),
        delivers(step.then_assign_and_tell().out, id) <==> delivers(step.out, id),
        step.next.wf() ==> step.then_assign_and_tell().next.wf(),
{
    lemma_then_assign(step, id);
    lemma_then_tell(step.then_assign(), id);
}

/// Taking the first order that a robot has out of the list, where it has
/// one, keeps all the others.
proof fn lemma_retired(orders: Seq<(usize, OrderInfoView)>, i: int, id: Seq<char>)
    requires
        0 <= i < orders.len(),
    ensures
        in_preparation(orders, id) <==> in_preparation(orders.remove(i), id) || orders[i].1.order_id
            == id,
{
    let rest = orders.remove(i);
    if in_preparation(orders, id) {
        let k = choose|k: int| 0 <= k < orders.len() && (#[trigger] orders[k]).1.order_id == id;
        if k < i {
            assert(rest[k].1.order_id == id);
        } else if k > i {
            assert(rest[k - 1].1.order_id == id);
        }
    }
    if in_preparation(rest, id) {
        let k = choose|k: int| 0 <= k < rest.len() && (#[trigger] rest[k]).1.order_id == id;
        if k < i {
            assert(orders[k].1.order_id == id);
        } else {
            assert(orders[k + 1].1.order_id == id);
        }
    }
    if orders[i].1.order_id == id {
        assert(orders[i].1.order_id == id);
    }
}

/// Putting an order at the front of the queue keeps all the others.
proof fn lemma_requeued(queue: Seq<OrderInfoView>, order: OrderInfoView, id: Seq<char>)
    ensures
        queued(queue.insert(0, order), id) <==> queued(queue, id) || order.order_id == id,
{
    let more = queue.insert(0, order);
    if queued(more, id) {
        let k = choose|k: int| 0 <= k < more.len() && (#[trigger] more[k]).order_id == id;
        if k > 0 {
            assert(queue[k - 1].order_id == id);
        }
    }
    if queued(queue, id) {
        let k = choose|k: int| 0 <= k < queue.len() && (#[trigger] queue[k]).order_id == id;
        assert(more[k + 1].order_id == id);
    }
    if order.order_id == id {
        assert(more[0].order_id == id);
    }
}

/// Putting an order at the end of the queue keeps all the others.
proof fn lemma_enqueued(queue: Seq<OrderInfoView>, order: OrderInfoView, id: Seq<char>)
    ensures
        queued(queue.push(order), id) <==> queued(queue, id) || order.order_id == id,
{
    let more = queue.push(order);
    if queued(more, id) {
        let k = choose|k: int| 0 <= k < more.len() && (#[trigger] more[k]).order_id == id;
        if k < queue.len() {
            assert(queue[k].order_id == id);
        }
    }
    if queued(queue, id) {
        let k = choose|k: int| 0 <= k < queue.len() && (#[trigger] queue[k]).order_id == id;
        assert(more[k].order_id == id);
    }
    if order.order_id == id {
        assert(more[queue.len() as int].order_id == id);
    }
}

/// Keeping one more result keeps all the others.
proof fn lemma_stashed(waiting: Seq<OrderWaitingView>, one: OrderWaitingView, id: Seq<char>)
    ensures
        awaits_screen(waiting.push(one), id) <==> awaits_screen(waiting, id) || one.id == id,
{
    let more = waiting.push(one);
    if awaits_screen(more, id) {
        let k = choose|k: int| 0 <= k < more.len() && (#[trigger] more[k]).id == id;
        if k < waiting.len() {
            assert(waiting[k].id == id);
        }
    }
    if awaits_screen(waiting, id) {
        let k = choose|k: int| 0 <= k < waiting.len() && (#[trigger] waiting[k]).id == id;
        assert(more[k].id == id);
    }
    if one.id == id {
        assert(more[waiting.len() as int].id == id);
    }
}

/// Every result that waited for the old screen is either still kept or
/// handed to the new screen.
proof fn lemma_redelivered(
    waiting: Seq<OrderWaitingView>,
    old_screen: usize,
    new_screen: usize,
    id: Seq<char>,
)
    ensures
        awaits_screen(waiting, id) ==> awaits_screen(kept_waiting(waiting, old_screen), id)
            || delivers(redelivered(waiting, old_screen, new_screen), id),
    decreases waiting.len(),
{
    if waiting.len() > 0 {
        let front = waiting.drop_last();
        let last = waiting.last();
        lemma_redelivered(front, old_screen, new_screen, id);
        let kept = kept_waiting(waiting, old_screen);
        let sent = redelivered(waiting, old_screen, new_screen);
        let kept_front = kept_waiting(front, old_screen);
        let sent_front = redelivered(front, old_screen, new_screen);
        if awaits_screen(waiting, id) {
            let k = choose|k: int| 0 <= k < waiting.len() && (#[trigger] waiting[k]).id == id;
            if k < front.len() {
                assert(front[k].id == id);
                assert(awaits_screen(front, id));
                if awaits_screen(kept_front, id) {
                    let j = choose|j: int|
                        0 <= j < kept_front.len() && (#[trigger] kept_front[j]).id == id;
                    assert(kept[j].id == id);
                } else {
                    let j = choose|j: int|
                        0 <= j < sent_front.len() && tells_result(#[trigger] sent_front[j], id);
                    assert(tells_result(sent[j], id));
                }
            } else {
                if last.screen_id == old_screen {
                    assert(tells_result(sent[sent_front.len() as int], id));
                } else {
                    assert(kept[kept_front.len() as int].id == id);
                }
            }
        }
    }
}

/// Every order that the leader keeps before an event it keeps after the
/// event, unless the event hands its result to a screen; and an order
/// that a screen sends is kept from then on. No order is dropped.
#[verifier::rlimit(50)]
pub proof fn lemma_no_order_is_lost(state: RobotLeaderView, event: LeaderEvent, id: Seq<char>)
    ensures
        state.tracks(id) ==> state.step(event).next.tracks(id) || delivers(
            state.step(event).out,
            id,
        ),
        event matches LeaderEvent::CreateNewOrder(order) ==> state.step(event).next.tracks(
            order.order_id,
        ),
{
    match event {
        LeaderEvent::Started => {},
        LeaderEvent::AddNewRobot(robot_id, asked) => {
            if !asked {
                let first = LeaderStep {
                    next: RobotLeaderView {
                        available_robots: if assigned_at(state.robots_orders, robot_id) is Some {
                            state.available_robots
                        } else {
                            with_id(state.available_robots, robot_id)
                        },
                        robots_connections: with_id(state.robots_connections, robot_id),
                        ..state
                    },
                    out: Seq::empty(),
                };
                lemma_then_assign(first, id);
                lemma_then_tell(first.then_assign(), id);
            }
        },
        LeaderEvent::AddNewScreen(screen_id) => {},
        LeaderEvent::ConnectToScreen(screen_id) => {},
        LeaderEvent::CreateNewOrder(order) => {
            let first = LeaderStep {
                next: RobotLeaderView { orders_on_queue: state.orders_on_queue.push(order), ..state },
                out: Seq::empty(),
            };
            lemma_enqueued(state.orders_on_queue, order, id);
            lemma_enqueued(state.orders_on_queue, order, order.order_id);
            lemma_then_assign(first, id);
            lemma_then_assign(first, order.order_id);
            lemma_then_tell(first.then_assign(), id);
        },
        LeaderEvent::OrderResult(robot_id, result, flavor) => {
            lemma_assigned_at(state.robots_orders, robot_id);
            let idle = with_id(state.available_robots, robot_id);
            let first = match assigned_at(state.robots_orders, robot_id) {
                None => LeaderStep {
                    next: RobotLeaderView { available_robots: idle, ..state },
                    out: Seq::empty(),
                },
                Some(i) => {
                    let order = state.robots_orders[i].1;
                    let retired = RobotLeaderView {
                        available_robots: idle,
                        robots_orders: state.robots_orders.remove(i),
                        ..state
                    };
                    lemma_retired(state.robots_orders, i, id);
                    if state.screens_connections.contains(order.screen_id) {
                        let out = seq![
                            result_output(order.screen_id, result, order.order_id, flavor),
                        ];
                        if order.order_id == id {
                            assert(tells_result(out[0], id));
                        }
                        LeaderStep { next: retired, out }
                    } else {
                        let waiting = OrderWaitingView {
                            order_result: result,
                            id: order.order_id,
                            screen_id: order.screen_id,
                            flavor,
                        };
                        lemma_stashed(state.orders_to_be_sent, waiting, id);
                        LeaderStep { next: retired.stashed(waiting), out: Seq::empty() }
                    }
                },
            };
            lemma_then_tell(first, id);
            lemma_then_assign_and_tell(first.then_tell(), id);
        },
        LeaderEvent::AddOrderToBeSent(waiting) => {
            lemma_stashed(state.orders_to_be_sent, waiting, id);
        },
        LeaderEvent::RobotDied(robot_id) => {
            lemma_assigned_at(state.robots_orders, robot_id);
            let mine = assigned_at(state.robots_orders, robot_id);
            let first = LeaderStep {
                next: RobotLeaderView {
                    available_robots: without(state.available_robots, robot_id),
                    orders_on_queue: match mine {
                        Some(i) => state.orders_on_queue.insert(0, state.robots_orders[i].1),
                        None => state.orders_on_queue,
                    },
                    robots_orders: match mine {
                        Some(i) => state.robots_orders.remove(i),
                        None => state.robots_orders,
                    },
                    robots_connections: without(state.robots_connections, robot_id),
                    ..state
                },
                out: seq![LeaderOutputView::DropRobot(robot_id)],
            };
            if mine is Some {
                let i = mine.unwrap();
                lemma_retired(state.robots_orders, i, id);
                lemma_requeued(state.orders_on_queue, state.robots_orders[i].1, id);
            }
            lemma_then_assign(first, id);
            lemma_then_tell(first.then_assign(), id);
        },
        LeaderEvent::ScreenDied(screen_id) => {},
        LeaderEvent::ChangeScreen(old_screen, new_screen) => {
            let next = state.step(event).next;
            if queued(state.orders_on_queue, id) {
                let k = choose|k: int|
                    0 <= k < state.orders_on_queue.len() && (
                    #[trigger] state.orders_on_queue[k]).order_id == id;
                assert(next.orders_on_queue[k].order_id == id);
            }
            if in_preparation(state.robots_orders, id) {
                let k = choose|k: int|
                    0 <= k < state.robots_orders.len() && (
                    #[trigger] state.robots_orders[k]).1.order_id == id;
                assert(next.robots_orders[k].1.order_id == id);
            }
            lemma_redelivered(state.orders_to_be_sent, old_screen, new_screen, id);
            let reachable = state.screens_connections.contains(new_screen);
            let first = LeaderStep {
                next,
                out: if reachable {
                    redelivered(state.orders_to_be_sent, old_screen, new_screen)
                } else {
                    Seq::empty()
                },
            };
            lemma_then_tell(first, id);
        },
    }
}

/// A leader that takes over with a snapshot keeps every order that the
/// snapshot holds: an order survives the leader that took it.
pub proof fn lemma_takeover_keeps_orders(
    my_id: usize,
    has_robot: bool,
    backup: LeaderBackupView,
    id: Seq<char>,
)
    ensures
        RobotLeaderView::from_backup(my_id, has_robot, backup).tracks(id) <==> (queued(
            backup.orders_on_queue,
            id,
        ) || in_preparation(backup.robots_orders, id) || awaits_screen(
            backup.orders_to_be_sent,
            id,
        )),
{
    lemma_assigned_at(backup.robots_orders, my_id);
    match assigned_at(backup.robots_orders, my_id) {
        Some(i) => {
            lemma_retired(backup.robots_orders, i, id);
            lemma_requeued(backup.orders_on_queue, backup.robots_orders[i].1, id);
        },
        None => {},
    }
}

/// After every event that changes what the leader keeps, the last thing
/// that goes out is the snapshot of the state as it is then, to every
/// robot to which a connection stands.
pub proof fn lemma_followers_are_told(state: RobotLeaderView, event: LeaderEvent)
    requires
        !(event is Started),
        !(event is ConnectToScreen),
        !(event matches LeaderEvent::AddNewRobot(_, asked) && asked),
    ensures
        state.step(event).out.len() > 0,
        state.step(event).out.last() == state.step(event).next.snapshot_output(),
{
}

/// Taking an order out of the list keeps the rest a set, and apart from
/// the idle robots.
proof fn lemma_retired_sound(state: RobotLeaderView, i: int, idle: Seq<usize>)
    requires
        state.wf(),
        0 <= i < state.robots_orders.len(),
        idle.no_duplicates(),
        forall|x: usize|
            idle.contains(x) ==> state.available_robots.contains(x) || x
                == state.robots_orders[i].0,
    ensures
        (RobotLeaderView {
            available_robots: idle,
            robots_orders: state.robots_orders.remove(i),
            ..state
        }).wf(),
{
    let rest = state.robots_orders.remove(i);
    let busy = busy_robots(rest);
    let was = busy_robots(state.robots_orders);
    assert forall|a: int| 0 <= a < rest.len() implies (#[trigger] rest[a]).0 != state.robots_orders[i].0
        && exists|b: int|
        0 <= b < state.robots_orders.len() && b != i && state.robots_orders[b] == rest[a] by {
        let b = if a < i {
            a
        } else {
            a + 1
        };
        assert(state.robots_orders[b] == rest[a]);
        assert(was[b] != was[i]);
    }
    assert forall|a: int, b: int|
        0 <= a < busy.len() && 0 <= b < busy.len() && a != b implies busy[a] != busy[b] by {
        let a2 = if a < i {
            a
        } else {
            a + 1
        };
        let b2 = if b < i {
            b
        } else {
            b + 1
        };
        assert(was[a2] != was[b2]);
    }
    assert forall|a: int, b: int| 0 <= a < idle.len() && 0 <= b < rest.len() implies #[trigger] idle[a]
        != (#[trigger] rest[b]).0 by {
        assert(idle.contains(idle[a]));
        let b2 = if b < i {
            b
        } else {
            b + 1
        };
        assert(state.robots_orders[b2] == rest[b]);
        if state.available_robots.contains(idle[a]) {
            let k = choose|k: int|
                0 <= k < state.available_robots.len() && state.available_robots[k] == idle[a];
            assert(state.available_robots[k] != state.robots_orders[b2].0);
        } else {
            assert(was[i] != was[b2]);
        }
    }
}

/// Changing the idle robots to some of those that were idle, or to a
/// robot without an order, keeps the state sound.
proof fn lemma_idle_sound(state: RobotLeaderView, idle: Seq<usize>, robot: usize)
    requires
        state.wf(),
        idle.no_duplicates(),
        forall|x: usize| idle.contains(x) ==> state.available_robots.contains(x) || x == robot,
        idle.contains(robot) && !state.available_robots.contains(robot) ==> assigned_at(
            state.robots_orders,
            robot,
        ) is None,
    ensures
        (RobotLeaderView { available_robots: idle, ..state }).wf(),
{
    lemma_assigned_at(state.robots_orders, robot);
    assert forall|a: int, b: int|
        0 <= a < idle.len() && 0 <= b < state.robots_orders.len() implies #[trigger] idle[a] != (
    #[trigger] state.robots_orders[b]).0 by {
        assert(idle.contains(idle[a]));
        if state.available_robots.contains(idle[a]) {
            let k = choose|k: int|
                0 <= k < state.available_robots.len() && state.available_robots[k] == idle[a];
            assert(state.available_robots[k] != state.robots_orders[b].0);
        }
    }
}

/// Whatever happens, a sound leader stays sound.
#[verifier::rlimit(50)]
pub proof fn lemma_leader_stays_sound(state: RobotLeaderView, event: LeaderEvent)
    requires
        state.wf(),
    ensures
        state.step(event).next.wf(),
{
    let id = Seq::<char>::empty();
    match event {
        LeaderEvent::Started => {},
        LeaderEvent::AddNewRobot(robot_id, asked) => {
            if !asked {
                let idle = if assigned_at(state.robots_orders, robot_id) is Some {
                    state.available_robots
                } else {
                    with_id(state.available_robots, robot_id)
                };
                lemma_with_id(state.available_robots, robot_id);
                lemma_idle_sound(state, idle, robot_id);
                let first = LeaderStep {
                    next: RobotLeaderView {
                        available_robots: idle,
                        robots_connections: with_id(state.robots_connections, robot_id),
                        ..state
                    },
                    out: Seq::empty(),
                };
                lemma_then_assign(first, id);
            }
        },
        LeaderEvent::AddNewScreen(screen_id) => {},
        LeaderEvent::ConnectToScreen(screen_id) => {},
        LeaderEvent::CreateNewOrder(order) => {
            let first = LeaderStep {
                next: RobotLeaderView { orders_on_queue: state.orders_on_queue.push(order), ..state },
                out: Seq::empty(),
            };
            lemma_then_assign(first, id);
        },
        LeaderEvent::OrderResult(robot_id, result, flavor) => {
            lemma_assigned_at(state.robots_orders, robot_id);
            lemma_with_id(state.available_robots, robot_id);
            let idle = with_id(state.available_robots, robot_id);
            let first = match assigned_at(state.robots_orders, robot_id) {
                None => {
                    lemma_idle_sound(state, idle, robot_id);
                    LeaderStep {
                        next: RobotLeaderView { available_robots: idle, ..state },
                        out: Seq::empty(),
                    }
                },
                Some(i) => {
                    let order = state.robots_orders[i].1;
                    lemma_retired_sound(state, i, idle);
                    let retired = RobotLeaderView {
                        available_robots: idle,
                        robots_orders: state.robots_orders.remove(i),
                        ..state
                    };
                    if state.screens_connections.contains(order.screen_id) {
                        LeaderStep {
                            next: retired,
                            out: seq![
                                result_output(order.screen_id, result, order.order_id, flavor),
                            ],
                        }
                    } else {
                        LeaderStep {
                            next: retired.stashed(
                                OrderWaitingView {
                                    order_result: result,
                                    id: order.order_id,
                                    screen_id: order.screen_id,
                                    flavor,
                                },
                            ),
                            out: Seq::empty(),
                        }
                    }
                },
            };
            lemma_then_assign_and_tell(first.then_tell(), id);
        },
        LeaderEvent::AddOrderToBeSent(waiting) => {},
        LeaderEvent::RobotDied(robot_id) => {
            lemma_assigned_at(state.robots_orders, robot_id);
            lemma_without(state.available_robots, robot_id);
            let idle = without(state.available_robots, robot_id);
            let mine = assigned_at(state.robots_orders, robot_id);
            match mine {
                Some(i) => {
                    lemma_retired_sound(state, i, idle);
                },
                None => {
                    lemma_idle_sound(state, idle, robot_id);
                },
            }
            let first = LeaderStep {
                next: RobotLeaderView {
                    available_robots: idle,
                    orders_on_queue: match mine {
                        Some(i) => state.orders_on_queue.insert(0, state.robots_orders[i].1),
                        None => state.orders_on_queue,
                    },
                    robots_orders: match mine {
                        Some(i) => state.robots_orders.remove(i),
                        None => state.robots_orders,
                    },
                    robots_connections: without(state.robots_connections, robot_id),
                    ..state
                },
                out: seq![LeaderOutputView::DropRobot(robot_id)],
            };
            lemma_then_assign(first, id);
        },
        LeaderEvent::ScreenDied(screen_id) => {},
        LeaderEvent::ChangeScreen(old_screen, new_screen) => {
            let next = state.step(event).next;
            assert(busy_robots(next.robots_orders) =~= busy_robots(state.robots_orders));
        },
    }
}

/// A leader that starts the shop is sound, and a leader that takes over
/// with the snapshot of a sound leader is sound.
pub proof fn lemma_new_leader_is_sound(
    my_id: usize,
    has_robot: bool,
    before: RobotLeaderView,
)
    requires
        before.wf(),
    ensures
        RobotLeaderView::fresh(my_id, has_robot).wf(),
        RobotLeaderView::from_backup(my_id, has_robot, before.backup()).wf(),
{
    let backup = before.backup();
    lemma_assigned_at(backup.robots_orders, my_id);
    lemma_without(backup.available_robots, my_id);
    let idle = without(backup.available_robots, my_id);
    match assigned_at(backup.robots_orders, my_id) {
        Some(i) => {
            lemma_retired_sound(before, i, idle);
        },
        None => {
            lemma_idle_sound(before, idle, my_id);
        },
    }
}

/// Whether an output puts first tokens into the ring.
pub open spec fn starts_tokens(output: LeaderOutputView) -> bool {
    output is StartTokens
}

/// The first tokens are one token for each flavor, with the flavor's
/// opening stock, and the leader puts tokens into the ring only when it
/// starts, and only a leader that starts the shop does.
#[verifier::rlimit(50)]
pub proof fn lemma_tokens_are_made_once(state: RobotLeaderView, event: LeaderEvent, k: int)
    requires
        0 <= k < state.step(event).out.len(),
        starts_tokens(state.step(event).out[k]),
    ensures
        event is Started,
        state.first_leader,
        state.step(event).out[k] == LeaderOutputView::StartTokens(first_tokens()),
        first_tokens().len() == FLAVOR_COUNT,
        forall|i: int|
            0 <= i < FLAVOR_COUNT ==> (#[trigger] first_tokens()[i]).spec_id() == flavor_at(
                i as nat,
            ) && first_tokens()[i].spec_amount() == spec_initial_stock(flavor_at(i as nat)),
{
    assert forall|i: int| 0 <= i < FLAVOR_COUNT implies (#[trigger] first_tokens()[i]).spec_id()
        == flavor_at(i as nat) && first_tokens()[i].spec_amount() == spec_initial_stock(
        flavor_at(i as nat),
    ) by {
        crate::flavor_token::lemma_token_new(
            flavor_at(i as nat),
            spec_initial_stock(flavor_at(i as nat)),
        );
    }
    match event {
        LeaderEvent::Started => {
            let out = state.step(event).out;
            if !state.first_leader {
                let calls = robot_calls(
                    without(
                        state.available_robots + busy_robots(state.robots_orders),
                        state.my_id,
                    ),
                );
                let screens = screen_calls(state.screen_ids);
                if k >= 1 {
                    if k < 1 + calls.len() {
                        assert(out[k] == calls[k - 1]);
                    } else {
                        assert(out[k] == screens[k - 1 - calls.len()]);
                    }
                }
            } else {
                let screens = screen_calls(all_screens());
                if state.has_robot {
                    if k >= 2 {
                        assert(out[k] == screens[k - 2]);
                    }
                } else {
                    if k >= 1 {
                        assert(out[k] == screens[k - 1]);
                    }
                }
            }
        },
        LeaderEvent::AddNewRobot(robot_id, asked) => {
            lemma_makes_no_tokens(state, event, k);
        },
        LeaderEvent::AddNewScreen(screen_id) => {
            lemma_makes_no_tokens(state, event, k);
        },
        LeaderEvent::ConnectToScreen(screen_id) => {},
        LeaderEvent::CreateNewOrder(order) => {
            lemma_makes_no_tokens(state, event, k);
        },
        LeaderEvent::OrderResult(robot_id, result, flavor) => {
            lemma_makes_no_tokens(state, event, k);
        },
        LeaderEvent::AddOrderToBeSent(waiting) => {
            lemma_makes_no_tokens(state, event, k);
        },
        LeaderEvent::RobotDied(robot_id) => {
            lemma_makes_no_tokens(state, event, k);
        },
        LeaderEvent::ScreenDied(screen_id) => {
            lemma_makes_no_tokens(state, event, k);
        },
        LeaderEvent::ChangeScreen(old_screen, new_screen) => {
            lemma_makes_no_tokens(state, event, k);
        },
    }
}

/// The outputs that hand waiting results to a screen hold no tokens.
proof fn lemma_redelivered_makes_no_tokens(
    waiting: Seq<OrderWaitingView>,
    old_screen: usize,
    new_screen: usize,
    k: int,
)
    requires
        0 <= k < redelivered(waiting, old_screen, new_screen).len(),
    ensures
        !starts_tokens(redelivered(waiting, old_screen, new_screen)[k]),
    decreases waiting.len(),
{
    if waiting.len() > 0 {
        let front = redelivered(waiting.drop_last(), old_screen, new_screen);
        if k < front.len() {
            lemma_redelivered_makes_no_tokens(waiting.drop_last(), old_screen, new_screen, k);
        }
    }
}

/// No event but the start puts tokens into the ring.
proof fn lemma_makes_no_tokens(state: RobotLeaderView, event: LeaderEvent, k: int)
    requires
        !(event is Started),
        0 <= k < state.step(event).out.len(),
    ensures
        !starts_tokens(state.step(event).out[k]),
{
    match event {
        LeaderEvent::ChangeScreen(old_screen, new_screen) => {
            if state.screens_connections.contains(new_screen) {
                let sent = redelivered(state.orders_to_be_sent, old_screen, new_screen);
                if k < sent.len() {
                    lemma_redelivered_makes_no_tokens(
                        state.orders_to_be_sent,
                        old_screen,
                        new_screen,
                        k,
                    );
                }
            }
        },
        _ => {},
    }
}

/// A leader that takes over with a sound snapshot is sound, and the robot
/// it runs on is neither idle nor has an order: the one order it had, if
/// any, stands first on the queue, before all that stood there.
pub proof fn lemma_takeover_frees_the_robot(my_id: usize, has_robot: bool, backup: LeaderBackupView)
    requires
        backup.wf(),
    ensures
        RobotLeaderView::from_backup(my_id, has_robot, backup).wf(),
        !RobotLeaderView::from_backup(my_id, has_robot, backup).available_robots.contains(my_id),
        assigned_at(
            RobotLeaderView::from_backup(my_id, has_robot, backup).robots_orders,
            my_id,
        ) is None,
        assigned_at(backup.robots_orders, my_id) matches Some(i) ==> RobotLeaderView::from_backup(
            my_id,
            has_robot,
            backup,
        ).orders_on_queue == seq![backup.robots_orders[i].1] + backup.orders_on_queue,
        assigned_at(backup.robots_orders, my_id) is None ==> RobotLeaderView::from_backup(
            my_id,
            has_robot,
            backup,
        ).orders_on_queue == backup.orders_on_queue,
{
    let before = RobotLeaderView {
        my_id,
        first_leader: false,
        has_robot,
        available_robots: backup.available_robots,
        orders_on_queue: backup.orders_on_queue,
        robots_orders: backup.robots_orders,
        screen_ids: backup.screens,
        orders_to_be_sent: backup.orders_to_be_sent,
        robots_connections: Seq::empty(),
        screens_connections: Seq::empty(),
    };
    assert(before.backup() == backup);
    assert(before.wf());
    lemma_new_leader_is_sound(my_id, has_robot, before);
    let after = RobotLeaderView::from_backup(my_id, has_robot, backup);
    lemma_without(backup.available_robots, my_id);
    lemma_assigned_at(backup.robots_orders, my_id);
    lemma_assigned_at(after.robots_orders, my_id);
    match assigned_at(backup.robots_orders, my_id) {
        Some(i) => {
            assert(backup.orders_on_queue.insert(0, backup.robots_orders[i].1) =~= seq![
                backup.robots_orders[i].1,
            ] + backup.orders_on_queue);
            if assigned_at(after.robots_orders, my_id) is Some {
                let k = assigned_at(after.robots_orders, my_id).unwrap();
                let was = busy_robots(backup.robots_orders);
                let k2 = if k < i {
                    k
                } else {
                    k + 1
                };
                assert(after.robots_orders[k] == backup.robots_orders[k2]);
                assert(was[k2] == my_id && was[i] == my_id);
            }
        },
        None => {},
    }
}

/// The orders that robots have, in the order of the list.
pub open spec fn held_orders(orders: Seq<(usize, OrderInfoView)>) -> Seq<OrderInfoView> {
    Seq::new(orders.len(), |i: int| orders[i].1)
}

/// The orders that stand on the queue or are with a robot, each as often
/// as it stands there.
pub open spec fn orders_in_work(
    queue: Seq<OrderInfoView>,
    orders: Seq<(usize, OrderInfoView)>,
) -> vstd::multiset::Multiset<OrderInfoView> {
    queue.to_multiset().add(held_orders(orders).to_multiset())
}

/// A leader that takes over has in work exactly the orders that the
/// snapshot had in work, each as often; the screens and the results that
/// wait are those of the snapshot.
pub proof fn lemma_takeover_keeps_every_order(
    my_id: usize,
    has_robot: bool,
    backup: LeaderBackupView,
)
    ensures
        orders_in_work(
            RobotLeaderView::from_backup(my_id, has_robot, backup).orders_on_queue,
            RobotLeaderView::from_backup(my_id, has_robot, backup).robots_orders,
        ) == orders_in_work(backup.orders_on_queue, backup.robots_orders),
        RobotLeaderView::from_backup(my_id, has_robot, backup).screen_ids == backup.screens,
        RobotLeaderView::from_backup(my_id, has_robot, backup).orders_to_be_sent
            == backup.orders_to_be_sent,
{
    broadcast use vstd::multiset::group_multiset_axioms;

    lemma_assigned_at(backup.robots_orders, my_id);
    match assigned_at(backup.robots_orders, my_id) {
        Some(i) => {
            let held = held_orders(backup.robots_orders);
            let order = backup.robots_orders[i].1;
            assert(held_orders(backup.robots_orders.remove(i)) =~= held.remove(i));
            vstd::seq_lib::to_multiset_remove(held, i);
            vstd::seq_lib::to_multiset_insert(backup.orders_on_queue, 0, order);
            held.to_multiset_ensures();
            assert(held[i] == order);
            assert(held.contains(order));
            assert(backup.orders_on_queue.to_multiset().insert(order).add(
                held.to_multiset().remove(order),
            ) =~= backup.orders_on_queue.to_multiset().add(held.to_multiset()));
        },
        None => {},
    }
}

} // verus!
