//! The connection handler of a robot: it knows the robot's neighbours in
//! the ring and its leader, passes tokens, probes and ballots on, and
//! makes the robot leader when it is its turn.

use crate::config::{LEADER_START_MS, MAX_JITTER_MS, MAX_NUMBER_OF_ROBOTS};
use crate::flavor_id::FlavorID;
use crate::flavor_token::FlavorToken;
use crate::ids::{lemma_without_contains, without};
use crate::leader_backup::{LeaderBackup, LeaderBackupView};
use crate::leader_elector::{ballot_winner, on_ballot, LeaderElector};
use crate::messages::{
    AbortCurrentOrder, AddNewLeader, AddNextRobot, AddPreviousRobot, GetNewOrder, GetTokenBack,
    GetTokenBackup, NewLeaderElected, OrderAborted, OrderPrepared, ReceiveNewElection,
    RobotCommand, RobotCommandView, SendTokenBackup, SetNewLeader, StartElection, StartTokens,
    StoreBackup, TransferToken,
};
use crate::order::OrderView;
use crate::random::random_below;
use crate::ring::wire_id;
use crate::views::{lemma_views_push, views};
use vstd::prelude::*;

verus! {

/// Where a robot stands with regard to leadership.
#[derive(Debug, PartialEq, Eq, Structural, Clone, Copy)]
pub enum Leadership {
    /// The robot follows a leader, or waits to hear of one.
    Follower,
    /// A ballot that the robot has signed is on its way.
    Candidate,
    /// The robot leads; `from_backup` says that it took over with a
    /// snapshot rather than started the shop.
    Leader { from_backup: bool },
    /// The robot has found no other robot in the ring.
    Solo,
}

/// Whether `flavor` stands in the list.
fn has_flavor(flavors: &Vec<FlavorID>, flavor: FlavorID) -> (found: bool)
    ensures
        found == flavors@.to_set().contains(flavor),
{
    let mut i: usize = 0;
    while i < flavors.len()
        invariant
            i <= flavors.len(),
            forall|j: int| 0 <= j < i ==> flavors@[j] != flavor,
        decreases flavors.len() - i,
    {
        if flavors[i] == flavor {
            assert(flavors@.contains(flavor));
            return true;
        }
        i = i + 1;
    }
    assert(!flavors@.contains(flavor));
    false
}

/// Puts `flavor` at the end of the list.
fn add_flavor(flavors: &mut Vec<FlavorID>, flavor: FlavorID)
    ensures
        final(flavors)@ == old(flavors)@.push(flavor),
        final(flavors)@.to_set() == old(flavors)@.to_set().insert(flavor),
{
    flavors.push(flavor);
    proof {
        let before = old(flavors)@;
        let after = flavors@;
        assert forall|x: FlavorID| after.contains(x) <==> before.contains(x) || x == flavor by {
            if after.contains(x) {
                let k = choose|k: int| 0 <= k < after.len() && after[k] == x;
                if k < before.len() {
                    assert(before[k] == x);
                }
            }
            if before.contains(x) {
                let k = choose|k: int| 0 <= k < before.len() && before[k] == x;
                assert(after[k] == x);
            }
            if x == flavor {
                assert(after[before.len() as int] == x);
            }
        }
        assert(after.to_set() =~= before.to_set().insert(flavor));
    }
}

/// Takes every occurrence of `flavor` out of the list.
fn remove_flavor(flavors: &mut Vec<FlavorID>, flavor: FlavorID)
    ensures
        final(flavors)@ == without(old(flavors)@, flavor),
        final(flavors)@.to_set() == old(flavors)@.to_set().remove(flavor),
{
    let mut kept: Vec<FlavorID> = Vec::new();
    let mut i: usize = 0;
    while i < flavors.len()
        invariant
            i <= flavors.len(),
            kept@ == without(flavors@.subrange(0, i as int), flavor),
        decreases flavors.len() - i,
    {
        proof {
            assert(flavors@.subrange(0, i as int + 1).drop_last() =~= flavors@.subrange(
                0,
                i as int,
            ));
        }
        if flavors[i] != flavor {
            kept.push(flavors[i]);
        }
        i = i + 1;
    }
    proof {
        assert(flavors@.subrange(0, i as int) =~= flavors@);
        assert forall|x: FlavorID| kept@.contains(x) <==> flavors@.contains(x) && x != flavor by {
            lemma_without_contains(flavors@, flavor, x);
        }
        assert(kept@.to_set() =~= flavors@.to_set().remove(flavor));
    }
    *flavors = kept;
}

/// What the connection handler hands out.
#[allow(inconsistent_fields)]
#[derive(Debug, PartialEq, Eq, Clone)]
pub enum HandlerOutput {
    /// To the handler itself: this robot is the leader now.
    SetNewLeader(SetNewLeader),
    /// To the handler itself: a token that no next robot could take.
    TransferToSelf(TransferToken),
    /// To the order manager, after `delay_ms` milliseconds: a token.
    TransferLater { msg: TransferToken, delay_ms: u64 },
    /// To the order manager, at once: a first token.
    TransferToken(TransferToken),
    /// To the order manager: a new order.
    GetNewOrder(GetNewOrder),
    /// To the order manager: a probe that has come in.
    GetTokenBackup(GetTokenBackup),
    /// To the order manager: give up the order at hand.
    AbortCurrentOrder(AbortCurrentOrder),
    /// To the next robot that takes it: this record.
    SendNext(RobotCommand),
    /// To the leader: the order is ready.
    OrderPrepared(OrderPrepared),
    /// To the leader: the order was given up.
    OrderAborted(OrderAborted),
    /// To the handler itself, after `delay_ms` milliseconds: the report, again.
    RetryPrepared { msg: OrderPrepared, delay_ms: u64 },
    /// To the handler itself, after `delay_ms` milliseconds: the report, again.
    RetryAborted { msg: OrderAborted, delay_ms: u64 },
    /// Connect to the leader, after `delay_ms` milliseconds.
    ConnectToLeader { leader_id: usize, delay_ms: u64 },
    /// Start a leader that starts the shop.
    StartLeader,
    /// Start a leader that takes over with this snapshot.
    StartLeaderFromBackup(LeaderBackup),
    /// Close the connection to the old leader.
    CloseLeader,
    /// Close the connection from the old previous robot.
    ClosePrevious,
    /// Close the connection to the old next robot.
    CloseNext,
    /// The connection that came with the message is the connection to
    /// the next robot from now on.
    TakeNext { robot_id: usize },
    /// To the new previous robot: the leader's id, in one byte.
    SendLeaderId { byte: u8 },
    /// Look for the neighbours in the ring.
    JoinRing,
}

/// What a `HandlerOutput` is, mathematically.
pub enum HandlerOutputView {
    SetNewLeader(SetNewLeader),
    TransferToSelf(FlavorToken),
    TransferLater(FlavorToken, u64),
    TransferToken(FlavorToken),
    GetNewOrder(OrderView, Seq<char>),
    GetTokenBackup(GetTokenBackup),
    AbortCurrentOrder,
    SendNext(RobotCommandView),
    OrderPrepared(bool, Seq<char>),
    OrderAborted(bool, Seq<char>, FlavorID),
    RetryPrepared(bool, Seq<char>, u64),
    RetryAborted(bool, Seq<char>, FlavorID, u64),
    ConnectToLeader(usize, u64),
    StartLeader,
    StartLeaderFromBackup(LeaderBackupView),
    CloseLeader,
    ClosePrevious,
    CloseNext,
    TakeNext(usize),
    SendLeaderId(u8),
    JoinRing,
}

impl DeepView for HandlerOutput {
    type V = HandlerOutputView;

    open spec fn deep_view(&self) -> HandlerOutputView {
        match *self {
            HandlerOutput::SetNewLeader(m) => HandlerOutputView::SetNewLeader(m),
            HandlerOutput::TransferToSelf(m) => HandlerOutputView::TransferToSelf(m.flavor_token),
            HandlerOutput::TransferLater { msg, delay_ms } => HandlerOutputView::TransferLater(
                msg.flavor_token,
                delay_ms,
            ),
            HandlerOutput::TransferToken(m) => HandlerOutputView::TransferToken(m.flavor_token),
            HandlerOutput::GetNewOrder(m) => HandlerOutputView::GetNewOrder(m.new_order@, m.id@),
            HandlerOutput::GetTokenBackup(m) => HandlerOutputView::GetTokenBackup(m),
            HandlerOutput::AbortCurrentOrder(_) => HandlerOutputView::AbortCurrentOrder,
            HandlerOutput::SendNext(record) => HandlerOutputView::SendNext(record@),
            HandlerOutput::OrderPrepared(m) => HandlerOutputView::OrderPrepared(
                m.order_result,
                m.id@,
            ),
            HandlerOutput::OrderAborted(m) => HandlerOutputView::OrderAborted(
                m.order_result,
                m.id@,
                m.flavor,
            ),
            HandlerOutput::RetryPrepared { msg, delay_ms } => HandlerOutputView::RetryPrepared(
                msg.order_result,
                msg.id@,
                delay_ms,
            ),
            HandlerOutput::RetryAborted { msg, delay_ms } => HandlerOutputView::RetryAborted(
                msg.order_result,
                msg.id@,
                msg.flavor,
                delay_ms,
            ),
            HandlerOutput::ConnectToLeader {
                leader_id,
                delay_ms,
            } => HandlerOutputView::ConnectToLeader(leader_id, delay_ms),
            HandlerOutput::StartLeader => HandlerOutputView::StartLeader,
            HandlerOutput::StartLeaderFromBackup(b) => HandlerOutputView::StartLeaderFromBackup(
                b@,
            ),
            HandlerOutput::CloseLeader => HandlerOutputView::CloseLeader,
            HandlerOutput::ClosePrevious => HandlerOutputView::ClosePrevious,
            HandlerOutput::CloseNext => HandlerOutputView::CloseNext,
            HandlerOutput::TakeNext { robot_id } => HandlerOutputView::TakeNext(robot_id),
            HandlerOutput::SendLeaderId { byte } => HandlerOutputView::SendLeaderId(byte),
            HandlerOutput::JoinRing => HandlerOutputView::JoinRing,
        }
    }
}

/// What a connection handler is, mathematically.
pub struct HandlerView {
    /// The id of the robot.
    pub my_id: usize,
    /// The id of the leader as far as the robot knows.
    pub leader_id: usize,
    /// Whether a connection to the leader stands.
    pub has_leader: bool,
    /// Whether a connection from a previous robot stands.
    pub has_previous: bool,
    /// Whether a connection to a next robot stands.
    pub has_next: bool,
    /// The id of the next robot.
    pub next_robot_id: usize,
    /// The last snapshot of the leader's state, if one has come.
    pub leader_backup: Option<LeaderBackupView>,
    /// The robot's entry for ballots.
    pub leader_elector: LeaderElector,
    /// The flavors for which a probe of this robot is on the way.
    pub probed: Set<FlavorID>,
    /// Where the robot stands with regard to leadership.
    pub role: Leadership,
}

/// A new state and what is handed out on the way to it.
pub struct HandlerStep {
    pub next: HandlerView,
    pub out: Seq<HandlerOutputView>,
}

/// How long the handler waits before it reports to the leader again.
pub const RETRY_MS: u64 = 1000;

impl HandlerView {
    /// The state is sound: a robot that holds a snapshot has marked its
    /// backup valid, and leads from a backup only with a valid backup.
    pub open spec fn wf(self) -> bool {
        &&& self.leader_elector.my_id == self.my_id
        &&& self.leader_backup is Some ==> self.leader_elector.valid_backup
        &&& self.role == (Leadership::Leader { from_backup: true })
            ==> self.leader_elector.valid_backup
    }

    /// The handler of robot `my_id` before it has joined the ring.
    pub open spec fn fresh(my_id: usize) -> HandlerView {
        HandlerView {
            my_id,
            leader_id: MAX_NUMBER_OF_ROBOTS,
            has_leader: false,
            has_previous: false,
            has_next: false,
            next_robot_id: MAX_NUMBER_OF_ROBOTS,
            leader_backup: None,
            leader_elector: LeaderElector { my_id, valid_backup: false },
            probed: Set::empty(),
            role: Leadership::Follower,
        }
    }

    /// What goes out when a record is to go to the next robot: the
    /// record, where a connection to a next robot stands; else nothing.
    pub open spec fn safe_send(self, record: RobotCommandView) -> Seq<HandlerOutputView> {
        if self.has_next {
            seq![HandlerOutputView::SendNext(record)]
        } else {
            Seq::empty()
        }
    }

    /// What goes out when a token is to go on: to the next robot, where a
    /// connection to another robot stands; else back to this robot.
    pub open spec fn safe_send_token(self, token: FlavorToken) -> Seq<HandlerOutputView> {
        if self.has_next && self.next_robot_id != self.my_id {
            seq![HandlerOutputView::SendNext(RobotCommandView::TokenMessage { token })]
        } else {
            seq![HandlerOutputView::TransferToSelf(token)]
        }
    }

    /// The robot is to lead. At the start of the shop it starts a leader
    /// and, once the leader has had time to start, connects to it, to
    /// work for it like any other robot. After an
    /// election it starts a leader from its snapshot, having told the
    /// order manager to give up its order; where it has no snapshot it
    /// does nothing.
    pub open spec fn make_myself_leader(self, by_election: bool) -> HandlerStep {
        if !by_election {
            HandlerStep {
                next: HandlerView { role: Leadership::Leader { from_backup: false }, ..self },
                out: seq![
                    HandlerOutputView::StartLeader,
                    HandlerOutputView::ConnectToLeader(self.my_id, LEADER_START_MS),
                ],
            }
        } else {
            match self.leader_backup {
                None => HandlerStep { next: self, out: Seq::empty() },
                Some(backup) => HandlerStep {
                    next: HandlerView {
                        leader_backup: None,
                        role: Leadership::Leader { from_backup: true },
                        ..self
                    },
                    out: seq![
                        HandlerOutputView::AbortCurrentOrder,
                        HandlerOutputView::StartLeaderFromBackup(backup),
                    ],
                },
            }
        }
    }

    /// The robot is told who leads. Nothing happens where it knew. Where
    /// it is to lead itself it makes itself leader, if it can. Where
    /// another robot leads, it is a follower and connects to that robot
    /// at once.
    pub open spec fn set_new_leader(self, leader_id: usize, by_election: bool) -> HandlerStep {
        if self.leader_id == leader_id {
            HandlerStep { next: self, out: Seq::empty() }
        } else if leader_id != self.my_id {
            HandlerStep {
                next: HandlerView { leader_id, role: Leadership::Follower, ..self },
                out: seq![HandlerOutputView::ConnectToLeader(leader_id, 0)],
            }
        } else {
            (HandlerView { leader_id, ..self }).make_myself_leader(by_election)
        }
    }

    /// The connection to the leader that the robot asked for stands, or
    /// could not be made.
    pub open spec fn leader_connected(self, connected: bool) -> HandlerStep {
        HandlerStep {
            next: HandlerView { has_leader: self.has_leader || connected, ..self },
            out: Seq::empty(),
        }
    }

    /// An election has named a leader: where it is this robot, the robot
    /// tells itself so; else it is a follower and passes the word on.
    pub open spec fn new_leader_elected(self, leader_id: usize) -> HandlerStep {
        if leader_id == self.my_id {
            HandlerStep {
                next: self,
                out: seq![
                    HandlerOutputView::SetNewLeader(
                        SetNewLeader { leader_id, by_election: true },
                    ),
                ],
            }
        } else {
            HandlerStep {
                next: HandlerView {
                    role: if self.role is Leader {
                        self.role
                    } else {
                        Leadership::Follower
                    },
                    ..self
                },
                out: self.safe_send(RobotCommandView::NewLeader { leader: leader_id }),
            }
        }
    }

    /// The new leader has connected: the connection to the old leader is
    /// closed and the new leader noted. A robot that does not lead
    /// follows from now on.
    pub open spec fn add_new_leader(self, leader_id: usize) -> HandlerStep {
        HandlerStep {
            next: HandlerView {
                has_leader: true,
                leader_id,
                role: if self.role is Leader {
                    self.role
                } else {
                    Leadership::Follower
                },
                ..self
            },
            out: if self.has_leader {
                seq![HandlerOutputView::CloseLeader]
            } else {
                Seq::empty()
            },
        }
    }

    /// A connection from a new previous robot stands: the old one is
    /// closed; where the other robot opened it, it is told the leader's id.
    pub open spec fn add_previous_robot(self, asked: bool) -> HandlerStep {
        HandlerStep {
            next: HandlerView { has_previous: true, ..self },
            out: (if self.has_previous {
                seq![HandlerOutputView::ClosePrevious]
            } else {
                Seq::empty()
            }) + (if asked {
                Seq::empty()
            } else {
                seq![HandlerOutputView::SendLeaderId((self.leader_id % 256) as u8)]
            }),
        }
    }

    /// A connection to a new next robot has come. Where that robot is
    /// the next robot already nothing happens, and the connection is not
    /// taken. Else the old connection is closed, and the new one is the
    /// connection to the next robot from now on.
    pub open spec fn add_next_robot(self, robot_id: usize) -> HandlerStep {
        if self.next_robot_id == robot_id {
            HandlerStep { next: self, out: Seq::empty() }
        } else {
            HandlerStep {
                next: HandlerView { has_next: true, next_robot_id: robot_id, ..self },
                out: (if self.has_next {
                    seq![HandlerOutputView::CloseNext]
                } else {
                    Seq::empty()
                }) + seq![HandlerOutputView::TakeNext(robot_id)],
            }
        }
    }

    /// The robot has looked for its neighbours and tells itself who leads.
    pub open spec fn ring_joined(self, leader_id: usize) -> HandlerStep {
        HandlerStep {
            next: self,
            out: seq![
                HandlerOutputView::SetNewLeader(SetNewLeader { leader_id, by_election: false }),
            ],
        }
    }

    /// The first tokens go to the order manager, one by one.
    pub open spec fn start_tokens(self, tokens: Seq<FlavorToken>) -> HandlerStep {
        HandlerStep {
            next: self,
            out: Seq::new(tokens.len(), |i: int| HandlerOutputView::TransferToken(tokens[i])),
        }
    }

    /// A token has come in from the ring: it goes to the order manager
    /// after `delay_ms` milliseconds.
    pub open spec fn transfer_token(self, token: FlavorToken, delay_ms: u64) -> HandlerStep {
        HandlerStep { next: self, out: seq![HandlerOutputView::TransferLater(token, delay_ms)] }
    }

    /// The order manager reports the order ready: the report goes to the
    /// leader where a connection to it stands, else nowhere.
    pub open spec fn order_prepared(self, order_result: bool, id: Seq<char>) -> HandlerStep {
        HandlerStep {
            next: self,
            out: if self.has_leader {
                seq![HandlerOutputView::OrderPrepared(order_result, id)]
            } else {
                Seq::empty()
            },
        }
    }

    /// The order manager reports the order given up: the report goes to
    /// the leader where a connection to it stands, else nowhere.
    pub open spec fn order_aborted(
        self,
        order_result: bool,
        id: Seq<char>,
        flavor: FlavorID,
    ) -> HandlerStep {
        HandlerStep {
            next: self,
            out: if self.has_leader {
                seq![HandlerOutputView::OrderAborted(order_result, id, flavor)]
            } else {
                Seq::empty()
            },
        }
    }

    /// The order manager hands a token back: it goes on.
    pub open spec fn get_token_back(self, token: FlavorToken) -> HandlerStep {
        HandlerStep { next: self, out: self.safe_send_token(token) }
    }

    /// A snapshot of the leader's state has come: it replaces the one
    /// kept, and the robot's backup is valid from now on.
    pub open spec fn store_backup(self, backup: LeaderBackupView) -> HandlerStep {
        HandlerStep {
            next: HandlerView {
                leader_backup: Some(backup),
                leader_elector: LeaderElector {
                    my_id: self.leader_elector.my_id,
                    valid_backup: true,
                },
                ..self
            },
            out: Seq::empty(),
        }
    }

    /// A ballot has come in. Where this robot stands on it the round is
    /// over: the winner is named, to the robot itself where it has won,
    /// else to the next robot. Where it does not, the robot signs the
    /// ballot and passes it on.
    pub open spec fn receive_new_election(self, candidates: Seq<(usize, bool)>) -> HandlerStep {
        if on_ballot(candidates, self.leader_elector.my_id) {
            let winner = ballot_winner(candidates.push(self.leader_elector.entry())).unwrap();
            if winner == self.my_id {
                HandlerStep {
                    next: self,
                    out: seq![
                        HandlerOutputView::SetNewLeader(
                            SetNewLeader { leader_id: winner, by_election: true },
                        ),
                    ],
                }
            } else {
                HandlerStep {
                    next: self,
                    out: self.safe_send(RobotCommandView::NewLeader { leader: winner }),
                }
            }
        } else {
            HandlerStep {
                next: HandlerView {
                    role: if self.role is Leader {
                        self.role
                    } else {
                        Leadership::Candidate
                    },
                    ..self
                },
                out: self.safe_send(
                    RobotCommandView::NewElection {
                        candidates: candidates.push(self.leader_elector.entry()),
                    },
                ),
            }
        }
    }

    /// The leader is gone: the robot opens a ballot with its own entry.
    pub open spec fn start_election(self) -> HandlerStep {
        HandlerStep {
            next: HandlerView {
                role: if self.role is Leader {
                    self.role
                } else {
                    Leadership::Candidate
                },
                ..self
            },
            out: self.safe_send(
                RobotCommandView::NewElection { candidates: seq![self.leader_elector.entry()] },
            ),
        }
    }

    /// A probe has come in from the ring. Where it is this robot's own
    /// and still awaited, the round is over: the token is made anew with
    /// the probe's amount and goes on. Where the robot awaits a probe of
    /// its own for the flavor and this one was started by a robot with a
    /// higher id, the robot stops waiting and the probe ends here.
    /// Otherwise the probe goes to the order manager.
    pub open spec fn get_token_backup(self, msg: GetTokenBackup) -> HandlerStep {
        let probe = msg.token_backup;
        let flavor = probe.spec_flavor_id();
        if self.probed.contains(flavor) && probe.spec_start_robot_id() == self.my_id {
            HandlerStep {
                next: HandlerView { probed: self.probed.remove(flavor), ..self },
                out: self.safe_send_token(FlavorToken::spec_new(flavor, probe.spec_amount())),
            }
        } else if self.probed.contains(flavor) && probe.spec_start_robot_id() > self.my_id {
            HandlerStep {
                next: HandlerView { probed: self.probed.remove(flavor), ..self },
                out: Seq::empty(),
            }
        } else {
            HandlerStep { next: self, out: seq![HandlerOutputView::GetTokenBackup(msg)] }
        }
    }

    /// The order manager sends a probe on: where it is this robot's own
    /// the robot notes that it awaits it; the probe goes to the next robot.
    pub open spec fn send_token_backup(self, msg: SendTokenBackup) -> HandlerStep {
        let probe = msg.token_backup;
        HandlerStep {
            next: HandlerView {
                probed: if probe.spec_start_robot_id() == self.my_id {
                    self.probed.insert(probe.spec_flavor_id())
                } else {
                    self.probed
                },
                ..self
            },
            out: self.safe_send(RobotCommandView::TokenBackupMsg { token_backup: probe }),
        }
    }

    /// A record has gone to the next robot, and `next_id` is the next
    /// robot now. Where that is this robot itself, it is alone: it has no
    /// next robot, and unless it leads already it tells itself to lead.
    pub open spec fn next_sent(self, next_id: usize) -> HandlerStep {
        if next_id == self.my_id {
            HandlerStep {
                next: HandlerView {
                    has_next: false,
                    role: if self.role is Leader {
                        self.role
                    } else {
                        Leadership::Solo
                    },
                    ..self
                },
                out: if self.leader_id != self.my_id {
                    seq![
                        HandlerOutputView::SetNewLeader(
                            SetNewLeader { leader_id: self.my_id, by_election: true },
                        ),
                    ]
                } else {
                    Seq::empty()
                },
            }
        } else {
            HandlerStep {
                next: HandlerView { has_next: true, next_robot_id: next_id, ..self },
                out: Seq::empty(),
            }
        }
    }
}

/// A copy of a ballot.
fn copy_ballot(ballot: &Vec<(usize, bool)>) -> (r: Vec<(usize, bool)>)
    ensures
        r@ == ballot@,
{
    let mut r: Vec<(usize, bool)> = Vec::new();
    let mut i: usize = 0;
    while i < ballot.len()
        invariant
            i <= ballot.len(),
            r@ == ballot@.subrange(0, i as int),
        decreases ballot.len() - i,
    {
        r.push(ballot[i]);
        i = i + 1;
        assert(r@ =~= ballot@.subrange(0, i as int));
    }
    assert(ballot@.subrange(0, ballot.len() as int) =~= ballot@);
    r
}

/// The connection handler of one robot.
#[derive(Debug, PartialEq, Eq, Clone)]
pub struct RobotConnectionHandler {
    my_id: usize,
    leader_id: usize,
    has_leader: bool,
    has_previous: bool,
    has_next: bool,
    next_robot_id: usize,
    leader_backup: Option<LeaderBackup>,
    leader_elector: LeaderElector,
    token_backup_msg: Vec<FlavorID>,
    role: Leadership,
}

impl View for RobotConnectionHandler {
    type V = HandlerView;

    closed spec fn view(&self) -> HandlerView {
        HandlerView {
            my_id: self.my_id,
            leader_id: self.leader_id,
            has_leader: self.has_leader,
            has_previous: self.has_previous,
            has_next: self.has_next,
            next_robot_id: self.next_robot_id,
            leader_backup: match self.leader_backup {
                Some(backup) => Some(backup@),
                None => None,
            },
            leader_elector: self.leader_elector,
            probed: self.token_backup_msg@.to_set(),
            role: self.role,
        }
    }
}

impl RobotConnectionHandler {
    /// The handler of robot `my_id` before it has joined the ring.
    pub fn new(my_id: usize) -> (handler: RobotConnectionHandler)
        ensures
            handler@ == HandlerView::fresh(my_id),
            handler@.wf(),
    {
        let handler = Self {
            my_id,
            leader_id: MAX_NUMBER_OF_ROBOTS,
            has_leader: false,
            has_previous: false,
            has_next: false,
            next_robot_id: MAX_NUMBER_OF_ROBOTS,
            leader_backup: None,
            leader_elector: LeaderElector::new(my_id),
            token_backup_msg: Vec::new(),
            role: Leadership::Follower,
        };
        assert(handler.token_backup_msg@.to_set() =~= Set::<FlavorID>::empty());
        handler
    }

    /// The id of the robot.
    pub fn my_id(&self) -> (id: usize)
        ensures
            id == self@.my_id,
    {
        self.my_id
    }

    /// The id of the leader as far as the robot knows.
    pub fn leader_id(&self) -> (id: usize)
        ensures
            id == self@.leader_id,
    {
        self.leader_id
    }

    /// The id of the next robot.
    pub fn next_robot_id(&self) -> (id: usize)
        ensures
            id == self@.next_robot_id,
    {
        self.next_robot_id
    }

    /// Whether a connection to a next robot stands.
    pub fn has_next(&self) -> (yes: bool)
        ensures
            yes == self@.has_next,
    {
        self.has_next
    }

    /// Where the robot stands with regard to leadership.
    pub fn role(&self) -> (role: Leadership)
        ensures
            role == self@.role,
    {
        self.role
    }

    /// Whether the robot holds a valid backup of the leader's state.
    pub fn has_valid_backup(&self) -> (yes: bool)
        ensures
            yes == self@.leader_elector.valid_backup,
    {
        self.leader_elector.valid_backup
    }

    /// Adds what goes out when a record is to go to the next robot, and
    /// says whether a connection to a next robot stands.
    fn safe_send(&self, record: RobotCommand, out: &mut Vec<HandlerOutput>) -> (could_send: bool)
        ensures
            could_send == self@.has_next,
            views(final(out)@) == views(old(out)@) + self@.safe_send(record@),
    {
        if self.has_next {
            let item = HandlerOutput::SendNext(record);
            proof {
                lemma_views_push(out@, item);
                assert(views(out@).push(item.deep_view()) =~= views(out@) + seq![
                    item.deep_view(),
                ]);
            }
            out.push(item);
            true
        } else {
            assert(views(out@) + Seq::<HandlerOutputView>::empty() =~= views(out@));
            false
        }
    }

    /// Adds what goes out when a token is to go on.
    fn safe_send_token(&self, token: FlavorToken, out: &mut Vec<HandlerOutput>)
        ensures
            views(final(out)@) == views(old(out)@) + self@.safe_send_token(token),
    {
        let item = if self.has_next && self.next_robot_id != self.my_id {
            HandlerOutput::SendNext(RobotCommand::TokenMessage { token })
        } else {
            HandlerOutput::TransferToSelf(TransferToken { flavor_token: token })
        };
        proof {
            lemma_views_push(out@, item);
            assert(views(out@).push(item.deep_view()) =~= views(out@) + seq![item.deep_view()]);
        }
        out.push(item);
    }

    /// Adds what goes out when a probe is to go to the next robot.
    fn safe_send_token_backup(
        &self,
        token_backup: crate::token_backup::TokenBackup,
        out: &mut Vec<HandlerOutput>,
    )
        ensures
            views(final(out)@) == views(old(out)@) + self@.safe_send(
                RobotCommandView::TokenBackupMsg { token_backup },
            ),
    {
        self.safe_send(RobotCommand::TokenBackupMsg { token_backup }, out);
    }

    /// Adds what goes out when the name of the new leader is to go to the
    /// next robot.
    fn safe_send_new_leader(&self, new_leader: usize, out: &mut Vec<HandlerOutput>)
        ensures
            views(final(out)@) == views(old(out)@) + self@.safe_send(
                RobotCommandView::NewLeader { leader: new_leader },
            ),
    {
        self.safe_send(RobotCommand::NewLeader { leader: new_leader }, out);
    }

    /// Adds what goes out when a ballot is to go to the next robot.
    fn safe_send_election(&self, candidates: Vec<(usize, bool)>, out: &mut Vec<HandlerOutput>)
        ensures
            views(final(out)@) == views(old(out)@) + self@.safe_send(
                RobotCommandView::NewElection { candidates: candidates@ },
            ),
    {
        self.safe_send(RobotCommand::NewElection { candidates }, out);
    }

    /// Makes the robot leader, where it can be.
    fn make_myself_leader(&mut self, by_election: bool, out: &mut Vec<HandlerOutput>)
        requires
            old(out)@.len() == 0,
        ensures
            final(self)@ == old(self)@.make_myself_leader(by_election).next,
            views(final(out)@) == old(self)@.make_myself_leader(by_election).out,
    {
        if !by_election {
            self.role = Leadership::Leader { from_backup: false };
            out.push(HandlerOutput::StartLeader);
            out.push(
                HandlerOutput::ConnectToLeader {
                    leader_id: self.my_id,
                    delay_ms: LEADER_START_MS,
                },
            );
            assert(views(out@) =~= seq![
                HandlerOutputView::StartLeader,
                HandlerOutputView::ConnectToLeader(self.my_id, LEADER_START_MS),
            ]);
            return;
        }
        match self.leader_backup.take() {
            None => {
                assert(views(out@) =~= Seq::<HandlerOutputView>::empty());
            },
            Some(backup) => {
                self.role = Leadership::Leader { from_backup: true };
                let ghost view = backup@;
                out.push(HandlerOutput::AbortCurrentOrder(AbortCurrentOrder {  }));
                out.push(HandlerOutput::StartLeaderFromBackup(backup));
                assert(views(out@) =~= seq![
                    HandlerOutputView::AbortCurrentOrder,
                    HandlerOutputView::StartLeaderFromBackup(view),
                ]);
            },
        }
    }

    /// Takes the word of who leads.
    pub fn set_new_leader(&mut self, msg: SetNewLeader) -> (out: Vec<HandlerOutput>)
        ensures
            old(self)@.wf() ==> final(self)@.wf(),
            final(self)@ == old(self)@.set_new_leader(msg.leader_id, msg.by_election).next,
            views(out@) == old(self)@.set_new_leader(msg.leader_id, msg.by_election).out,
    {
        let mut out: Vec<HandlerOutput> = Vec::new();
        assert(views(out@) =~= Seq::<HandlerOutputView>::empty());
        if self.leader_id == msg.leader_id {
            return out;
        }
        self.leader_id = msg.leader_id;
        if msg.leader_id == self.my_id {
            self.make_myself_leader(msg.by_election, &mut out);
            return out;
        }
        self.role = Leadership::Follower;
        out.push(HandlerOutput::ConnectToLeader { leader_id: msg.leader_id, delay_ms: 0 });
        assert(views(out@) =~= seq![HandlerOutputView::ConnectToLeader(msg.leader_id, 0)]);
        out
    }

    /// Takes note of how the attempt to connect to the leader ended.
    pub fn leader_connected(&mut self, connected: bool) -> (out: Vec<HandlerOutput>)
        ensures
            old(self)@.wf() ==> final(self)@.wf(),
            final(self)@ == old(self)@.leader_connected(connected).next,
            views(out@) == old(self)@.leader_connected(connected).out,
    {
        if connected {
            self.has_leader = true;
        }
        let out: Vec<HandlerOutput> = Vec::new();
        assert(views(out@) =~= Seq::<HandlerOutputView>::empty());
        out
    }

    /// Takes the word that an election has named a leader.
    pub fn new_leader_elected(&mut self, msg: NewLeaderElected) -> (out: Vec<HandlerOutput>)
        ensures
            old(self)@.wf() ==> final(self)@.wf(),
            final(self)@ == old(self)@.new_leader_elected(msg.leader_id).next,
            views(out@) == old(self)@.new_leader_elected(msg.leader_id).out,
    {
        let mut out: Vec<HandlerOutput> = Vec::new();
        assert(views(out@) =~= Seq::<HandlerOutputView>::empty());
        if msg.leader_id == self.my_id {
            out.push(
                HandlerOutput::SetNewLeader(
                    SetNewLeader { leader_id: msg.leader_id, by_election: true },
                ),
            );
            assert(views(out@) =~= seq![
                HandlerOutputView::SetNewLeader(
                    SetNewLeader { leader_id: msg.leader_id, by_election: true },
                ),
            ]);
            return out;
        }
        match self.role {
            Leadership::Leader { from_backup } => {},
            _ => {
                self.role = Leadership::Follower;
            },
        }
        self.safe_send_new_leader(msg.leader_id, &mut out);
        assert(views(out@) =~= self@.safe_send(RobotCommandView::NewLeader { leader: msg.leader_id }));
        out
    }

    /// Takes note that the new leader has connected.
    pub fn add_new_leader(&mut self, msg: AddNewLeader) -> (out: Vec<HandlerOutput>)
        ensures
            old(self)@.wf() ==> final(self)@.wf(),
            final(self)@ == old(self)@.add_new_leader(msg.leader_id).next,
            views(out@) == old(self)@.add_new_leader(msg.leader_id).out,
    {
        let mut out: Vec<HandlerOutput> = Vec::new();
        assert(views(out@) =~= Seq::<HandlerOutputView>::empty());
        if self.has_leader {
            out.push(HandlerOutput::CloseLeader);
            assert(views(out@) =~= seq![HandlerOutputView::CloseLeader]);
        }
        self.has_leader = true;
        self.leader_id = msg.leader_id;
        match self.role {
            Leadership::Leader { from_backup } => {},
            _ => {
                self.role = Leadership::Follower;
            },
        }
        out
    }

    /// Takes note of a connection from a new previous robot.
    pub fn add_previous_robot(&mut self, msg: AddPreviousRobot) -> (out: Vec<HandlerOutput>)
        ensures
            old(self)@.wf() ==> final(self)@.wf(),
            final(self)@ == old(self)@.add_previous_robot(msg.asked).next,
            views(out@) == old(self)@.add_previous_robot(msg.asked).out,
    {
        let mut out: Vec<HandlerOutput> = Vec::new();
        assert(views(out@) =~= Seq::<HandlerOutputView>::empty());
        if self.has_previous {
            out.push(HandlerOutput::ClosePrevious);
            assert(views(out@) =~= seq![HandlerOutputView::ClosePrevious]);
        }
        self.has_previous = true;
        let ghost closing = views(out@);
        if !msg.asked {
            let item = HandlerOutput::SendLeaderId { byte: wire_id(self.leader_id) };
            proof {
                lemma_views_push(out@, item);
                assert(closing.push(item.deep_view()) =~= closing + seq![item.deep_view()]);
            }
            out.push(item);
        } else {
            assert(closing + Seq::<HandlerOutputView>::empty() =~= closing);
        }
        out
    }

    /// Takes note of a connection to a new next robot.
    pub fn add_next_robot(&mut self, msg: AddNextRobot) -> (out: Vec<HandlerOutput>)
        ensures
            old(self)@.wf() ==> final(self)@.wf(),
            final(self)@ == old(self)@.add_next_robot(msg.robot_id).next,
            views(out@) == old(self)@.add_next_robot(msg.robot_id).out,
    {
        let mut out: Vec<HandlerOutput> = Vec::new();
        assert(views(out@) =~= Seq::<HandlerOutputView>::empty());
        if self.next_robot_id == msg.robot_id {
            return out;
        }
        if self.has_next {
            out.push(HandlerOutput::CloseNext);
            assert(views(out@) =~= seq![HandlerOutputView::CloseNext]);
        }
        let ghost closing = views(out@);
        let item = HandlerOutput::TakeNext { robot_id: msg.robot_id };
        proof {
            lemma_views_push(out@, item);
            assert(closing.push(item.deep_view()) =~= closing + seq![item.deep_view()]);
        }
        out.push(item);
        self.has_next = true;
        self.next_robot_id = msg.robot_id;
        out
    }

    /// Has the robot look for its neighbours.
    pub fn join_ring(&mut self) -> (out: Vec<HandlerOutput>)
        ensures
            old(self)@.wf() ==> final(self)@.wf(),
            final(self)@ == old(self)@,
            views(out@) == seq![HandlerOutputView::JoinRing],
    {
        let mut out: Vec<HandlerOutput> = Vec::new();
        out.push(HandlerOutput::JoinRing);
        assert(views(out@) =~= seq![HandlerOutputView::JoinRing]);
        out
    }

    /// Takes the outcome of the search for the neighbours: the leader
    /// that the robot takes for the ring's.
    pub fn ring_joined(&mut self, leader_id: usize) -> (out: Vec<HandlerOutput>)
        ensures
            old(self)@.wf() ==> final(self)@.wf(),
            final(self)@ == old(self)@.ring_joined(leader_id).next,
            views(out@) == old(self)@.ring_joined(leader_id).out,
    {
        let mut out: Vec<HandlerOutput> = Vec::new();
        out.push(HandlerOutput::SetNewLeader(SetNewLeader { leader_id, by_election: false }));
        assert(views(out@) =~= seq![
            HandlerOutputView::SetNewLeader(SetNewLeader { leader_id, by_election: false }),
        ]);
        out
    }

    /// Hands the first tokens to the order manager.
    pub fn start_tokens(&mut self, msg: StartTokens) -> (out: Vec<HandlerOutput>)
        ensures
            old(self)@.wf() ==> final(self)@.wf(),
            final(self)@ == old(self)@.start_tokens(msg.all_tokens@).next,
            views(out@) == old(self)@.start_tokens(msg.all_tokens@).out,
    {
        let mut out: Vec<HandlerOutput> = Vec::new();
        let tokens = msg.all_tokens;
        let mut i: usize = 0;
        assert(views(out@) =~= Seq::<HandlerOutputView>::empty());
        while i < tokens.len()
            invariant
                i <= tokens.len(),
                views(out@) == Seq::new(
                    i as nat,
                    |j: int| HandlerOutputView::TransferToken(tokens@[j]),
                ),
            decreases tokens.len() - i,
        {
            let item = HandlerOutput::TransferToken(TransferToken { flavor_token: tokens[i] });
            proof {
                lemma_views_push(out@, item);
                assert(Seq::new(i as nat, |j: int| HandlerOutputView::TransferToken(tokens@[j])).push(
                    item.deep_view(),
                ) =~= Seq::new(
                    (i + 1) as nat,
                    |j: int| HandlerOutputView::TransferToken(tokens@[j]),
                ));
            }
            out.push(item);
            i = i + 1;
        }
        out
    }

    /// Takes a token from the ring and hands it to the order manager
    /// after `delay_ms` milliseconds.
    pub fn transfer_token_after(&mut self, msg: TransferToken, delay_ms: u64) -> (out: Vec<
        HandlerOutput,
    >)
        ensures
            old(self)@.wf() ==> final(self)@.wf(),
            final(self)@ == old(self)@.transfer_token(msg.flavor_token, delay_ms).next,
            views(out@) == old(self)@.transfer_token(msg.flavor_token, delay_ms).out,
    {
        let mut out: Vec<HandlerOutput> = Vec::new();
        out.push(HandlerOutput::TransferLater { msg, delay_ms });
        assert(views(out@) =~= seq![HandlerOutputView::TransferLater(msg.flavor_token, delay_ms)]);
        out
    }

    /// Takes a token from the ring and hands it to the order manager
    /// after a wait of less than a second, drawn at random, so that the
    /// tokens do not crowd the ring.
    pub fn transfer_token(&mut self, msg: TransferToken) -> (out: Vec<HandlerOutput>)
        ensures
            old(self)@.wf() ==> final(self)@.wf(),
            final(self)@ == old(self)@,
            exists|delay_ms: u64|
                delay_ms < MAX_JITTER_MS && views(out@) == #[trigger] old(self)@.transfer_token(
                    msg.flavor_token,
                    delay_ms,
                ).out,
    {
        let delay_ms = random_below(MAX_JITTER_MS);
        self.transfer_token_after(msg, delay_ms)
    }

    /// Takes the report that the order is ready.
    pub fn order_prepared(&mut self, msg: OrderPrepared) -> (out: Vec<HandlerOutput>)
        ensures
            old(self)@.wf() ==> final(self)@.wf(),
            final(self)@ == old(self)@.order_prepared(msg.order_result, msg.id@).next,
            views(out@) == old(self)@.order_prepared(msg.order_result, msg.id@).out,
    {
        let mut out: Vec<HandlerOutput> = Vec::new();
        assert(views(out@) =~= Seq::<HandlerOutputView>::empty());
        if self.has_leader {
            let ghost view = HandlerOutputView::OrderPrepared(msg.order_result, msg.id@);
            out.push(HandlerOutput::OrderPrepared(msg));
            assert(views(out@) =~= seq![view]);
        }
        out
    }

    /// Takes the report that the order was given up.
    pub fn order_aborted(&mut self, msg: OrderAborted) -> (out: Vec<HandlerOutput>)
        ensures
            old(self)@.wf() ==> final(self)@.wf(),
            final(self)@ == old(self)@.order_aborted(msg.order_result, msg.id@, msg.flavor).next,
            views(out@) == old(self)@.order_aborted(msg.order_result, msg.id@, msg.flavor).out,
    {
        let mut out: Vec<HandlerOutput> = Vec::new();
        assert(views(out@) =~= Seq::<HandlerOutputView>::empty());
        if self.has_leader {
            let ghost view = HandlerOutputView::OrderAborted(
                msg.order_result,
                msg.id@,
                msg.flavor,
            );
            out.push(HandlerOutput::OrderAborted(msg));
            assert(views(out@) =~= seq![view]);
        }
        out
    }

    /// The report that the order is ready could not be handed to the
    /// connection to the leader: it comes back after a second.
    pub fn retry_order_prepared(&self, msg: OrderPrepared) -> (again: HandlerOutput)
        ensures
            again.deep_view() == HandlerOutputView::RetryPrepared(
                msg.order_result,
                msg.id@,
                RETRY_MS,
            ),
    {
        HandlerOutput::RetryPrepared { msg, delay_ms: RETRY_MS }
    }

    /// The report that the order was given up could not be handed to the
    /// connection to the leader: it comes back after a second.
    pub fn retry_order_aborted(&self, msg: OrderAborted) -> (again: HandlerOutput)
        ensures
            again.deep_view() == HandlerOutputView::RetryAborted(
                msg.order_result,
                msg.id@,
                msg.flavor,
                RETRY_MS,
            ),
    {
        HandlerOutput::RetryAborted { msg, delay_ms: RETRY_MS }
    }

    /// Takes a token back from the order manager and sends it on.
    pub fn get_token_back(&mut self, msg: GetTokenBack) -> (out: Vec<HandlerOutput>)
        ensures
            old(self)@.wf() ==> final(self)@.wf(),
            final(self)@ == old(self)@.get_token_back(msg.flavor_token).next,
            views(out@) == old(self)@.get_token_back(msg.flavor_token).out,
    {
        let mut out: Vec<HandlerOutput> = Vec::new();
        assert(views(out@) =~= Seq::<HandlerOutputView>::empty());
        self.safe_send_token(msg.flavor_token, &mut out);
        assert(views(out@) =~= self@.safe_send_token(msg.flavor_token));
        out
    }

    /// Hands a new order to the order manager.
    pub fn get_new_order(&mut self, msg: GetNewOrder) -> (out: Vec<HandlerOutput>)
        ensures
            old(self)@.wf() ==> final(self)@.wf(),
            final(self)@ == old(self)@,
            views(out@) == seq![HandlerOutputView::GetNewOrder(msg.new_order@, msg.id@)],
    {
        let mut out: Vec<HandlerOutput> = Vec::new();
        let ghost view = HandlerOutputView::GetNewOrder(msg.new_order@, msg.id@);
        out.push(HandlerOutput::GetNewOrder(msg));
        assert(views(out@) =~= seq![view]);
        out
    }

    /// Keeps a snapshot of the leader's state.
    pub fn store_backup(&mut self, msg: StoreBackup) -> (out: Vec<HandlerOutput>)
        ensures
            old(self)@.wf() ==> final(self)@.wf(),
            final(self)@ == old(self)@.store_backup(msg.backup@).next,
            views(out@) == old(self)@.store_backup(msg.backup@).out,
    {
        self.leader_backup = Some(msg.backup);
        self.leader_elector.validate_backup();
        let out: Vec<HandlerOutput> = Vec::new();
        assert(views(out@) =~= Seq::<HandlerOutputView>::empty());
        out
    }

    /// Takes a ballot that has come in.
    pub fn receive_new_election(&mut self, msg: ReceiveNewElection) -> (out: Vec<HandlerOutput>)
        ensures
            old(self)@.wf() ==> final(self)@.wf(),
            final(self)@ == old(self)@.receive_new_election(msg.candidates@).next,
            views(out@) == old(self)@.receive_new_election(msg.candidates@).out,
    {
        let mut out: Vec<HandlerOutput> = Vec::new();
        assert(views(out@) =~= Seq::<HandlerOutputView>::empty());
        if self.leader_elector.check_round_finished(copy_ballot(&msg.candidates)) {
            let new_leader = self.leader_elector.choose_leader(msg.candidates);
            if self.my_id == new_leader {
                out.push(
                    HandlerOutput::SetNewLeader(
                        SetNewLeader { leader_id: new_leader, by_election: true },
                    ),
                );
                assert(views(out@) =~= seq![
                    HandlerOutputView::SetNewLeader(
                        SetNewLeader { leader_id: new_leader, by_election: true },
                    ),
                ]);
            } else {
                self.safe_send_new_leader(new_leader, &mut out);
                assert(views(out@) =~= self@.safe_send(
                    RobotCommandView::NewLeader { leader: new_leader },
                ));
            }
        } else {
            match self.role {
                Leadership::Leader { from_backup } => {},
                _ => {
                    self.role = Leadership::Candidate;
                },
            }
            let candidates = self.leader_elector.add_candidate(msg.candidates);
            self.safe_send_election(candidates, &mut out);
            assert(views(out@) =~= self@.safe_send(
                RobotCommandView::NewElection { candidates: candidates@ },
            ));
        }
        out
    }

    /// Opens a ballot.
    pub fn start_election(&mut self, _msg: StartElection) -> (out: Vec<HandlerOutput>)
        ensures
            old(self)@.wf() ==> final(self)@.wf(),
            final(self)@ == old(self)@.start_election().next,
            views(out@) == old(self)@.start_election().out,
    {
        let mut out: Vec<HandlerOutput> = Vec::new();
        assert(views(out@) =~= Seq::<HandlerOutputView>::empty());
        match self.role {
            Leadership::Leader { from_backup } => {},
            _ => {
                self.role = Leadership::Candidate;
            },
        }
        let candidates = self.leader_elector.start_election();
        self.safe_send_election(candidates, &mut out);
        assert(views(out@) =~= self@.safe_send(
            RobotCommandView::NewElection { candidates: candidates@ },
        ));
        out
    }

    /// Takes a probe that has come in from the ring.
    pub fn get_token_backup(&mut self, msg: GetTokenBackup) -> (out: Vec<HandlerOutput>)
        ensures
            old(self)@.wf() ==> final(self)@.wf(),
            final(self)@ == old(self)@.get_token_backup(msg).next,
            views(out@) == old(self)@.get_token_backup(msg).out,
    {
        let mut out: Vec<HandlerOutput> = Vec::new();
        assert(views(out@) =~= Seq::<HandlerOutputView>::empty());
        let token_backup = msg.token_backup;
        let flavor_id = token_backup.get_flavor_id();
        if token_backup.get_start_robot_id() == self.my_id && has_flavor(
            &self.token_backup_msg,
            flavor_id,
        ) {
            let token = FlavorToken::new(flavor_id, token_backup.get_amount());
            self.safe_send_token(token, &mut out);
            assert(views(out@) =~= self@.safe_send_token(token));
            remove_flavor(&mut self.token_backup_msg, flavor_id);
            return out;
        }
        if token_backup.get_start_robot_id() > self.my_id && has_flavor(
            &self.token_backup_msg,
            flavor_id,
        ) {
            remove_flavor(&mut self.token_backup_msg, flavor_id);
            return out;
        }
        out.push(HandlerOutput::GetTokenBackup(msg));
        assert(views(out@) =~= seq![HandlerOutputView::GetTokenBackup(msg)]);
        out
    }

    /// Sends a probe of the order manager on.
    pub fn send_token_backup(&mut self, msg: SendTokenBackup) -> (out: Vec<HandlerOutput>)
        ensures
            old(self)@.wf() ==> final(self)@.wf(),
            final(self)@ == old(self)@.send_token_backup(msg).next,
            views(out@) == old(self)@.send_token_backup(msg).out,
    {
        let mut out: Vec<HandlerOutput> = Vec::new();
        assert(views(out@) =~= Seq::<HandlerOutputView>::empty());
        let flavor_id = msg.token_backup.get_flavor_id();
        self.safe_send_token_backup(msg.token_backup, &mut out);
        assert(views(out@) =~= self@.safe_send(
            RobotCommandView::TokenBackupMsg { token_backup: msg.token_backup },
        ));
        if msg.token_backup.get_start_robot_id() == self.my_id {
            add_flavor(&mut self.token_backup_msg, flavor_id);
        }
        out
    }

    /// Takes note of who the next robot is after a record has gone out.
    pub fn next_sent(&mut self, next_id: usize) -> (out: Vec<HandlerOutput>)
        ensures
            old(self)@.wf() ==> final(self)@.wf(),
            final(self)@ == old(self)@.next_sent(next_id).next,
            views(out@) == old(self)@.next_sent(next_id).out,
    {
        let mut out: Vec<HandlerOutput> = Vec::new();
        assert(views(out@) =~= Seq::<HandlerOutputView>::empty());
        if next_id == self.my_id {
            if self.leader_id != self.my_id {
                out.push(
                    HandlerOutput::SetNewLeader(
                        SetNewLeader { leader_id: self.my_id, by_election: true },
                    ),
                );
                assert(views(out@) =~= seq![
                    HandlerOutputView::SetNewLeader(
                        SetNewLeader { leader_id: self.my_id, by_election: true },
                    ),
                ]);
            }
            self.has_next = false;
            match self.role {
                Leadership::Leader { from_backup } => {},
                _ => {
                    self.role = Leadership::Solo;
                },
            }
        } else {
            self.has_next = true;
            self.next_robot_id = next_id;
        }
        out
    }
}

/// Anything that can happen to a connection handler.
pub enum HandlerEvent {
    SetNewLeader(SetNewLeader),
    LeaderConnected(bool),
    NewLeaderElected(usize),
    AddNewLeader(usize),
    AddPreviousRobot(bool),
    AddNextRobot(usize),
    RingJoined(usize),
    StartTokens(Seq<FlavorToken>),
    TransferToken(FlavorToken, u64),
    OrderPrepared(bool, Seq<char>),
    OrderAborted(bool, Seq<char>, FlavorID),
    GetTokenBack(FlavorToken),
    StoreBackup(LeaderBackupView),
    ReceiveNewElection(Seq<(usize, bool)>),
    StartElection,
    GetTokenBackup(GetTokenBackup),
    SendTokenBackup(SendTokenBackup),
    NextSent(usize),
}

impl HandlerView {
    /// What an event does to the handler.
    pub open spec fn step(self, event: HandlerEvent) -> HandlerStep {
        match event {
            HandlerEvent::SetNewLeader(m) => self.set_new_leader(m.leader_id, m.by_election),
            HandlerEvent::LeaderConnected(connected) => self.leader_connected(connected),
            HandlerEvent::NewLeaderElected(id) => self.new_leader_elected(id),
            HandlerEvent::AddNewLeader(id) => self.add_new_leader(id),
            HandlerEvent::AddPreviousRobot(asked) => self.add_previous_robot(asked),
            HandlerEvent::AddNextRobot(id) => self.add_next_robot(id),
            HandlerEvent::RingJoined(id) => self.ring_joined(id),
            HandlerEvent::StartTokens(tokens) => self.start_tokens(tokens),
            HandlerEvent::TransferToken(token, delay_ms) => self.transfer_token(token, delay_ms),
            HandlerEvent::OrderPrepared(result, id) => self.order_prepared(result, id),
            HandlerEvent::OrderAborted(result, id, flavor) => self.order_aborted(
                result,
                id,
                flavor,
            ),
            HandlerEvent::GetTokenBack(token) => self.get_token_back(token),
            HandlerEvent::StoreBackup(backup) => self.store_backup(backup),
            HandlerEvent::ReceiveNewElection(candidates) => self.receive_new_election(candidates),
            HandlerEvent::StartElection => self.start_election(),
            HandlerEvent::GetTokenBackup(m) => self.get_token_backup(m),
            HandlerEvent::SendTokenBackup(m) => self.send_token_backup(m),
            HandlerEvent::NextSent(id) => self.next_sent(id),
        }
    }
}

/// Whatever happens, a sound handler stays sound, and it stays the
/// handler of the same robot.
#[verifier::rlimit(50)]
pub proof fn lemma_handler_stays_sound(state: HandlerView, event: HandlerEvent)
    requires
        state.wf(),
    ensures
        state.step(event).next.wf(),
        state.step(event).next.my_id == state.my_id,
{
}

/// A robot comes to lead from a backup only while it holds a valid
/// backup, only when it is told that an election has made it leader, and
/// the leader it then starts is given the snapshot the robot held.
#[verifier::rlimit(50)]
pub proof fn lemma_leads_from_backup_only_with_valid_backup(
    state: HandlerView,
    event: HandlerEvent,
)
    requires
        state.wf(),
        state.role != (Leadership::Leader { from_backup: true }),
        state.step(event).next.role == (Leadership::Leader { from_backup: true }),
    ensures
        state.leader_elector.valid_backup,
        state.leader_backup is Some,
        event == HandlerEvent::SetNewLeader(
            SetNewLeader { leader_id: state.my_id, by_election: true },
        ),
        state.step(event).out == seq![
            HandlerOutputView::AbortCurrentOrder,
            HandlerOutputView::StartLeaderFromBackup(state.leader_backup.unwrap()),
        ],
{
}

/// A leader is started from a snapshot only by a robot that holds a
/// valid backup, and only as that robot comes to lead from a backup.
pub proof fn lemma_leader_started_only_with_valid_backup(
    state: HandlerView,
    event: HandlerEvent,
    k: int,
)
    requires
        state.wf(),
        0 <= k < state.step(event).out.len(),
        state.step(event).out[k] is StartLeaderFromBackup,
    ensures
        state.leader_elector.valid_backup,
        state.step(event).next.role == (Leadership::Leader { from_backup: true }),
{
}

/// The validity of a robot's backup is never taken back.
pub proof fn lemma_backup_stays_valid(state: HandlerView, event: HandlerEvent)
    requires
        state.leader_elector.valid_backup,
    ensures
        state.step(event).next.leader_elector.valid_backup,
{
}

/// The tokens that a list of outputs carries, in order.
pub open spec fn handler_tokens(out: Seq<HandlerOutputView>) -> Seq<FlavorToken>
    decreases out.len(),
{
    if out.len() == 0 {
        Seq::empty()
    } else {
        let front = handler_tokens(out.drop_last());
        match out.last() {
            HandlerOutputView::TransferToSelf(token) => front.push(token),
            HandlerOutputView::TransferLater(token, _) => front.push(token),
            HandlerOutputView::TransferToken(token) => front.push(token),
            HandlerOutputView::SendNext(RobotCommandView::TokenMessage { token }) => front.push(
                token,
            ),
            _ => front,
        }
    }
}

/// The tokens that come in with an event.
pub open spec fn event_tokens(state: HandlerView, event: HandlerEvent) -> Seq<FlavorToken> {
    match event {
        HandlerEvent::StartTokens(tokens) => tokens,
        HandlerEvent::TransferToken(token, _) => seq![token],
        HandlerEvent::GetTokenBack(token) => seq![token],
        HandlerEvent::GetTokenBackup(m) => if state.probed.contains(
            m.token_backup.spec_flavor_id(),
        ) && m.token_backup.spec_start_robot_id() == state.my_id {
            seq![
                FlavorToken::spec_new(
                    m.token_backup.spec_flavor_id(),
                    m.token_backup.spec_amount(),
                ),
            ]
        } else {
            Seq::empty()
        },
        _ => Seq::empty(),
    }
}

/// The tokens that leave the handler are the tokens that came in with
/// the event, in order: none is lost, none is doubled, none is changed.
/// The one token that the handler makes is the one that its own probe,
/// come round, stands for.
#[verifier::rlimit(50)]
pub proof fn lemma_handler_passes_tokens(state: HandlerView, event: HandlerEvent)
    ensures
        handler_tokens(state.step(event).out) == event_tokens(state, event),
{
    reveal_with_fuel(handler_tokens, 4);
    let out = state.step(event).out;
    match event {
        HandlerEvent::StartTokens(tokens) => {
            lemma_start_tokens_pass(tokens, tokens.len());
            assert(out =~= Seq::new(
                tokens.len(),
                |i: int| HandlerOutputView::TransferToken(tokens[i]),
            ));
            assert(tokens.subrange(0, tokens.len() as int) =~= tokens);
        },
        _ => {
            assert(out.len() <= 2);
            if out.len() == 1 {
                assert(out.drop_last() =~= Seq::empty());
                assert(handler_tokens(out) =~= event_tokens(state, event));
            } else if out.len() == 2 {
                assert(out.drop_last().drop_last() =~= Seq::empty());
                assert(handler_tokens(out) =~= event_tokens(state, event));
            }
        },
    }
}

/// The first tokens all go to the order manager.
proof fn lemma_start_tokens_pass(tokens: Seq<FlavorToken>, n: nat)
    requires
        n <= tokens.len(),
    ensures
        handler_tokens(Seq::new(n, |i: int| HandlerOutputView::TransferToken(tokens[i])))
            == tokens.subrange(0, n as int),
    decreases n,
{
    let out = Seq::new(n, |i: int| HandlerOutputView::TransferToken(tokens[i]));
    if n == 0 {
        assert(tokens.subrange(0, 0) =~= Seq::empty());
    } else {
        lemma_start_tokens_pass(tokens, (n - 1) as nat);
        assert(out.drop_last() =~= Seq::new(
            (n - 1) as nat,
            |i: int| HandlerOutputView::TransferToken(tokens[i]),
        ));
        assert(tokens.subrange(0, n as int) =~= tokens.subrange(0, n - 1).push(tokens[n - 1]));
    }
}

/// When a ballot that names every robot of the ring has come back to
/// the robot that opened it, that robot names the winner of the ballot:
/// to itself where it has won, else to the ring. The winner is one robot
/// of the ballot, the same whoever ends the round.
pub proof fn lemma_round_names_the_winner(state: HandlerView, candidates: Seq<(usize, bool)>)
    requires
        state.wf(),
        candidates.contains(state.leader_elector.entry()),
    ensures
        ballot_winner(candidates) is Some,
        on_ballot(candidates, ballot_winner(candidates).unwrap()),
        ({
            let winner = ballot_winner(candidates).unwrap();
            let step = state.receive_new_election(candidates);
            &&& step.next == state
            &&& winner == state.my_id ==> step.out == seq![
                HandlerOutputView::SetNewLeader(
                    SetNewLeader { leader_id: winner, by_election: true },
                ),
            ]
            &&& winner != state.my_id ==> step.out == state.safe_send(
                RobotCommandView::NewLeader { leader: winner },
            )
        }),
{
    let me = state.leader_elector.entry();
    let i = choose|i: int| 0 <= i < candidates.len() && candidates[i] == me;
    assert(candidates[i].0 == state.leader_elector.my_id);
    crate::leader_elector::lemma_winner_ignores_repeat(candidates, me);
    crate::leader_elector::lemma_winner_on_ballot(candidates);
}

/// The robots of a ring in the order in which a record goes round, the
/// robot that opens the ballot first: each is sound and has a next
/// robot, and no two have the same id.
pub open spec fn is_ring(ring: Seq<HandlerView>) -> bool {
    &&& ring.len() >= 1
    &&& forall|k: int| 0 <= k < ring.len() ==> (#[trigger] ring[k]).wf() && ring[k].has_next
    &&& forall|j: int, k: int|
        0 <= j < ring.len() && 0 <= k < ring.len() && j != k ==> (#[trigger] ring[j]).my_id != (
        #[trigger] ring[k]).my_id
}

/// The ballot when the first `count` robots of the ring have signed it.
pub open spec fn ballot_of(ring: Seq<HandlerView>, count: int) -> Seq<(usize, bool)> {
    Seq::new(count as nat, |k: int| ring[k].leader_elector.entry())
}

/// The ballot that every robot of the ring has signed.
pub open spec fn full_ballot(ring: Seq<HandlerView>) -> Seq<(usize, bool)> {
    ballot_of(ring, ring.len() as int)
}

/// The robot that opens a ballot signs it alone and sends it on.
pub proof fn lemma_ballot_opens(ring: Seq<HandlerView>)
    requires
        is_ring(ring),
    ensures
        ring[0].start_election().out == seq![
            HandlerOutputView::SendNext(
                RobotCommandView::NewElection { candidates: ballot_of(ring, 1) },
            ),
        ],
{
    assert(ballot_of(ring, 1) =~= seq![ring[0].leader_elector.entry()]);
}

/// A robot further round the ring, to which the ballot comes signed by
/// all the robots before it, signs it and sends it on.
pub proof fn lemma_ballot_goes_round(ring: Seq<HandlerView>, k: int)
    requires
        is_ring(ring),
        1 <= k < ring.len(),
    ensures
        ring[k].receive_new_election(ballot_of(ring, k)).out == seq![
            HandlerOutputView::SendNext(
                RobotCommandView::NewElection { candidates: ballot_of(ring, k + 1) },
            ),
        ],
{
    let ballot = ballot_of(ring, k);
    assert(!on_ballot(ballot, ring[k].leader_elector.my_id)) by {
        if on_ballot(ballot, ring[k].leader_elector.my_id) {
            let j = choose|j: int|
                0 <= j < ballot.len() && (#[trigger] ballot[j]).0 == ring[k].leader_elector.my_id;
            assert(ring[j].my_id != ring[k].my_id);
        }
    }
    assert(ballot.push(ring[k].leader_elector.entry()) =~= ballot_of(ring, k + 1));
}

/// The winner of the ballot that every robot of the ring has signed.
pub open spec fn ring_winner(ring: Seq<HandlerView>) -> usize {
    ballot_winner(full_ballot(ring)).unwrap()
}

/// The ballot that every robot of the ring has signed has a winner, and
/// one robot of the ring, and only one, is that winner.
#[verifier::rlimit(50)]
pub proof fn lemma_ring_has_one_winner(ring: Seq<HandlerView>) -> (place: int)
    requires
        is_ring(ring),
    ensures
        ballot_winner(full_ballot(ring)) is Some,
        0 <= place < ring.len(),
        ring[place].my_id == ring_winner(ring),
        forall|j: int|
            0 <= j < ring.len() && (#[trigger] ring[j]).my_id == ring_winner(ring) ==> j == place,
{
    let ballot = full_ballot(ring);
    assert forall|i: int, j: int|
        0 <= i < ballot.len() && 0 <= j < ballot.len() && i != j implies (#[trigger] ballot[i]).0
        != (#[trigger] ballot[j]).0 by {
        assert(ring[i].wf() && ring[j].wf());
        assert(ring[i].my_id != ring[j].my_id);
    }
    crate::leader_elector::lemma_winner_on_ballot(ballot);
    let winner = ballot_winner(ballot).unwrap();
    let place = choose|i: int| 0 <= i < ballot.len() && (#[trigger] ballot[i]).0 == winner;
    assert(ring[place].wf());
    assert forall|j: int|
        0 <= j < ring.len() && (#[trigger] ring[j]).my_id == winner implies j == place by {
        if j != place {
            assert(ring[j].my_id != ring[place].my_id);
        }
    }
    place
}

/// When the ballot is back at the robot that opened it, signed by every
/// robot of the ring, that robot names the winner: to itself where it
/// has won, else to the ring.
pub proof fn lemma_round_ends(ring: Seq<HandlerView>)
    requires
        is_ring(ring),
    ensures
        ring_winner(ring) == ring[0].my_id ==> ring[0].receive_new_election(
            full_ballot(ring),
        ).out == seq![
            HandlerOutputView::SetNewLeader(
                SetNewLeader { leader_id: ring_winner(ring), by_election: true },
            ),
        ],
        ring_winner(ring) != ring[0].my_id ==> ring[0].receive_new_election(
            full_ballot(ring),
        ).out == seq![
            HandlerOutputView::SendNext(RobotCommandView::NewLeader { leader: ring_winner(ring) }),
        ],
{
    let ballot = full_ballot(ring);
    assert(ring[0].wf() && ring[0].has_next);
    assert(ballot[0] == ring[0].leader_elector.entry());
    assert(ballot.contains(ring[0].leader_elector.entry()));
    lemma_round_names_the_winner(ring[0], ballot);
}

/// The name of the winner goes from robot to robot: a robot that has
/// not won passes it on, and follows unless it leads; the robot that has
/// won tells itself to lead, and the name goes no further. With
/// `lemma_ring_has_one_winner`: one robot, and only one, is told to lead.
pub proof fn lemma_word_reaches_the_winner(ring: Seq<HandlerView>, k: int)
    requires
        is_ring(ring),
        0 <= k < ring.len(),
    ensures
        ring[k].my_id == ring_winner(ring) ==> ring[k].new_leader_elected(ring_winner(ring))
            == (HandlerStep {
            next: ring[k],
            out: seq![
                HandlerOutputView::SetNewLeader(
                    SetNewLeader { leader_id: ring_winner(ring), by_election: true },
                ),
            ],
        }),
        ring[k].my_id != ring_winner(ring) ==> ring[k].new_leader_elected(
            ring_winner(ring),
        ).out == seq![
            HandlerOutputView::SendNext(RobotCommandView::NewLeader { leader: ring_winner(ring) }),
        ],
        ring[k].my_id != ring_winner(ring) && !(ring[k].role is Leader)
            ==> ring[k].new_leader_elected(ring_winner(ring)).next.role == Leadership::Follower,
{
    assert(ring[k].wf() && ring[k].has_next);
}

/// A robot that is told to lead after an election, holds a snapshot and
/// does not take itself for the leader yet, leads from then on; a robot
/// that hears of another leader, from the ring or from that leader
/// itself, and does not lead, follows from then on.
pub proof fn lemma_one_leads_and_the_others_follow(state: HandlerView, leader_id: usize)
    requires
        state.wf(),
        !(state.role is Leader),
    ensures
        leader_id == state.my_id && state.leader_id != state.my_id && state.leader_backup is Some
            ==> state.set_new_leader(leader_id, true).next.role == (Leadership::Leader {
            from_backup: true,
        }),
        leader_id != state.my_id ==> state.new_leader_elected(leader_id).next.role
            == Leadership::Follower && state.add_new_leader(leader_id).next.role
            == Leadership::Follower,
        leader_id != state.my_id && state.leader_id != leader_id ==> state.set_new_leader(
            leader_id,
            true,
        ).next.role == Leadership::Follower,
{
}

} // verus!
