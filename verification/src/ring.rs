//! The ring of robots: who comes after whom, in which order a robot looks
//! for a neighbour, and the bytes that open a connection.

use crate::config::MAX_NUMBER_OF_ROBOTS;
use crate::errors::RobotConnectionError;
use crate::messages::{
    AddNewLeader, AddNewRobot, AddNextRobot, AddPreviousRobot, RobotDied,
};
use vstd::prelude::*;

verus! {

/// The byte that opens a connection from a robot's new next.
pub const BYTE_NEW_NEXT: u8 = 0x6E;

/// The byte that opens a connection from a robot's new previous.
pub const BYTE_NEW_PREVIOUS: u8 = 0x70;

/// The byte that opens a connection from the new leader.
pub const BYTE_NEW_LEADER: u8 = 0x72;

/// The three bytes are the letters `n`, `p` and `r`.
pub proof fn lemma_bytes_are_letters()
    ensures
        BYTE_NEW_NEXT == crate::utils::NEW_NEXT_ROBOT as u8,
        BYTE_NEW_PREVIOUS == crate::utils::NEW_PREV_ROBOT as u8,
        BYTE_NEW_LEADER == crate::utils::NEW_ROBOT_LEADER as u8,
{
}

/// The id `steps` places after `id` in a ring of `ring` robots.
pub open spec fn spec_forward(id: usize, steps: nat, ring: usize) -> usize
    recommends
        ring > 0,
{
    ((id + steps) % (ring as int)) as usize
}

/// The id `steps` places before `id` in a ring of `ring` robots.
pub open spec fn spec_backward(id: usize, steps: nat, ring: usize) -> usize
    recommends
        ring > 0,
{
    ((id - steps) % (ring as int)) as usize
}

/// The robots that a robot tries, in order, when it looks for a next
/// robot: all the others, from the one after it round to the one before it.
pub open spec fn forward_candidates(my_id: usize, ring: usize) -> Seq<usize> {
    Seq::new((ring - 1) as nat, |k: int| spec_forward(my_id, (k + 1) as nat, ring))
}

/// The robots that a robot tries, in order, when it looks for a previous
/// robot: all the others, from the one before it round to the one after it.
pub open spec fn backward_candidates(my_id: usize, ring: usize) -> Seq<usize> {
    Seq::new((ring - 1) as nat, |k: int| spec_backward(my_id, (k + 1) as nat, ring))
}

/// The id after `id` in the ring.
pub fn next_in_ring(id: usize, ring: usize) -> (next: usize)
    requires
        id < ring,
    ensures
        next == spec_forward(id, 1, ring),
        next < ring,
        next == if id + 1 == ring {
            0
        } else {
            id + 1
        },
{
    proof {
        if id + 1 == ring {
            vstd::arithmetic::div_mod::lemma_fundamental_div_mod_converse(
                id + 1,
                ring as int,
                1,
                0,
            );
        } else {
            vstd::arithmetic::div_mod::lemma_small_mod((id + 1) as nat, ring as nat);
        }
    }
    if id + 1 == ring {
        0
    } else {
        id + 1
    }
}

/// The id before `id` in the ring.
pub fn previous_in_ring(id: usize, ring: usize) -> (previous: usize)
    requires
        id < ring,
    ensures
        previous == spec_backward(id, 1, ring),
        previous < ring,
        previous == if id == 0 {
            ring - 1
        } else {
            id - 1
        },
{
    proof {
        if id == 0 {
            vstd::arithmetic::div_mod::lemma_fundamental_div_mod_converse(
                -1,
                ring as int,
                -1,
                ring - 1,
            );
        } else {
            vstd::arithmetic::div_mod::lemma_small_mod((id - 1) as nat, ring as nat);
        }
    }
    if id == 0 {
        ring - 1
    } else {
        id - 1
    }
}

/// Going forward step by step is going forward by the number of steps.
pub proof fn lemma_forward_step(id: usize, steps: nat, ring: usize)
    requires
        id < ring,
    ensures
        spec_forward(id, steps, ring) < ring,
        spec_forward(spec_forward(id, steps, ring), 1, ring) == spec_forward(id, steps + 1, ring),
{
    let n = ring as int;
    let a = (id + steps) % n;
    vstd::arithmetic::div_mod::lemma_mod_bound(id + steps, n);
    vstd::arithmetic::div_mod::lemma_add_mod_noop(id + steps, 1, n);
    vstd::arithmetic::div_mod::lemma_mod_bound(a + 1, n);
    if n == 1 {
    } else {
        vstd::arithmetic::div_mod::lemma_small_mod(1, n as nat);
    }
}

/// Going backward step by step is going backward by the number of steps.
pub proof fn lemma_backward_step(id: usize, steps: nat, ring: usize)
    requires
        id < ring,
    ensures
        spec_backward(id, steps, ring) < ring,
        spec_backward(spec_backward(id, steps, ring), 1, ring) == spec_backward(
            id,
            steps + 1,
            ring,
        ),
{
    let n = ring as int;
    let a = (id - steps) % n;
    vstd::arithmetic::div_mod::lemma_mod_bound(id - steps, n);
    vstd::arithmetic::div_mod::lemma_sub_mod_noop(id - steps, 1, n);
    vstd::arithmetic::div_mod::lemma_mod_bound(a - 1, n);
    if n == 1 {
    } else {
        vstd::arithmetic::div_mod::lemma_small_mod(1, n as nat);
    }
}

/// Fewer steps than the ring is long never lead back to the start, and
/// two different numbers of such steps lead to different robots: a robot
/// that looks for a neighbour tries every other robot once, and never itself.
pub proof fn lemma_candidates_distinct(my_id: usize, ring: usize, j: nat, k: nat)
    requires
        my_id < ring,
        j < ring,
        k < ring,
        j != k,
    ensures
        spec_forward(my_id, j, ring) != spec_forward(my_id, k, ring),
        spec_backward(my_id, j, ring) != spec_backward(my_id, k, ring),
        spec_forward(my_id, 0, ring) == my_id,
        spec_backward(my_id, 0, ring) == my_id,
{
    let n = ring as int;
    vstd::arithmetic::div_mod::lemma_small_mod(my_id as nat, ring as nat);
    vstd::arithmetic::div_mod::lemma_mod_bound(my_id + j, n);
    vstd::arithmetic::div_mod::lemma_mod_bound(my_id + k, n);
    vstd::arithmetic::div_mod::lemma_mod_bound(my_id - j, n);
    vstd::arithmetic::div_mod::lemma_mod_bound(my_id - k, n);
    if (my_id + j) % n == (my_id + k) % n {
        vstd::arithmetic::div_mod::lemma_mod_equivalence(my_id + j, my_id + k, n);
        if j > k {
            vstd::arithmetic::div_mod::lemma_small_mod((j - k) as nat, ring as nat);
        } else {
            vstd::arithmetic::div_mod::lemma_mod_equivalence(my_id + k, my_id + j, n);
            vstd::arithmetic::div_mod::lemma_small_mod((k - j) as nat, ring as nat);
        }
    }
    if (my_id - j) % n == (my_id - k) % n {
        vstd::arithmetic::div_mod::lemma_mod_equivalence(my_id - j, my_id - k, n);
        if j > k {
            vstd::arithmetic::div_mod::lemma_mod_equivalence(my_id - k, my_id - j, n);
            vstd::arithmetic::div_mod::lemma_small_mod((j - k) as nat, ring as nat);
        } else {
            vstd::arithmetic::div_mod::lemma_small_mod((k - j) as nat, ring as nat);
        }
    }
}

/// The robots to try, in order, when looking for a next robot.
pub fn next_robot_candidates(my_id: usize, ring: usize) -> (list: Vec<usize>)
    requires
        my_id < ring,
    ensures
        list@ == forward_candidates(my_id, ring),
{
    let mut list: Vec<usize> = Vec::new();
    let mut current = next_in_ring(my_id, ring);
    let mut k: usize = 0;
    while k + 1 < ring
        invariant
            my_id < ring,
            k < ring,
            list@.len() == k,
            current == spec_forward(my_id, (k + 1) as nat, ring),
            current < ring,
            forall|j: int| 0 <= j < k ==> list@[j] == spec_forward(my_id, (j + 1) as nat, ring),
        decreases ring - k,
    {
        list.push(current);
        proof {
            lemma_forward_step(my_id, (k + 1) as nat, ring);
        }
        current = next_in_ring(current, ring);
        k = k + 1;
    }
    assert(list@ =~= forward_candidates(my_id, ring));
    list
}

/// The robots to try, in order, when looking for a previous robot.
pub fn previous_robot_candidates(my_id: usize, ring: usize) -> (list: Vec<usize>)
    requires
        my_id < ring,
    ensures
        list@ == backward_candidates(my_id, ring),
{
    let mut list: Vec<usize> = Vec::new();
    let mut current = previous_in_ring(my_id, ring);
    let mut k: usize = 0;
    while k + 1 < ring
        invariant
            my_id < ring,
            k < ring,
            list@.len() == k,
            current == spec_backward(my_id, (k + 1) as nat, ring),
            current < ring,
            forall|j: int| 0 <= j < k ==> list@[j] == spec_backward(my_id, (j + 1) as nat, ring),
        decreases ring - k,
    {
        list.push(current);
        proof {
            lemma_backward_step(my_id, (k + 1) as nat, ring);
        }
        current = previous_in_ring(current, ring);
        k = k + 1;
    }
    assert(list@ =~= backward_candidates(my_id, ring));
    list
}

/// What a robot that hands a message on does after an attempt.
#[derive(Debug, PartialEq, Eq, Structural, Clone, Copy)]
pub enum SendStep {
    /// Connect to this robot as its new previous, and write the message.
    Try(usize),
    /// The message is out, or nobody is left: this is the next robot now.
    Done(usize),
}

/// The walk of a robot that hands a message on to the next robot that
/// takes it.
#[derive(Debug, PartialEq, Eq, Clone, Copy)]
pub struct SafeSend {
    my_id: usize,
    next_id: usize,
    ring: usize,
    failed: usize,
}

impl SafeSend {
    /// The walk is within the ring.
    #[verifier::type_invariant]
    spec fn within_ring(self) -> bool {
        self.my_id < self.ring && self.failed < self.ring
    }

    /// The robot that walks.
    pub closed spec fn spec_my_id(self) -> usize {
        self.my_id
    }

    /// The next robot as it was when the walk began.
    pub closed spec fn spec_next_id(self) -> usize {
        self.next_id
    }

    /// The length of the ring.
    pub closed spec fn spec_ring(self) -> usize {
        self.ring
    }

    /// How many robots have been tried in vain.
    pub closed spec fn spec_failed(self) -> nat {
        self.failed as nat
    }

    /// Whether every other robot has been tried in vain.
    pub open spec fn spec_exhausted(self) -> bool {
        self.spec_failed() + 1 >= self.spec_ring()
    }

    /// The robot that is to be tried next.
    pub open spec fn spec_candidate(self) -> usize {
        spec_forward(self.spec_my_id(), self.spec_failed() + 1, self.spec_ring())
    }

    /// A walk that starts with the connection to `next_id`.
    pub fn new(my_id: usize, next_id: usize, ring: usize) -> (walk: SafeSend)
        requires
            my_id < ring,
        ensures
            walk.spec_my_id() == my_id,
            walk.spec_next_id() == next_id,
            walk.spec_ring() == ring,
            walk.spec_failed() == 0,
    {
        SafeSend { my_id, next_id, ring, failed: 0 }
    }

    /// The write on the connection that stood has ended: where it went
    /// well the next robot stays; else the first robot not yet tried is
    /// tried, and where none is left this robot is alone.
    pub fn written(&mut self, ok: bool) -> (step: SendStep)
        ensures
            *final(self) == *old(self),
            step == if ok {
                SendStep::Done(old(self).spec_next_id())
            } else if old(self).spec_exhausted() {
                SendStep::Done(old(self).spec_my_id())
            } else {
                SendStep::Try(old(self).spec_candidate())
            },
    {
        if ok {
            SendStep::Done(self.next_id)
        } else {
            self.next_step()
        }
    }

    /// The attempt on a robot has ended: where it went well that robot is
    /// the next robot; else the robot after it is tried, and where the
    /// walk is back at this robot, this robot is alone.
    pub fn tried(&mut self, ok: bool) -> (step: SendStep)
        ensures
            final(self).spec_my_id() == old(self).spec_my_id(),
            final(self).spec_next_id() == old(self).spec_next_id(),
            final(self).spec_ring() == old(self).spec_ring(),
            final(self).spec_failed() == if ok || old(self).spec_exhausted() {
                old(self).spec_failed()
            } else {
                old(self).spec_failed() + 1
            },
            step == if old(self).spec_exhausted() {
                SendStep::Done(old(self).spec_my_id())
            } else if ok {
                SendStep::Done(old(self).spec_candidate())
            } else if final(self).spec_exhausted() {
                SendStep::Done(old(self).spec_my_id())
            } else {
                SendStep::Try(final(self).spec_candidate())
            },
    {
        proof {
            use_type_invariant(&*self);
        }
        if self.failed + 1 >= self.ring {
            return SendStep::Done(self.my_id);
        }
        if ok {
            return match self.next_step() {
                SendStep::Try(candidate) => SendStep::Done(candidate),
                SendStep::Done(id) => SendStep::Done(id),
            };
        }
        self.failed = self.failed + 1;
        self.next_step()
    }

    /// The robot to try, or this robot where every other has been tried.
    fn next_step(&self) -> (step: SendStep)
        ensures
            step == if self.spec_exhausted() {
                SendStep::Done(self.spec_my_id())
            } else {
                SendStep::Try(self.spec_candidate())
            },
    {
        proof {
            use_type_invariant(self);
        }
        if self.failed + 1 >= self.ring {
            return SendStep::Done(self.my_id);
        }
        let steps = self.failed + 1;
        let rest = self.ring - self.my_id;
        proof {
            let n = self.ring as int;
            if steps < rest {
                vstd::arithmetic::div_mod::lemma_small_mod(
                    (self.my_id + steps) as nat,
                    self.ring as nat,
                );
            } else {
                vstd::arithmetic::div_mod::lemma_small_mod(
                    (self.my_id + steps - n) as nat,
                    self.ring as nat,
                );
                vstd::arithmetic::div_mod::lemma_mod_sub_multiples_vanish(
                    self.my_id + steps,
                    n,
                );
            }
        }
        if steps < rest {
            SendStep::Try(self.my_id + steps)
        } else {
            SendStep::Try(steps - rest)
        }
    }
}

/// An id as the one byte that goes over the wire: its lowest eight bits.
pub fn wire_id(id: usize) -> (byte: u8)
    ensures
        byte == id % 256,
{
    (id % 256) as u8
}

/// What stands at the other end of a connection that a robot has taken.
#[derive(Debug, PartialEq, Eq, Structural, Clone, Copy)]
pub enum Caller {
    /// The robot's new next; its id follows in one byte.
    NextRobot,
    /// The robot's new previous; it waits for the leader's id in one byte.
    PreviousRobot,
    /// The new leader; its id follows in one byte.
    Leader,
    /// Something else.
    Unknown,
}

/// Reads the first byte of a connection that a robot has taken.
pub fn caller_of(first_byte: u8) -> (caller: Caller)
    ensures
        caller == if first_byte == BYTE_NEW_NEXT {
            Caller::NextRobot
        } else if first_byte == BYTE_NEW_PREVIOUS {
            Caller::PreviousRobot
        } else if first_byte == BYTE_NEW_LEADER {
            Caller::Leader
        } else {
            Caller::Unknown
        },
{
    if first_byte == BYTE_NEW_NEXT {
        Caller::NextRobot
    } else if first_byte == BYTE_NEW_PREVIOUS {
        Caller::PreviousRobot
    } else if first_byte == BYTE_NEW_LEADER {
        Caller::Leader
    } else {
        Caller::Unknown
    }
}

/// What a robot is told about a connection it has taken.
#[derive(Debug, PartialEq, Eq, Structural, Clone, Copy)]
pub enum Accepted {
    NextRobot(AddNextRobot),
    PreviousRobot(AddPreviousRobot),
    Leader(AddNewLeader),
    /// The connection is dropped: the first byte, or the id that had to
    /// follow it, was not what a robot or a leader sends.
    Nothing,
}

/// What a robot is told about a connection it has taken, from the first
/// byte and from the byte that followed, where one had to follow and came.
pub fn start_robots_connection_listener(first_byte: u8, id_byte: Option<u8>) -> (told: Accepted)
    ensures
        told == match caller_of_spec(first_byte) {
            Caller::NextRobot => match id_byte {
                Some(id) => Accepted::NextRobot(AddNextRobot { robot_id: id as usize }),
                None => Accepted::Nothing,
            },
            Caller::PreviousRobot => Accepted::PreviousRobot(AddPreviousRobot { asked: false }),
            Caller::Leader => match id_byte {
                Some(id) => Accepted::Leader(AddNewLeader { leader_id: id as usize }),
                None => Accepted::Nothing,
            },
            Caller::Unknown => Accepted::Nothing,
        },
{
    match caller_of(first_byte) {
        Caller::NextRobot => match id_byte {
            Some(id) => Accepted::NextRobot(AddNextRobot { robot_id: id as usize }),
            None => Accepted::Nothing,
        },
        Caller::PreviousRobot => Accepted::PreviousRobot(AddPreviousRobot { asked: false }),
        Caller::Leader => match id_byte {
            Some(id) => Accepted::Leader(AddNewLeader { leader_id: id as usize }),
            None => Accepted::Nothing,
        },
        Caller::Unknown => Accepted::Nothing,
    }
}

/// What the first byte of a connection says of the caller.
pub open spec fn caller_of_spec(first_byte: u8) -> Caller {
    if first_byte == 0x6E {
        Caller::NextRobot
    } else if first_byte == 0x70 {
        Caller::PreviousRobot
    } else if first_byte == 0x72 {
        Caller::Leader
    } else {
        Caller::Unknown
    }
}

/// What the leader is told about a connection it has taken: the robot
/// whose id came in the first byte has connected of its own accord.
pub fn start_leader_connection_listener(id_byte: u8) -> (told: AddNewRobot)
    ensures
        told == (AddNewRobot { robot_id: id_byte as usize, asked: false }),
{
    AddNewRobot { robot_id: id_byte as usize, asked: false }
}

/// The side of a robot on which another robot is looked for.
#[derive(Debug, PartialEq, Eq, Structural, Clone, Copy)]
pub enum Place {
    /// The other robot is to be this robot's previous.
    Previous,
    /// The other robot is to be this robot's next.
    Next,
}

/// The bytes that a robot writes when it opens a connection to another
/// robot: to its previous, that it is the new next, and its id; to its
/// next, that it is the new previous.
pub fn connect_to_robot(my_id: usize, place: Place) -> (bytes: Vec<u8>)
    ensures
        bytes@ == match place {
            Place::Previous => seq![0x6Eu8, (my_id % 256) as u8],
            Place::Next => seq![0x70u8],
        },
{
    let mut bytes: Vec<u8> = Vec::new();
    match place {
        Place::Previous => {
            bytes.push(BYTE_NEW_NEXT);
            bytes.push(wire_id(my_id));
            assert(bytes@ =~= seq![0x6Eu8, (my_id % 256) as u8]);
        },
        Place::Next => {
            bytes.push(BYTE_NEW_PREVIOUS);
            assert(bytes@ =~= seq![0x70u8]);
        },
    }
    bytes
}

/// The bytes that a robot writes when it opens a connection to the leader:
/// its id.
pub fn connect_to_leader(my_id: usize) -> (bytes: Vec<u8>)
    ensures
        bytes@ == seq![(my_id % 256) as u8],
{
    let mut bytes: Vec<u8> = Vec::new();
    bytes.push(wire_id(my_id));
    assert(bytes@ =~= seq![(my_id % 256) as u8]);
    bytes
}

/// The byte that the leader writes when it opens a connection to a screen.
pub fn connect_to_screen() -> (bytes: Vec<u8>)
    ensures
        bytes@ == seq![0x72u8],
{
    let mut bytes: Vec<u8> = Vec::new();
    bytes.push(BYTE_NEW_LEADER);
    assert(bytes@ =~= seq![0x72u8]);
    bytes
}

/// The bytes that a leader that took over writes when it opens a
/// connection to a robot: that it is the new leader, and its id.
pub fn announce_leader(my_id: usize) -> (bytes: Vec<u8>)
    ensures
        bytes@ == seq![0x72u8, (my_id % 256) as u8],
{
    let mut bytes: Vec<u8> = Vec::new();
    bytes.push(BYTE_NEW_LEADER);
    bytes.push(wire_id(my_id));
    assert(bytes@ =~= seq![0x72u8, (my_id % 256) as u8]);
    bytes
}

/// The leader that a robot takes for the ring's when it has looked for
/// its neighbours: itself where it found neither, else the one its next
/// robot named, and where only a previous robot was found, the id that
/// no robot has.
pub fn joined_leader(
    my_id: usize,
    connected_to_prev: bool,
    leader_from_next: Option<usize>,
    no_robot: usize,
) -> (leader_id: usize)
    ensures
        leader_id == match leader_from_next {
            Some(id) => id,
            None => if connected_to_prev {
                no_robot
            } else {
                my_id
            },
        },
{
    match leader_from_next {
        Some(id) => id,
        None => {
            if connected_to_prev {
                no_robot
            } else {
                my_id
            }
        },
    }
}

/// The outcome of the search for a next robot: the leader that the first
/// robot that answered has named, or the word that none answered.
pub fn connect_to_next_robot_and_get_leader(leader_from_next: Option<usize>) -> (r: Result<
    usize,
    RobotConnectionError,
>)
    ensures
        r == match leader_from_next {
            Some(id) => Ok::<usize, RobotConnectionError>(id),
            None => Err(RobotConnectionError::NoRobotsAvailableError()),
        },
{
    match leader_from_next {
        Some(id) => Ok(id),
        None => Err(RobotConnectionError::NoRobotsAvailableError()),
    }
}

/// The outcome of the search for a previous robot.
pub fn connect_to_prev_robot(found: bool) -> (r: Result<(), RobotConnectionError>)
    ensures
        r == if found {
            Ok::<(), RobotConnectionError>(())
        } else {
            Err(RobotConnectionError::NoRobotsAvailableError())
        },
{
    if found {
        Ok(())
    } else {
        Err(RobotConnectionError::NoRobotsAvailableError())
    }
}

/// What a robot is told, and what it takes for the leader's id, when the
/// connection it opened to another robot stands. The robot it asked to be
/// its previous names no leader, so the id that no robot has stands for
/// it; the robot it asked to be its next has named the leader in one byte.
pub fn robot_connected(id: usize, place: Place, leader_byte: u8) -> (told: (Accepted, usize))
    ensures
        told == match place {
            Place::Previous => (
                Accepted::PreviousRobot(AddPreviousRobot { asked: true }),
                MAX_NUMBER_OF_ROBOTS,
            ),
            Place::Next => (
                Accepted::NextRobot(AddNextRobot { robot_id: id }),
                leader_byte as usize,
            ),
        },
{
    match place {
        Place::Previous => (
            Accepted::PreviousRobot(AddPreviousRobot { asked: true }),
            MAX_NUMBER_OF_ROBOTS,
        ),
        Place::Next => (Accepted::NextRobot(AddNextRobot { robot_id: id }), leader_byte as usize),
    }
}

/// What a leader that took over is told of a robot of its snapshot.
#[derive(Debug, PartialEq, Eq, Structural, Clone, Copy)]
pub enum Announced {
    /// The robot took the connection.
    Connected(AddNewRobot),
    /// The robot could not be reached.
    Gone(RobotDied),
}

/// What a leader that took over is told when it has tried to connect to
/// a robot of its snapshot: that the connection stands, which it opened
/// itself, or, where the robot could not be reached, that the robot is
/// gone, so that the order the robot had goes back to the queue.
pub fn robot_announced(robot_id: usize, reached: bool) -> (told: Announced)
    ensures
        told == if reached {
            Announced::Connected(AddNewRobot { robot_id, asked: true })
        } else {
            Announced::Gone(RobotDied { robot_id })
        },
{
    if reached {
        Announced::Connected(AddNewRobot { robot_id, asked: true })
    } else {
        Announced::Gone(RobotDied { robot_id })
    }
}

} // verus!
