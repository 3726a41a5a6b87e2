//! Addresses, connection bytes and the lost-token timer.

use crate::text::{decimal, push_decimal};
use vstd::prelude::*;
use vstd::string::*;

verus! {

/// First byte of a connection from a screen's previous screen.
pub const SCREEN_PREVIOUS: char = 's';

/// First byte of a connection from the leader robot to a screen.
pub const ROBOT: char = 'r';

/// First byte of a connection from a screen's next screen.
pub const SCREEN_NEXT: char = 'n';

/// First byte of a connection from the robot that is the receiver's new
/// next in the ring.
pub const NEW_NEXT_ROBOT: char = 'n';

/// First byte of a connection from the robot that is the receiver's new
/// previous in the ring.
pub const NEW_PREV_ROBOT: char = 'p';

/// First byte of a connection from the new leader; the leader's id follows.
pub const NEW_ROBOT_LEADER: char = 'r';

/// The address of a host port whose digits are `prefix` followed by `id`.
pub open spec fn spec_addr(prefix: Seq<char>, id: usize) -> Seq<char> {
    prefix + decimal(id as nat)
}

/// The address on which the robot `id` listens for ring connections.
pub fn id_to_robot_addr(id: usize) -> (addr: String)
    ensures
        addr@ == spec_addr("127.0.0.1:807"@, id),
{
    let mut addr = String::from_str("127.0.0.1:807");
    push_decimal(&mut addr, id as u64);
    addr
}

/// The address on which the robot `id` listens when it is the leader.
pub fn id_to_leader_addr(id: usize) -> (addr: String)
    ensures
        addr@ == spec_addr("127.0.0.1:369"@, id),
{
    let mut addr = String::from_str("127.0.0.1:369");
    push_decimal(&mut addr, id as u64);
    addr
}

/// The address on which the screen `id` listens.
pub fn id_to_screen_addr(id: usize) -> (addr: String)
    ensures
        addr@ == spec_addr("127.0.0.1:700"@, id),
{
    let mut addr = String::from_str("127.0.0.1:700");
    push_decimal(&mut addr, id as u64);
    addr
}

/// Milliseconds a robot waits for a token before it takes it for lost, in
/// a ring of `robots` robots: half the time a full round of kilo scoops
/// by all the others would take.
pub open spec fn spec_token_timeout_ms(robots: nat) -> nat
    recommends
        robots >= 1,
{
    ((robots - 1) * 10 * 1000 / 2) as nat
}

/// Milliseconds a robot waits for a token before it takes it for lost.
pub fn token_timeout_ms(robots: usize) -> (ms: u64)
    requires
        robots >= 1,
        (robots - 1) * 10 * 1000 <= u64::MAX,
    ensures
        ms == spec_token_timeout_ms(robots as nat),
{
    let others: u64 = (robots - 1) as u64;
    others * 10 * 1000 / 2
}

/// What the lost-token timer can wake up to.
#[derive(PartialEq, Eq, Structural, Clone, Copy, Debug)]
pub enum TimerEvent {
    /// A value came in on the timer's channel.
    Signal(usize),
    /// The channel was closed.
    Closed,
    /// The wait ran out.
    Elapsed,
}

/// What the lost-token timer does next.
#[derive(PartialEq, Eq, Structural, Clone, Copy, Debug)]
pub enum TimerStep {
    /// Wait again, for the full time.
    Rearm,
    /// End without a word.
    Stop,
    /// Tell the order manager that the time ran out, and end.
    Fire,
}

/// The signal that a wanted token has come.
pub const TIMER_RESET: usize = 0;

/// The signal that the order is over.
pub const TIMER_STOP: usize = 1;

/// One step of the lost-token timer: a reset signal starts the wait anew,
/// the wait running out fires, anything else ends the timer.
pub fn token_lost_timeout(event: TimerEvent) -> (step: TimerStep)
    ensures
        step == match event {
            TimerEvent::Signal(v) => if v == TIMER_RESET {
                TimerStep::Rearm
            } else {
                TimerStep::Stop
            },
            TimerEvent::Closed => TimerStep::Stop,
            TimerEvent::Elapsed => TimerStep::Fire,
        },
{
    match event {
        TimerEvent::Signal(v) => {
            if v == TIMER_RESET {
                TimerStep::Rearm
            } else {
                TimerStep::Stop
            }
        },
        TimerEvent::Closed => TimerStep::Stop,
        TimerEvent::Elapsed => TimerStep::Fire,
    }
}

} // verus!
