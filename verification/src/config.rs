//! The shop's fixed numbers.

use crate::flavor_id::FlavorID;
use vstd::prelude::*;

verus! {

/// How many robots the ring can hold; their ids are `0..MAX_NUMBER_OF_ROBOTS`.
pub const MAX_NUMBER_OF_ROBOTS: usize = 5;

/// How many screens there can be; their ids are `0..MAX_NUMBER_OF_SCREENS`.
pub const MAX_NUMBER_OF_SCREENS: usize = 5;

/// The highest robot id.
pub const MAX_ROBOT_ID: usize = MAX_NUMBER_OF_ROBOTS - 1;

/// Grams of a flavor when the shop opens.
pub const INITIAL_AMOUNT: u32 = 4000;

/// Grams by which the chocolate stock starts lower than the others.
pub const CHOCOLATE_SHORTFALL: u32 = 2800;

/// Milliseconds it takes to scoop one gram.
pub const SCOOP_TIME_FACTOR: u32 = 10;

/// Upper bound, in milliseconds, of the random wait before a token that
/// came in from the ring is handed on.
pub const MAX_JITTER_MS: u64 = 1000;

/// Milliseconds that a robot gives the leader it has just started before
/// it connects to it.
pub const LEADER_START_MS: u64 = 200;

/// Grams of `flavor` when the shop opens.
pub open spec fn spec_initial_stock(flavor: FlavorID) -> u32 {
    if flavor == FlavorID::Chocolate {
        1200
    } else {
        4000
    }
}

/// Grams of `flavor` when the shop opens.
pub fn initial_stock(flavor: FlavorID) -> (grams: u32)
    ensures
        grams == spec_initial_stock(flavor),
        grams <= INITIAL_AMOUNT,
{
    match flavor {
        FlavorID::Chocolate => INITIAL_AMOUNT - CHOCOLATE_SHORTFALL,
        _ => INITIAL_AMOUNT,
    }
}

} // verus!
