//! The probe sent round the ring to rebuild a token that seems lost.

use crate::flavor_id::FlavorID;
use vstd::prelude::*;

verus! {

/// A recovery probe for one flavor. `amount` is the lowest amount of the
/// flavor's token that any robot the probe passed has seen.
#[derive(PartialEq, Eq, Structural, Clone, Copy, Debug)]
pub struct TokenBackup {
    flavor_id: FlavorID,
    amount: u32,
    start_robot_id: usize,
}

/// The amount a probe carries after passing a robot that last saw `seen`:
/// the lower of the two.
pub open spec fn merged_amount(carried: nat, seen: nat) -> nat {
    if seen < carried {
        seen
    } else {
        carried
    }
}

impl TokenBackup {
    /// The flavor whose token is being rebuilt.
    pub closed spec fn spec_flavor_id(self) -> FlavorID {
        self.flavor_id
    }

    /// The lowest amount seen so far.
    pub closed spec fn spec_amount(self) -> u32 {
        self.amount
    }

    /// The robot that sent the probe.
    pub closed spec fn spec_start_robot_id(self) -> usize {
        self.start_robot_id
    }

    /// The probe after passing a robot that last saw `seen` grams.
    pub closed spec fn spec_merge(self, seen: u32) -> TokenBackup {
        TokenBackup {
            flavor_id: self.flavor_id,
            amount: if seen < self.amount {
                seen
            } else {
                self.amount
            },
            start_robot_id: self.start_robot_id,
        }
    }

    /// The probe for `flavor_id` that starts at `start_robot_id` with `amount`.
    pub closed spec fn spec_new(flavor_id: FlavorID, amount: u32, start_robot_id: usize)
        -> TokenBackup {
        TokenBackup { flavor_id, amount, start_robot_id }
    }

    /// A probe for `flavor_id` that starts at `start_robot_id` with `amount`.
    pub fn new(flavor_id: FlavorID, amount: u32, start_robot_id: usize) -> (probe: TokenBackup)
        ensures
            probe == Self::spec_new(flavor_id, amount, start_robot_id),
            probe.spec_flavor_id() == flavor_id,
            probe.spec_amount() == amount,
            probe.spec_start_robot_id() == start_robot_id,
    {
        TokenBackup { flavor_id, amount, start_robot_id }
    }

    /// Lowers the amount to `new_amount` if that is less; flavor and origin stay.
    pub fn change_amount_if_necessary(&mut self, new_amount: u32)
        ensures
            *final(self) == old(self).spec_merge(new_amount),
            final(self).spec_amount() == merged_amount(
                old(self).spec_amount() as nat,
                new_amount as nat,
            ),
            final(self).spec_flavor_id() == old(self).spec_flavor_id(),
            final(self).spec_start_robot_id() == old(self).spec_start_robot_id(),
    {
        if new_amount < self.amount {
            self.amount = new_amount;
        }
    }

    /// The lowest amount seen so far.
    pub fn get_amount(&self) -> (amount: u32)
        ensures
            amount == self.spec_amount(),
    {
        self.amount
    }

    /// The robot that sent the probe.
    pub fn get_start_robot_id(&self) -> (id: usize)
        ensures
            id == self.spec_start_robot_id(),
    {
        self.start_robot_id
    }

    /// The flavor whose token is being rebuilt.
    pub fn get_flavor_id(&self) -> (flavor: FlavorID)
        ensures
            flavor == self.spec_flavor_id(),
    {
        self.flavor_id
    }
}

/// What a new probe holds.
pub proof fn lemma_probe_new(flavor_id: FlavorID, amount: u32, start_robot_id: usize)
    ensures
        TokenBackup::spec_new(flavor_id, amount, start_robot_id).spec_flavor_id() == flavor_id,
        TokenBackup::spec_new(flavor_id, amount, start_robot_id).spec_amount() == amount,
        TokenBackup::spec_new(flavor_id, amount, start_robot_id).spec_start_robot_id()
            == start_robot_id,
{
}

/// What a merge does to each part of a probe.
pub proof fn lemma_merge_parts(probe: TokenBackup, seen: u32)
    ensures
        probe.spec_merge(seen).spec_amount() == merged_amount(
            probe.spec_amount() as nat,
            seen as nat,
        ),
        probe.spec_merge(seen).spec_flavor_id() == probe.spec_flavor_id(),
        probe.spec_merge(seen).spec_start_robot_id() == probe.spec_start_robot_id(),
{
}

/// A probe is its flavor, its amount and its origin, nothing else.
pub proof fn lemma_probe_extensional(a: TokenBackup, b: TokenBackup)
    ensures
        (a.spec_flavor_id() == b.spec_flavor_id() && a.spec_amount() == b.spec_amount()
            && a.spec_start_robot_id() == b.spec_start_robot_id()) <==> a == b,
{
}

/// Merging the same observation twice changes nothing the second time.
pub proof fn lemma_merge_idempotent(probe: TokenBackup, seen: u32)
    ensures
        probe.spec_merge(seen).spec_merge(seen) == probe.spec_merge(seen),
{
}

/// A merge never raises the amount, and never takes it below both the
/// amount carried and the amount seen.
pub proof fn lemma_merge_monotone(probe: TokenBackup, seen: u32)
    ensures
        probe.spec_merge(seen).spec_amount() <= probe.spec_amount(),
        probe.spec_merge(seen).spec_amount() <= seen,
        probe.spec_merge(seen).spec_amount() == probe.spec_amount() || probe.spec_merge(
            seen,
        ).spec_amount() == seen,
{
}

/// The order in which two observations are merged does not matter.
pub proof fn lemma_merge_commutes(probe: TokenBackup, a: u32, b: u32)
    ensures
        probe.spec_merge(a).spec_merge(b) == probe.spec_merge(b).spec_merge(a),
{
}

/// A probe after a pass over robots whose last-seen amounts are `seen`, in order.
pub open spec fn merged_over(probe: TokenBackup, seen: Seq<u32>) -> TokenBackup
    decreases seen.len(),
{
    if seen.len() == 0 {
        probe
    } else {
        merged_over(probe, seen.drop_last()).spec_merge(seen.last())
    }
}

/// A pass round the ring can only lower the amount, and leaves it no higher
/// than anything a robot on the way has seen.
pub proof fn lemma_pass_lowers(probe: TokenBackup, seen: Seq<u32>)
    ensures
        merged_over(probe, seen).spec_amount() <= probe.spec_amount(),
        forall|i: int| 0 <= i < seen.len() ==> merged_over(probe, seen).spec_amount() <= seen[i],
        merged_over(probe, seen).spec_flavor_id() == probe.spec_flavor_id(),
        merged_over(probe, seen).spec_start_robot_id() == probe.spec_start_robot_id(),
    decreases seen.len(),
{
    if seen.len() > 0 {
        lemma_pass_lowers(probe, seen.drop_last());
        let before = merged_over(probe, seen.drop_last());
        assert forall|i: int| 0 <= i < seen.len() implies merged_over(probe, seen).spec_amount()
            <= seen[i] by {
            if i < seen.len() - 1 {
                assert(seen.drop_last()[i] == seen[i]);
            }
        }
    }
}

/// A second pass over the same robots, whose observations have not changed,
/// leaves the probe as the first pass left it.
pub proof fn lemma_pass_idempotent(probe: TokenBackup, seen: Seq<u32>)
    ensures
        merged_over(merged_over(probe, seen), seen) == merged_over(probe, seen),
    decreases seen.len(),
{
    let once = merged_over(probe, seen);
    lemma_pass_lowers(probe, seen);
    lemma_pass_fixed(once, seen);
}

/// A pass over robots that have all seen at least what the probe carries
/// leaves the probe unchanged.
pub proof fn lemma_pass_fixed(probe: TokenBackup, seen: Seq<u32>)
    requires
        forall|i: int| 0 <= i < seen.len() ==> probe.spec_amount() <= seen[i],
    ensures
        merged_over(probe, seen) == probe,
    decreases seen.len(),
{
    if seen.len() > 0 {
        assert forall|i: int| 0 <= i < seen.drop_last().len() implies probe.spec_amount()
            <= seen.drop_last()[i] by {
            assert(seen.drop_last()[i] == seen[i]);
        }
        lemma_pass_fixed(probe, seen.drop_last());
    }
}

} // verus!
