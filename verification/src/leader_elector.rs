//! Election ballots: how a ballot is built on its way round the ring and
//! who wins it.

use vstd::prelude::*;

verus! {

/// The election state of one robot: its id, and whether it holds a backup
/// of the leader's state.
#[derive(PartialEq, Eq, Structural, Clone, Copy, Debug)]
pub struct LeaderElector {
    pub my_id: usize,
    pub valid_backup: bool,
}

/// Whether an entry of a ballot takes part: every entry does, or only those
/// with a valid backup.
pub open spec fn takes_part(entry: (usize, bool), only_valid: bool) -> bool {
    !only_valid || entry.1
}

/// The highest id among the entries that take part, if any does.
pub open spec fn highest_id(ballot: Seq<(usize, bool)>, only_valid: bool) -> Option<usize>
    decreases ballot.len(),
{
    if ballot.len() == 0 {
        None
    } else {
        let rest = highest_id(ballot.drop_last(), only_valid);
        let entry = ballot.last();
        if !takes_part(entry, only_valid) {
            rest
        } else {
            match rest {
                None => Some(entry.0),
                Some(m) => Some(
                    if entry.0 > m {
                        entry.0
                    } else {
                        m
                    },
                ),
            }
        }
    }
}

/// The winner of a ballot: the highest id among the candidates that hold a
/// valid backup; where none does, the highest id of all. An empty ballot has
/// no winner.
pub open spec fn ballot_winner(ballot: Seq<(usize, bool)>) -> Option<usize> {
    match highest_id(ballot, true) {
        Some(w) => Some(w),
        None => highest_id(ballot, false),
    }
}

/// Whether `id` stands on the ballot.
pub open spec fn on_ballot(ballot: Seq<(usize, bool)>, id: usize) -> bool {
    exists|i: int| 0 <= i < ballot.len() && (#[trigger] ballot[i]).0 == id
}

/// `highest_id` is `None` exactly when no entry takes part; otherwise it is
/// the id of an entry that takes part, and no such entry has a higher one.
pub proof fn lemma_highest_id(ballot: Seq<(usize, bool)>, only_valid: bool)
    ensures
        match highest_id(ballot, only_valid) {
            None => forall|i: int|
                0 <= i < ballot.len() ==> !takes_part(#[trigger] ballot[i], only_valid),
            Some(m) => {
                &&& exists|i: int|
                    0 <= i < ballot.len() && takes_part(#[trigger] ballot[i], only_valid)
                        && ballot[i].0 == m
                &&& forall|i: int|
                    0 <= i < ballot.len() && takes_part(#[trigger] ballot[i], only_valid)
                        ==> ballot[i].0 <= m
            },
        },
    decreases ballot.len(),
{
    if ballot.len() > 0 {
        let front = ballot.drop_last();
        lemma_highest_id(front, only_valid);
        assert forall|i: int| 0 <= i < front.len() implies front[i] == ballot[i] by {}
        let last = ballot.len() - 1;
        match highest_id(ballot, only_valid) {
            None => {
                assert forall|i: int| 0 <= i < ballot.len() implies !takes_part(
                    #[trigger] ballot[i],
                    only_valid,
                ) by {
                    if i < last {
                        assert(front[i] == ballot[i]);
                    }
                }
            },
            Some(m) => {
                if takes_part(ballot.last(), only_valid) && ballot.last().0 == m {
                    assert(takes_part(ballot[last], only_valid) && ballot[last].0 == m);
                } else {
                    let j = choose|j: int|
                        0 <= j < front.len() && takes_part(#[trigger] front[j], only_valid)
                            && front[j].0 == m;
                    assert(takes_part(ballot[j], only_valid) && ballot[j].0 == m);
                }
                assert forall|i: int|
                    0 <= i < ballot.len() && takes_part(
                        #[trigger] ballot[i],
                        only_valid,
                    ) implies ballot[i].0 <= m by {
                    if i < last {
                        assert(front[i] == ballot[i]);
                    }
                }
            },
        }
    }
}

/// Two ballots with the same entries, in whatever order and however often
/// each occurs, have the same highest id.
pub proof fn lemma_highest_id_same_entries(
    a: Seq<(usize, bool)>,
    b: Seq<(usize, bool)>,
    only_valid: bool,
)
    requires
        forall|e: (usize, bool)| a.contains(e) <==> b.contains(e),
    ensures
        highest_id(a, only_valid) == highest_id(b, only_valid),
{
    lemma_highest_id(a, only_valid);
    lemma_highest_id(b, only_valid);
    assert forall|i: int| 0 <= i < a.len() implies b.contains(#[trigger] a[i]) by {
        assert(a.contains(a[i]));
    }
    assert forall|i: int| 0 <= i < b.len() implies a.contains(#[trigger] b[i]) by {
        assert(b.contains(b[i]));
    }
    match highest_id(a, only_valid) {
        None => {
            if highest_id(b, only_valid) is Some {
                let j = choose|j: int|
                    0 <= j < b.len() && takes_part(#[trigger] b[j], only_valid) && b[j].0
                        == highest_id(b, only_valid).unwrap();
                assert(a.contains(b[j]));
                let k = choose|k: int| 0 <= k < a.len() && a[k] == b[j];
                assert(!takes_part(a[k], only_valid));
            }
        },
        Some(m) => {
            let i = choose|i: int|
                0 <= i < a.len() && takes_part(#[trigger] a[i], only_valid) && a[i].0 == m;
            assert(b.contains(a[i]));
            let k = choose|k: int| 0 <= k < b.len() && b[k] == a[i];
            assert(takes_part(b[k], only_valid));
            let n = highest_id(b, only_valid).unwrap();
            assert(m <= n);
            let j = choose|j: int|
                0 <= j < b.len() && takes_part(#[trigger] b[j], only_valid) && b[j].0 == n;
            assert(a.contains(b[j]));
            let l = choose|l: int| 0 <= l < a.len() && a[l] == b[j];
            assert(takes_part(a[l], only_valid));
            assert(n <= m);
        },
    }
}

/// The winner depends on the ballot as a multiset only: two ballots that
/// hold the same entries the same number of times have the same winner.
pub proof fn lemma_winner_of_multiset(a: Seq<(usize, bool)>, b: Seq<(usize, bool)>)
    requires
        a.to_multiset() == b.to_multiset(),
    ensures
        ballot_winner(a) == ballot_winner(b),
{
    a.to_multiset_ensures();
    b.to_multiset_ensures();
    assert forall|e: (usize, bool)| a.contains(e) <==> b.contains(e) by {
        assert(a.contains(e) <==> a.to_multiset().count(e) > 0);
        assert(b.contains(e) <==> b.to_multiset().count(e) > 0);
    }
    lemma_highest_id_same_entries(a, b, true);
    lemma_highest_id_same_entries(a, b, false);
}

/// A ballot that is not empty has a winner, and the winner stands on it;
/// where any candidate holds a valid backup, so does the winner.
pub proof fn lemma_winner_on_ballot(ballot: Seq<(usize, bool)>)
    requires
        ballot.len() > 0,
    ensures
        ballot_winner(ballot) is Some,
        on_ballot(ballot, ballot_winner(ballot).unwrap()),
        (exists|i: int| 0 <= i < ballot.len() && (#[trigger] ballot[i]).1) ==> ballot.contains(
            (ballot_winner(ballot).unwrap(), true),
        ),
{
    lemma_highest_id(ballot, true);
    lemma_highest_id(ballot, false);
    assert(takes_part(ballot[0], false));
    match highest_id(ballot, true) {
        Some(w) => {
            let i = choose|i: int|
                0 <= i < ballot.len() && takes_part(#[trigger] ballot[i], true) && ballot[i].0
                    == w;
            assert(ballot[i] == (w, true));
        },
        None => {
            let w = highest_id(ballot, false).unwrap();
            let i = choose|i: int|
                0 <= i < ballot.len() && takes_part(#[trigger] ballot[i], false) && ballot[i].0
                    == w;
            assert(ballot[i].0 == w);
        },
    }
}

/// Adding an entry that already stands on the ballot does not change the winner.
pub proof fn lemma_winner_ignores_repeat(ballot: Seq<(usize, bool)>, entry: (usize, bool))
    requires
        ballot.contains(entry),
    ensures
        ballot_winner(ballot.push(entry)) == ballot_winner(ballot),
{
    let more = ballot.push(entry);
    assert forall|e: (usize, bool)| more.contains(e) <==> ballot.contains(e) by {
        if more.contains(e) {
            let i = choose|i: int| 0 <= i < more.len() && more[i] == e;
            if i < ballot.len() {
                assert(ballot[i] == e);
            }
        }
        if ballot.contains(e) {
            let i = choose|i: int| 0 <= i < ballot.len() && ballot[i] == e;
            assert(more[i] == e);
        }
    }
    lemma_highest_id_same_entries(more, ballot, true);
    lemma_highest_id_same_entries(more, ballot, false);
}

impl LeaderElector {
    /// The entry this robot puts on a ballot.
    pub open spec fn entry(self) -> (usize, bool) {
        (self.my_id, self.valid_backup)
    }

    /// The elector of robot `my_id`, which holds no backup yet.
    pub fn new(my_id: usize) -> (elector: LeaderElector)
        ensures
            elector == (LeaderElector { my_id, valid_backup: false }),
    {
        Self { my_id, valid_backup: false }
    }

    /// The winner of the ballot `candidates` with this robot's own entry
    /// added: where this robot already stands on the ballot as it is now,
    /// that is the winner of the ballot itself.
    pub fn choose_leader(&mut self, candidates: Vec<(usize, bool)>) -> (winner: usize)
        ensures
            *final(self) == *old(self),
            Some(winner) == ballot_winner(candidates@.push(old(self).entry())),
            candidates@.contains(old(self).entry()) ==> Some(winner) == ballot_winner(
                candidates@,
            ),
    {
        let mut best_valid: Option<usize> = if self.valid_backup {
            Some(self.my_id)
        } else {
            None
        };
        let mut best_any: usize = self.my_id;
        let ghost me = self.entry();
        let mut i: usize = 0;
        proof {
            let first = candidates@.subrange(0, 0).push(me);
            assert(first.drop_last() =~= Seq::<(usize, bool)>::empty());
            assert(first.last() == me);
            assert(highest_id(first.drop_last(), true) is None);
            assert(highest_id(first.drop_last(), false) is None);
        }
        while i < candidates.len()
            invariant
                i <= candidates.len(),
                me == self.entry(),
                best_valid == highest_id(candidates@.subrange(0, i as int).push(me), true),
                Some(best_any) == highest_id(candidates@.subrange(0, i as int).push(me), false),
            decreases candidates.len() - i,
        {
            let (candidate, valid) = candidates[i];
            proof {
                let before = candidates@.subrange(0, i as int).push(me);
                let after = candidates@.subrange(0, i as int + 1).push(me);
                let swapped = before.push((candidate, valid));
                assert(swapped.drop_last() =~= before);
                assert forall|e: (usize, bool)| after.contains(e) <==> swapped.contains(e) by {
                    if after.contains(e) {
                        let k = choose|k: int| 0 <= k < after.len() && after[k] == e;
                        if k < i {
                            assert(swapped[k] == e);
                        } else if k == i {
                            assert(swapped[i as int + 1] == e);
                        } else {
                            assert(swapped[i as int] == e);
                        }
                    }
                    if swapped.contains(e) {
                        let k = choose|k: int| 0 <= k < swapped.len() && swapped[k] == e;
                        if k < i {
                            assert(after[k] == e);
                        } else if k == i {
                            assert(after[i as int + 1] == e);
                        } else {
                            assert(after[i as int] == e);
                        }
                    }
                }
                lemma_highest_id_same_entries(after, swapped, true);
                lemma_highest_id_same_entries(after, swapped, false);
            }
            if valid {
                best_valid = match best_valid {
                    None => Some(candidate),
                    Some(m) => Some(
                        if candidate > m {
                            candidate
                        } else {
                            m
                        },
                    ),
                };
            }
            if candidate > best_any {
                best_any = candidate;
            }
            i = i + 1;
        }
        proof {
            assert(candidates@.subrange(0, i as int) =~= candidates@);
            if candidates@.contains(me) {
                lemma_winner_ignores_repeat(candidates@, me);
            }
        }
        match best_valid {
            Some(w) => w,
            None => best_any,
        }
    }

    /// The ballot that opens an election: this robot's entry alone.
    pub fn start_election(&mut self) -> (ballot: Vec<(usize, bool)>)
        ensures
            *final(self) == *old(self),
            ballot@ == seq![old(self).entry()],
    {
        let mut ballot: Vec<(usize, bool)> = Vec::new();
        ballot.push((self.my_id, self.valid_backup));
        assert(ballot@ =~= seq![self.entry()]);
        ballot
    }

    /// The ballot with this robot's entry added at the end.
    pub fn add_candidate(&mut self, candidates: Vec<(usize, bool)>) -> (ballot: Vec<(usize, bool)>)
        ensures
            *final(self) == *old(self),
            ballot@ == candidates@.push(old(self).entry()),
    {
        let mut candidates = candidates;
        candidates.push((self.my_id, self.valid_backup));
        candidates
    }

    /// Whether the ballot has been round the ring: whether this robot's id
    /// stands on it.
    pub fn check_round_finished(&self, candidates: Vec<(usize, bool)>) -> (finished: bool)
        ensures
            finished == on_ballot(candidates@, self.my_id),
    {
        let mut i: usize = 0;
        while i < candidates.len()
            invariant
                i <= candidates.len(),
                forall|j: int| 0 <= j < i ==> (#[trigger] candidates@[j]).0 != self.my_id,
            decreases candidates.len() - i,
        {
            if candidates[i].0 == self.my_id {
                return true;
            }
            i = i + 1;
        }
        false
    }

    /// Records that a backup of the leader's state has been received.
    pub fn validate_backup(&mut self)
        ensures
            final(self).my_id == old(self).my_id,
            final(self).valid_backup,
    {
        self.valid_backup = true;
    }
}

/// No two entries of the ballot have the same id.
pub open spec fn distinct_ids(ballot: Seq<(usize, bool)>) -> bool {
    forall|i: int, j: int|
        0 <= i < ballot.len() && 0 <= j < ballot.len() && i != j ==> (#[trigger] ballot[i]).0 != (
        #[trigger] ballot[j]).0
}

/// On a ballot that names every robot once, exactly one robot is the
/// winner: one entry has the winner's id, and no other has.
pub proof fn lemma_exactly_one_elected(ballot: Seq<(usize, bool)>)
    requires
        ballot.len() > 0,
        distinct_ids(ballot),
    ensures
        ballot_winner(ballot) is Some,
        exists|i: int|
            0 <= i < ballot.len() && (#[trigger] ballot[i]).0 == ballot_winner(ballot).unwrap()
                && forall|j: int|
                0 <= j < ballot.len() && (#[trigger] ballot[j]).0 == ballot_winner(
                    ballot,
                ).unwrap() ==> j == i,
{
    lemma_winner_on_ballot(ballot);
    let w = ballot_winner(ballot).unwrap();
    let i = choose|i: int| 0 <= i < ballot.len() && (#[trigger] ballot[i]).0 == w;
    assert forall|j: int| 0 <= j < ballot.len() && (#[trigger] ballot[j]).0 == w implies j
        == i by {
        if j != i {
            assert(ballot[i].0 != ballot[j].0);
        }
    }
}

/// Every robot that stands on a ballot finds the same winner when it
/// adds its own entry again, as it does when the ballot comes back to it:
/// whoever ends the round, the same robot is named.
pub proof fn lemma_same_winner_for_all(ballot: Seq<(usize, bool)>, i: int, j: int)
    requires
        0 <= i < ballot.len(),
        0 <= j < ballot.len(),
    ensures
        ballot_winner(ballot.push(ballot[i])) == ballot_winner(ballot.push(ballot[j])),
{
    assert(ballot.contains(ballot[i]));
    assert(ballot.contains(ballot[j]));
    lemma_winner_ignores_repeat(ballot, ballot[i]);
    lemma_winner_ignores_repeat(ballot, ballot[j]);
}

} // verus!
