//! Lists of ids that are kept as sets: no id stands in one twice.

use vstd::prelude::*;

verus! {

/// The list without every occurrence of `id`; the rest keeps its order.
pub open spec fn without<T>(ids: Seq<T>, id: T) -> Seq<T>
    decreases ids.len(),
{
    if ids.len() == 0 {
        Seq::empty()
    } else if ids.last() == id {
        without(ids.drop_last(), id)
    } else {
        without(ids.drop_last(), id).push(ids.last())
    }
}

/// The list with `id` in it: added at the end where it was missing.
pub open spec fn with_id(ids: Seq<usize>, id: usize) -> Seq<usize> {
    if ids.contains(id) {
        ids
    } else {
        ids.push(id)
    }
}

/// An id is in the list after `id` was taken out exactly if it was in it
/// before and is not `id`.
pub proof fn lemma_without_contains<T>(ids: Seq<T>, id: T, x: T)
    ensures
        without(ids, id).contains(x) <==> ids.contains(x) && x != id,
    decreases ids.len(),
{
    if ids.len() > 0 {
        let front = ids.drop_last();
        let last = ids.last();
        let cut = without(ids, id);
        let cut_front = without(front, id);
        lemma_without_contains(front, id, x);
        if cut.contains(x) {
            let k = choose|k: int| 0 <= k < cut.len() && cut[k] == x;
            if last != id && k == cut_front.len() {
                assert(ids[ids.len() - 1] == x);
            } else {
                assert(cut_front[k] == x);
                assert(cut_front.contains(x));
                assert(front.contains(x));
                let j = choose|j: int| 0 <= j < front.len() && front[j] == x;
                assert(ids[j] == x);
            }
        }
        if ids.contains(x) && x != id {
            let j = choose|j: int| 0 <= j < ids.len() && ids[j] == x;
            if j < front.len() {
                assert(front[j] == x);
                assert(front.contains(x));
                assert(cut_front.contains(x));
                let k = choose|k: int| 0 <= k < cut_front.len() && cut_front[k] == x;
                assert(cut[k] == x);
            } else {
                assert(cut[cut_front.len() as int] == x);
            }
        }
    }
}

/// What is in a list after an id was taken out.
pub proof fn lemma_without<T>(ids: Seq<T>, id: T)
    ensures
        forall|x: T| #[trigger] without(ids, id).contains(x) <==> ids.contains(x) && x != id,
        ids.no_duplicates() ==> without(ids, id).no_duplicates(),
        without(ids, id).len() <= ids.len(),
        !ids.contains(id) ==> without(ids, id) == ids,
    decreases ids.len(),
{
    assert forall|x: T| #[trigger] without(ids, id).contains(x) <==> ids.contains(x) && x
        != id by {
        lemma_without_contains(ids, id, x);
    }
    if ids.len() == 0 {
        assert(without(ids, id) =~= ids);
    } else {
        let front = ids.drop_last();
        let last = ids.last();
        lemma_without(front, id);
        if ids.no_duplicates() {
            assert(front.no_duplicates());
            if last != id {
                assert(!front.contains(last)) by {
                    if front.contains(last) {
                        let j = choose|j: int| 0 <= j < front.len() && front[j] == last;
                        assert(ids[j] == ids[ids.len() - 1]);
                    }
                }
                lemma_without_contains(front, id, last);
                assert(!without(front, id).contains(last));
                assert(without(ids, id).no_duplicates()) by {
                    let cut = without(ids, id);
                    let cut_front = without(front, id);
                    assert forall|a: int, b: int|
                        0 <= a < cut.len() && 0 <= b < cut.len() && a != b implies cut[a]
                        != cut[b] by {
                        if a == cut_front.len() {
                            assert(cut_front[b] == cut[b]);
                            assert(cut_front.contains(cut[b]));
                        } else if b == cut_front.len() {
                            assert(cut_front[a] == cut[a]);
                            assert(cut_front.contains(cut[a]));
                        } else {
                            assert(cut_front[a] == cut[a]);
                            assert(cut_front[b] == cut[b]);
                        }
                    }
                }
            }
        }
        if !ids.contains(id) {
            assert(!front.contains(id)) by {
                if front.contains(id) {
                    let j = choose|j: int| 0 <= j < front.len() && front[j] == id;
                    assert(ids[j] == id);
                }
            }
            assert(last != id) by {
                assert(ids[ids.len() - 1] == last);
            }
            assert(without(ids, id) =~= ids);
        }
    }
}

/// What is in a list after an id was put in.
pub proof fn lemma_with_id(ids: Seq<usize>, id: usize)
    ensures
        forall|x: usize| #[trigger] with_id(ids, id).contains(x) <==> ids.contains(x) || x == id,
        ids.no_duplicates() ==> with_id(ids, id).no_duplicates(),
{
    let more = ids.push(id);
    assert forall|x: usize| more.contains(x) <==> ids.contains(x) || x == id by {
        if more.contains(x) {
            let k = choose|k: int| 0 <= k < more.len() && more[k] == x;
            if k < ids.len() {
                assert(ids[k] == x);
            }
        }
        if ids.contains(x) {
            let k = choose|k: int| 0 <= k < ids.len() && ids[k] == x;
            assert(more[k] == x);
        }
        if x == id {
            assert(more[ids.len() as int] == x);
        }
    }
}

/// Whether `id` stands in the list.
pub fn has_id(ids: &Vec<usize>, id: usize) -> (found: bool)
    ensures
        found == ids@.contains(id),
{
    let mut i: usize = 0;
    while i < ids.len()
        invariant
            i <= ids.len(),
            forall|j: int| 0 <= j < i ==> ids@[j] != id,
        decreases ids.len() - i,
    {
        if ids[i] == id {
            return true;
        }
        i = i + 1;
    }
    false
}

/// Takes every occurrence of `id` out of the list.
pub fn remove_id(ids: &mut Vec<usize>, id: usize)
    ensures
        final(ids)@ == without(old(ids)@, id),
{
    let mut kept: Vec<usize> = Vec::new();
    let mut i: usize = 0;
    while i < ids.len()
        invariant
            i <= ids.len(),
            kept@ == without(ids@.subrange(0, i as int), id),
        decreases ids.len() - i,
    {
        proof {
            assert(ids@.subrange(0, i as int + 1).drop_last() =~= ids@.subrange(0, i as int));
        }
        if ids[i] != id {
            kept.push(ids[i]);
        }
        i = i + 1;
    }
    proof {
        assert(ids@.subrange(0, i as int) =~= ids@);
    }
    *ids = kept;
}

/// Puts `id` into the list, at the end, unless it stands there already.
pub fn add_id(ids: &mut Vec<usize>, id: usize)
    ensures
        final(ids)@ == with_id(old(ids)@, id),
{
    if !has_id(ids, id) {
        ids.push(id);
    }
}

} // verus!
