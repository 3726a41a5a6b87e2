//! Element-wise views of sequences.

use vstd::prelude::*;

verus! {

/// The sequence of the views of the elements of `s`.
pub open spec fn views<T: DeepView>(s: Seq<T>) -> Seq<T::V> {
    Seq::new(s.len(), |i: int| s[i].deep_view())
}

/// Adding an element at the end adds its view at the end.
pub proof fn lemma_views_push<T: DeepView>(s: Seq<T>, x: T)
    ensures
        views(s.push(x)) == views(s).push(x.deep_view()),
{
    assert(views(s.push(x)) =~= views(s).push(x.deep_view()));
}

/// Adding an element somewhere adds its view there.
pub proof fn lemma_views_insert<T: DeepView>(s: Seq<T>, i: int, x: T)
    requires
        0 <= i <= s.len(),
    ensures
        views(s.insert(i, x)) == views(s).insert(i, x.deep_view()),
{
    assert(views(s.insert(i, x)) =~= views(s).insert(i, x.deep_view()));
}

/// Taking an element out takes its view out.
pub proof fn lemma_views_remove<T: DeepView>(s: Seq<T>, i: int)
    requires
        0 <= i < s.len(),
    ensures
        views(s.remove(i)) == views(s).remove(i),
{
    assert(views(s.remove(i)) =~= views(s).remove(i));
}

} // verus!
