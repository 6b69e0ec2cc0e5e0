//! The views of several values at once.

use vstd::prelude::*;

verus! {

/// The view of each value of a list.
pub open spec fn of<T: View>(values: Seq<T>) -> Seq<T::V> {
    values.map_values(|x: T| x@)
}

/// The view of a value that may be missing.
pub open spec fn option<T: View>(value: Option<T>) -> Option<T::V> {
    match value {
        Some(x) => Some(x@),
        None => None,
    }
}

/// The view of a list that may be missing.
pub open spec fn option_list<T: View>(values: Option<Vec<T>>) -> Option<Seq<T::V>> {
    match values {
        Some(list) => Some(of(list@)),
        None => None,
    }
}

/// The views of a list with one more value behind it.
pub broadcast proof fn lemma_views_push<T: View>(values: Seq<T>, x: T)
    ensures
        #[trigger] of(values.push(x)) == of(values).push(x@),
{
    assert(of(values.push(x)) =~= of(values).push(x@));
}

/// The views of the empty list.
pub broadcast proof fn lemma_views_empty<T: View>()
    ensures
        #[trigger] of(Seq::<T>::empty()) == Seq::<T::V>::empty(),
{
    assert(of(Seq::<T>::empty()) =~= Seq::<T::V>::empty());
}

pub broadcast group group_views {
    lemma_views_push,
    lemma_views_empty,
}

} // verus!
