//! Lists by the views of their items.

use vstd::prelude::*;

verus! {

/// The views of the items of a list.
pub open spec fn views<T: View>(list: Seq<T>) -> Seq<T::V> {
    list.map_values(|t: T| t@)
}

pub proof fn lemma_views_push<T: View>(list: Seq<T>, t: T)
    ensures
        views(list.push(t)) == views(list).push(t@),
{
    assert(views(list.push(t)) =~= views(list).push(t@));
}

/// The view of what an option holds.
pub open spec fn option_view<T: View>(o: Option<T>) -> Option<T::V> {
    match o {
        Some(t) => Some(t@),
        None => None,
    }
}

} // verus!
