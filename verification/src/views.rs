use vstd::prelude::*;

verus! {

/// The views of the items of a sequence, in order.
pub open spec fn views_of<T: View>(s: Seq<T>) -> Seq<T::V> {
    s.map_values(|x: T| x@)
}

/// The views of a sequence grown by one item.
pub proof fn lemma_views_push<T: View>(s: Seq<T>, x: T)
    ensures
        views_of(s.push(x)) == views_of(s).push(x@),
{
    assert(views_of(s.push(x)) =~= views_of(s).push(x@));
}

/// The views of a sequence without its last item.
pub proof fn lemma_views_drop_last<T: View>(s: Seq<T>)
    requires
        s.len() > 0,
    ensures
        views_of(s.drop_last()) == views_of(s).drop_last(),
        views_of(s).last() == s.last()@,
{
    assert(views_of(s.drop_last()) =~= views_of(s).drop_last());
}

} // verus!
