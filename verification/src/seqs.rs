//! Facts about sequences that several modules lean on.

use vstd::prelude::*;

verus! {

/// A filtered sequence holds exactly the members of the sequence that pass
/// the filter, and is no longer than the sequence.
pub proof fn lemma_filter_member<A>(s: Seq<A>, keep: spec_fn(A) -> bool)
    ensures
        forall|x: A| #[trigger] s.filter(keep).contains(x) <==> s.contains(x) && keep(x),
        s.filter(keep).len() <= s.len(),
{
    broadcast use vstd::seq_lib::group_filter_ensures;
    assert forall|x: A| #[trigger] s.filter(keep).contains(x) implies s.contains(x) && keep(x) by {
        s.lemma_filter_contains_rev(keep, x);
    }
    assert forall|x: A| s.contains(x) && keep(x) implies #[trigger] s.filter(keep).contains(x) by {
        let k = s.index_of(x);
        s.lemma_filter_contains(keep, k);
    }
}

} // verus!
