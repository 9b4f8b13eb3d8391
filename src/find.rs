//! The first element of a sequence that a predicate holds of.
use vstd::prelude::*;

verus! {

/// The position of the first element of `s` that `p` holds of.
pub open spec fn first_index<A>(s: Seq<A>, p: spec_fn(A) -> bool) -> Option<int>
    decreases s.len(),
{
    if s.len() == 0 {
        None
    } else {
        match first_index(s.drop_last(), p) {
            Some(i) => Some(i),
            None => if p(s.last()) {
                Some(s.len() - 1)
            } else {
                None
            },
        }
    }
}

/// [`first_index`] finds the earliest element that `p` holds of, and finds
/// none only where `p` holds of no element.
pub proof fn lemma_first_index<A>(s: Seq<A>, p: spec_fn(A) -> bool)
    ensures
        match first_index(s, p) {
            Some(i) => 0 <= i < s.len() && p(s[i]) && forall|q: int| 0 <= q < i ==> !p(#[trigger] s[q]),
            None => forall|q: int| 0 <= q < s.len() ==> !p(#[trigger] s[q]),
        },
    decreases s.len(),
{
    if s.len() > 0 {
        lemma_first_index(s.drop_last(), p);
        assert(forall|q: int| 0 <= q < s.len() - 1 ==> s.drop_last()[q] == s[q]);
    }
}

pub proof fn lemma_first_index_at<A>(s: Seq<A>, p: spec_fn(A) -> bool, j: int)
    requires
        0 <= j < s.len(),
        p(s[j]),
        forall|q: int| 0 <= q < j ==> !p(#[trigger] s[q]),
    ensures
        first_index(s, p) == Some(j),
{
    lemma_first_index(s, p);
}

pub open spec fn text_is(t: Seq<char>) -> spec_fn(Seq<char>) -> bool {
    |k: Seq<char>| k == t
}

} // verus!
