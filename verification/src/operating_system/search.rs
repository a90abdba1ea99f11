use vstd::prelude::*;

verus! {

/// The position of the first element of `s` that meets `pred`, or the length
/// of `s` where none does.
pub open spec fn first_where<A>(s: Seq<A>, pred: spec_fn(A) -> bool) -> int
    decreases s.len(),
{
    if s.len() == 0 {
        0
    } else if pred(s[0]) {
        0
    } else {
        1 + first_where(s.drop_first(), pred)
    }
}

/// `first_where` is the least position whose element meets `pred`.
pub proof fn lemma_first_where<A>(s: Seq<A>, pred: spec_fn(A) -> bool)
    ensures
        0 <= first_where(s, pred) <= s.len(),
        first_where(s, pred) < s.len() ==> pred(s[first_where(s, pred)]),
        forall|j: int| 0 <= j < first_where(s, pred) ==> !pred(#[trigger] s[j]),
    decreases s.len(),
{
    if s.len() > 0 && !pred(s[0]) {
        let rest = s.drop_first();
        lemma_first_where(rest, pred);
        let f = first_where(rest, pred);
        assert forall|j: int| 0 <= j < 1 + f implies !pred(#[trigger] s[j]) by {
            if j > 0 {
                assert(s[j] == rest[j - 1]);
            }
        }
        if f < rest.len() {
            assert(s[1 + f] == rest[f]);
        }
    }
}

/// A position before which nothing meets `pred`, and which meets it or is
/// the length of `s`, is `first_where`.
pub proof fn lemma_first_where_is<A>(s: Seq<A>, pred: spec_fn(A) -> bool, at: int)
    requires
        0 <= at <= s.len(),
        at < s.len() ==> pred(s[at]),
        forall|j: int| 0 <= j < at ==> !pred(#[trigger] s[j]),
    ensures
        first_where(s, pred) == at,
{
    lemma_first_where(s, pred);
    let f = first_where(s, pred);
    if f < at {
        assert(!pred(s[f]));
    }
}

} // verus!
