//! The positions of a list that have a property.

use vstd::prelude::*;

verus! {

/// Whether `at` names the positions below `n` that have a property: each once,
/// in order, and no other.
pub open spec fn picks(at: Seq<int>, n: int, p: spec_fn(int) -> bool) -> bool {
    &&& forall|k: int| 0 <= k < at.len() ==> 0 <= #[trigger] at[k] < n && p(at[k])
    &&& forall|k: int, l: int| 0 <= k < l < at.len() ==> at[k] < at[l]
    &&& forall|i: int| 0 <= i < n && #[trigger] p(i) ==> at.contains(i)
}

/// No positions are picked of an empty list.
pub proof fn lemma_picks_none(p: spec_fn(int) -> bool)
    ensures
        picks(Seq::empty(), 0, p),
{
}

/// One more position is picked if it has the property.
pub proof fn lemma_picks_next(at: Seq<int>, n: int, p: spec_fn(int) -> bool)
    requires
        0 <= n,
        picks(at, n, p),
    ensures
        picks(
            if p(n) {
                at.push(n)
            } else {
                at
            },
            n + 1,
            p,
        ),
{
    if p(n) {
        let b = at.push(n);
        assert forall|i: int| 0 <= i < n + 1 && #[trigger] p(i) implies b.contains(i) by {
            if i < n {
                assert(at.contains(i));
                let k = choose|k: int| 0 <= k < at.len() && at[k] == i;
                assert(b[k] == i);
            } else {
                assert(b[at.len() as int] == i);
            }
        }
    }
}

/// What is picked depends on the properties of the positions alone.
pub proof fn lemma_picks_same(
    at: Seq<int>,
    n: int,
    p: spec_fn(int) -> bool,
    q: spec_fn(int) -> bool,
)
    requires
        picks(at, n, p),
        forall|i: int| 0 <= i < n ==> #[trigger] p(i) == q(i),
    ensures
        picks(at, n, q),
{
    assert forall|i: int| 0 <= i < n && #[trigger] q(i) implies at.contains(i) by {
        assert(p(i));
    }
}

} // verus!
