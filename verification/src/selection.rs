//! Picking some out of a list, in order.

use vstd::prelude::*;

verus! {

/// Whether `idx` are the places below `n` that are to be kept, in increasing order.
pub open spec fn selects(idx: Seq<int>, n: int, keep: spec_fn(int) -> bool) -> bool {
    &&& forall|j: int, k: int| 0 <= j < k < idx.len() ==> #[trigger] idx[j] < #[trigger] idx[k]
    &&& forall|k: int| 0 <= k < idx.len() ==> 0 <= #[trigger] idx[k] < n && keep(idx[k])
    &&& forall|i: int| 0 <= i < n && #[trigger] keep(i) ==> idx.contains(i)
}

/// One more place is kept or not.
pub proof fn selection_grows(idx: Seq<int>, n: int, keep: spec_fn(int) -> bool)
    requires
        n >= 0,
        selects(idx, n, keep),
    ensures
        keep(n) ==> selects(idx.push(n), n + 1, keep),
        !keep(n) ==> selects(idx, n + 1, keep),
{
    if keep(n) {
        let more = idx.push(n);
        assert forall|i: int| 0 <= i < n + 1 && #[trigger] keep(i) implies more.contains(i) by {
            if i == n {
                assert(more[idx.len() as int] == n);
            } else {
                let k = choose|k: int| 0 <= k < idx.len() && idx[k] == i;
                assert(more[k] == i);
            }
        }
    }
}

/// There is only one such list of places.
pub proof fn selections_are_unique(a: Seq<int>, b: Seq<int>, n: int, keep: spec_fn(int) -> bool)
    requires
        selects(a, n, keep),
        selects(b, n, keep),
    ensures
        a == b,
    decreases a.len() + b.len(),
{
    if a.len() > 0 && b.len() > 0 {
        let (x, y) = (a.last(), b.last());
        if x < y {
            assert(keep(y));
            assert(a.contains(y));
            let k = choose|k: int| 0 <= k < a.len() && a[k] == y;
            assert(k < a.len() - 1 ==> a[k] < a[a.len() - 1]);
        } else if y < x {
            assert(keep(x));
            assert(b.contains(x));
            let k = choose|k: int| 0 <= k < b.len() && b[k] == x;
            assert(k < b.len() - 1 ==> b[k] < b[b.len() - 1]);
        }
        assert(x == y);
        lemma_shorter(a, n, keep);
        lemma_shorter(b, n, keep);
        selections_are_unique(a.drop_last(), b.drop_last(), x, keep);
        assert(a =~= a.drop_last().push(x));
        assert(b =~= b.drop_last().push(y));
    } else if a.len() > 0 {
        assert(keep(a[0]));
        assert(b.contains(a[0]));
    } else if b.len() > 0 {
        assert(keep(b[0]));
        assert(a.contains(b[0]));
    } else {
        assert(a =~= b);
    }
}

proof fn lemma_shorter(a: Seq<int>, n: int, keep: spec_fn(int) -> bool)
    requires
        selects(a, n, keep),
        a.len() > 0,
    ensures
        selects(a.drop_last(), a.last(), keep),
{
    let s = a.drop_last();
    assert forall|i: int| 0 <= i < a.last() && #[trigger] keep(i) implies s.contains(i) by {
        assert(a.contains(i));
        let k = choose|k: int| 0 <= k < a.len() && a[k] == i;
        assert(s[k] == i);
    }
    assert forall|k: int| 0 <= k < s.len() implies 0 <= #[trigger] s[k] < a.last() && keep(s[k]) by {
        assert(s[k] == a[k]);
        assert(a[k] < a[a.len() - 1]);
    }
}

} // verus!
