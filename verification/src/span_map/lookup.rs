//! What looking things up in a span map gives, piece by piece.

use super::{picked, piece, spans_touching, touches, SpanMap};
use crate::span::{Span, SyntaxContext};
use crate::text::{TextRange, TextSize};
use vstd::prelude::*;

verus! {

/// Whether the offset lies in the `i`th piece: behind the end of the one before it, and before its own.
pub open spec fn lies_in(v: Seq<(TextSize, Span)>, offset: int, i: int) -> bool {
    &&& 0 <= i < v.len()
    &&& offset < v[i].0.0
    &&& 0 <= offset
    &&& i > 0 ==> v[i - 1].0.0 <= offset
}

/// Every position has the span of the piece that it lies in.
pub proof fn positions_have_the_span_of_their_piece(map: SpanMap, offset: TextSize, r: Span, i: int)
    requires
        map.wf(),
        call_ensures(SpanMap::span_at, (&map, offset), r),
        lies_in(map@, offset.0 as int, i),
    ensures
        r == map@[i].1,
{
    super::lemma_ended_by(map@, offset.0 as int);
    let k = super::ended_by(map@, offset.0 as int) as int;
    if k < i {
        assert(map@[k].0.0 > offset.0);
        if k < i - 1 {
            assert(map@[k].0.0 < map@[i - 1].0.0);
        }
    } else if i < k {
        assert(map@[i].0.0 <= offset.0);
    }
}

/// Whether one of the offsets of the range lies in the `i`th piece.
pub open spec fn shares_offset(v: Seq<(TextSize, Span)>, range: TextRange, i: int) -> bool {
    exists|offset: int|
        range.start.0 <= offset < range.end.0 && #[trigger] lies_in(v, offset, i)
}

proof fn lemma_touches(v: Seq<(TextSize, Span)>, range: TextRange, i: int)
    requires
        super::in_order(v),
        0 <= i < v.len(),
    ensures
        shares_offset(v, range, i) <==> touches(piece(v, i), range) && piece(v, i).start.0
            < piece(v, i).end.0,
{
    let p = piece(v, i);
    if touches(p, range) && p.start.0 < p.end.0 {
        let offset = if p.start.0 < range.start.0 {
            range.start.0 as int
        } else {
            p.start.0 as int
        };
        assert(lies_in(v, offset, i));
    }
}

proof fn lemma_spans_touching(v: Seq<(TextSize, Span)>, range: TextRange, a: nat, b: nat, n: nat)
    requires
        super::in_order(v),
        n <= v.len(),
        v.len() > 0 ==> v[0].0.0 > 0,
        a <= b <= v.len(),
        forall|i: int| 0 <= i < v.len() ==> (a <= i < b <==> #[trigger] shares_offset(v, range, i)),
    ensures
        spans_touching(v, range, n) == if n <= a {
            Seq::empty()
        } else {
            Seq::new(
                (if n < b {
                    n
                } else {
                    b
                } - a) as nat,
                |k: int| v[a + k].1,
            )
        },
    decreases n,
{
    if n > 0 {
        lemma_spans_touching(v, range, a, b, (n - 1) as nat);
        lemma_touches(v, range, n - 1);
        if n > 1 {
            assert(v[n - 2].0.0 < v[n - 1].0.0);
        }
        assert(a <= n - 1 < b <==> shares_offset(v, range, n - 1));
        let r = spans_touching(v, range, n);
        if n > a {
            assert(r =~= Seq::new(
                (if n < b {
                    n
                } else {
                    b
                } - a) as nat,
                |k: int| v[a + k].1,
            ));
        }
    } else {
        assert(spans_touching(v, range, n) =~= Seq::empty());
    }
}

/// The spans of a range are those of the pieces that hold one of its offsets, each once and in the
/// order of the text. `a` is the first such piece, and `b` is the one behind the last.
pub proof fn ranges_have_the_spans_of_their_offsets(
    map: SpanMap,
    range: TextRange,
    r: Vec<Span>,
    a: nat,
    b: nat,
)
    requires
        map.wf(),
        map@.len() > 0 ==> map@[0].0.0 > 0,
        call_ensures(SpanMap::spans_for_range, (&map, range), r),
        a <= b <= map@.len(),
        forall|i: int|
            0 <= i < map@.len() ==> (a <= i < b <==> #[trigger] shares_offset(map@, range, i)),
    ensures
        r@.len() == b - a,
        forall|k: int| 0 <= k < r@.len() ==> #[trigger] r@[k] == map@[a + k].1,
{
    lemma_spans_touching(map@, range, a, b, map@.len());
}

/// Whether a range is that of the `i`th piece.
pub open spec fn is_piece(v: Seq<(TextSize, Span)>, range: TextRange, i: int) -> bool {
    &&& 0 <= i < v.len()
    &&& range.end == v[i].0
    &&& i == 0 ==> range.start.0 == 0
    &&& i > 0 ==> range.start == v[i - 1].0
}

/// Whether a range with a context is that of the `i`th piece.
pub open spec fn is_found(v: Seq<(TextSize, Span)>, found: (TextRange, SyntaxContext), i: int) -> bool {
    is_piece(v, found.0, i) && found.1 == v[i].1.ctx
}

proof fn lemma_picked_has(v: Seq<(TextSize, Span)>, test: spec_fn(Span) -> bool, n: nat, i: int) -> (k: int)
    requires
        0 <= i < n <= v.len(),
        test(v[i].1),
    ensures
        0 <= k < picked(v, test, n).len(),
        is_found(v, picked(v, test, n)[k], i),
    decreases n,
{
    let before = picked(v, test, (n - 1) as nat);
    if i == n - 1 {
        before.len() as int
    } else {
        lemma_picked_has(v, test, (n - 1) as nat, i)
    }
}

proof fn lemma_picked_only(v: Seq<(TextSize, Span)>, test: spec_fn(Span) -> bool, n: nat, k: int) -> (i: int)
    requires
        n <= v.len(),
        0 <= k < picked(v, test, n).len(),
    ensures
        0 <= i < n,
        test(v[i].1),
        is_found(v, picked(v, test, n)[k], i),
    decreases n,
{
    let before = picked(v, test, (n - 1) as nat);
    if k < before.len() {
        lemma_picked_only(v, test, (n - 1) as nat, k)
    } else {
        n - 1
    }
}

proof fn lemma_picked_increases(v: Seq<(TextSize, Span)>, test: spec_fn(Span) -> bool, n: nat, j: int, k: int)
    requires
        super::in_order(v),
        n <= v.len(),
        0 <= j < k < picked(v, test, n).len(),
    ensures
        picked(v, test, n)[j].0.end.0 < picked(v, test, n)[k].0.end.0,
    decreases n,
{
    let before = picked(v, test, (n - 1) as nat);
    if k < before.len() {
        lemma_picked_increases(v, test, (n - 1) as nat, j, k);
    } else {
        let i = lemma_picked_only(v, test, (n - 1) as nat, j);
        assert(v[i].0.0 < v[n - 1].0.0);
    }
}

/// A span is found in exactly the pieces that have its anchor and its range, in whatever context, in
/// the order of the text. Each comes with the context that it has there.
pub proof fn spans_are_found_where_they_are(
    map: SpanMap,
    span: Span,
    r: Vec<(TextRange, SyntaxContext)>,
)
    requires
        map.wf(),
        call_ensures(SpanMap::ranges_with_span_exact, (&map, span), r),
    ensures
        forall|i: int|
            0 <= i < map@.len() && (#[trigger] map@[i]).1.anchor == span.anchor && map@[i].1.range == span.range ==> exists|k: int|
                0 <= k < r@.len() && is_found(map@, #[trigger] r@[k], i),
        forall|k: int|
            0 <= k < r@.len() ==> exists|i: int|
                is_found(map@, #[trigger] r@[k], i) && (#[trigger] map@[i]).1.anchor == span.anchor && map@[i].1.range == span.range,
        forall|j: int, k: int|
            0 <= j < k < r@.len() ==> (#[trigger] r@[j]).0.end.0 < (#[trigger] r@[k]).0.end.0,
{
    let test = |s: Span| s.spec_eq_ignoring_ctx(span);
    let (v, n) = (map@, map@.len());
    assert(r@ == picked(v, test, n));
    assert forall|i: int| 0 <= i < v.len() && (#[trigger] v[i]).1.anchor == span.anchor && v[i].1.range == span.range implies exists|k: int|
        0 <= k < r@.len() && is_found(v, #[trigger] r@[k], i) by {
        let k = lemma_picked_has(v, test, n, i);
        assert(is_found(v, r@[k], i));
    }
    assert forall|k: int| 0 <= k < r@.len() implies exists|i: int|
        is_found(v, #[trigger] r@[k], i) && (#[trigger] v[i]).1.anchor == span.anchor && v[i].1.range == span.range by {
        let i = lemma_picked_only(v, test, n, k);
        assert(is_found(v, r@[k], i) && v[i].1.anchor == span.anchor && v[i].1.range == span.range);
    }
    assert forall|j: int, k: int| 0 <= j < k < r@.len() implies (#[trigger] r@[j]).0.end.0 < (
    #[trigger] r@[k]).0.end.0 by {
        lemma_picked_increases(v, test, n, j, k);
    }
}

/// A span is found within exactly the pieces whose span has its anchor and covers its range.
pub proof fn spans_are_found_where_they_are_covered(
    map: SpanMap,
    span: Span,
    r: Vec<(TextRange, SyntaxContext)>,
)
    requires
        map.wf(),
        call_ensures(SpanMap::ranges_with_span, (&map, span), r),
    ensures
        forall|i: int|
            0 <= i < map@.len() && (#[trigger] map@[i]).1.anchor == span.anchor && map@[i].1.range.start.0 <= span.range.start.0 && span.range.end.0 <= map@[i].1.range.end.0 ==> exists|k: int|
                0 <= k < r@.len() && is_found(map@, #[trigger] r@[k], i),
        forall|k: int|
            0 <= k < r@.len() ==> exists|i: int|
                is_found(map@, #[trigger] r@[k], i) && (#[trigger] map@[i]).1.anchor == span.anchor && map@[i].1.range.start.0 <= span.range.start.0 && span.range.end.0 <= map@[i].1.range.end.0,
        forall|j: int, k: int|
            0 <= j < k < r@.len() ==> (#[trigger] r@[j]).0.end.0 < (#[trigger] r@[k]).0.end.0,
{
    let test = |s: Span| s.anchor == span.anchor && s.range.spec_contains_range(span.range);
    let (v, n) = (map@, map@.len());
    assert(r@ == picked(v, test, n));
    assert forall|i: int| 0 <= i < v.len() && (#[trigger] v[i]).1.anchor == span.anchor && v[i].1.range.start.0 <= span.range.start.0 && span.range.end.0 <= v[i].1.range.end.0 implies exists|k: int|
        0 <= k < r@.len() && is_found(v, #[trigger] r@[k], i) by {
        let k = lemma_picked_has(v, test, n, i);
        assert(is_found(v, r@[k], i));
    }
    assert forall|k: int| 0 <= k < r@.len() implies exists|i: int|
        is_found(v, #[trigger] r@[k], i) && (#[trigger] v[i]).1.anchor == span.anchor && v[i].1.range.start.0 <= span.range.start.0 && span.range.end.0 <= v[i].1.range.end.0 by {
        let i = lemma_picked_only(v, test, n, k);
        assert(is_found(v, r@[k], i) && v[i].1.anchor == span.anchor && v[i].1.range.start.0 <= span.range.start.0 && span.range.end.0 <= v[i].1.range.end.0);
    }
    assert forall|j: int, k: int| 0 <= j < k < r@.len() implies (#[trigger] r@[j]).0.end.0 < (
    #[trigger] r@[k]).0.end.0 by {
        lemma_picked_increases(v, test, n, j, k);
    }
}

/// A merge keeps the pieces that end by the start of the range, drops those that end in it, and keeps
/// those that end behind it, moved by as much as the text grows. Between them come the pieces of the
/// other map, moved to the start of the range. `s` and `e` are how many pieces end by the start and by
/// the end of the range.
pub proof fn merges_replace_what_ends_in_the_range(
    v: Seq<(TextSize, Span)>,
    range: TextRange,
    size: TextSize,
    other: Seq<(TextSize, Span)>,
    s: int,
    e: int,
)
    requires
        super::in_order(v),
        range.wf(),
        0 <= s <= e <= v.len(),
        forall|i: int| 0 <= i < v.len() ==> (i < s <==> (#[trigger] v[i]).0.0 <= range.start.0),
        forall|i: int| 0 <= i < v.len() ==> (i < e <==> (#[trigger] v[i]).0.0 <= range.end.0),
        forall|i: int|
            0 <= i < other.len() ==> (#[trigger] other[i]).0.0 + range.start.0 <= u32::MAX,
        forall|i: int| e <= i < v.len() ==> (#[trigger] v[i]).0.0 + size.0 <= u32::MAX,
    ensures
        ({
            let m = super::merged(v, range, size, other);
            &&& m.len() == s + other.len() + (v.len() - e)
            &&& forall|i: int| 0 <= i < s ==> #[trigger] m[i] == v[i]
            &&& forall|i: int|
                0 <= i < other.len() ==> (#[trigger] m[s + i]).0.0 == range.start.0 + other[i].0.0
                    && m[s + i].1 == other[i].1
            &&& forall|i: int|
                e <= i < v.len() ==> (#[trigger] m[s + other.len() + (i - e)]).0.0 == v[i].0.0
                    + size.0 - (range.end.0 - range.start.0) && m[s + other.len() + (i - e)].1
                    == v[i].1
        }),
{
    super::lemma_ended_by(v, range.start.0 as int);
    super::lemma_ended_by(v, range.end.0 as int);
    let x = super::ended_by(v, range.start.0 as int) as int;
    let y = super::ended_by(v, range.end.0 as int) as int;
    if x < s {
        assert(v[x].0.0 > range.start.0);
    } else if s < x {
        assert(v[s].0.0 <= range.start.0);
    }
    if y < e {
        assert(v[y].0.0 > range.end.0);
    } else if e < y {
        assert(v[e].0.0 <= range.end.0);
    }
    let m = super::merged(v, range, size, other);
    assert forall|i: int| e <= i < v.len() implies (
    #[trigger] m[s + other.len() + (i - e)]).0.0 == v[i].0.0 + size.0 - (range.end.0
        - range.start.0) && m[s + other.len() + (i - e)].1 == v[i].1 by {
        assert(v[i].0.0 > range.end.0);
        assert(v[e + (i - e)] == v[i]);
    }
}

} // verus!
