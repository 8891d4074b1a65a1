//! A map from the positions of a text to spans.

pub mod bases;
pub mod lookup;

use crate::small;
use crate::span::{Span, SyntaxContext};
use crate::storage;
use crate::text::{TextRange, TextSize};
use bases::{SpanMapBase, SpanMapBaseIndices, SpanMapBases};
use vstd::prelude::*;

verus! {

/// Where a piece of the text ends, and the range of its span.
#[derive(Clone, Copy, PartialEq, Eq, Structural, Debug, Hash)]
pub struct SpanMapEntry {
    pub end: TextSize,
    pub range: TextRange,
}

/// Maps each position of a text to a span. The text is cut into pieces that follow each other; each
/// is stored with its end.
pub struct SpanMap {
    pub spans: Vec<SpanMapEntry>,
    pub base_indices: SpanMapBaseIndices,
    pub bases: SpanMapBases,
    /// Which arm of a macro matched, if the text is the expansion of one.
    pub matched_arm: Option<u32>,
}

/// The ends of the pieces increase.
pub open spec fn in_order(v: Seq<(TextSize, Span)>) -> bool {
    forall|i: int, j: int| 0 <= i < j < v.len() ==> (#[trigger] v[i]).0.0 < (#[trigger] v[j]).0.0
}

/// How many pieces, from the last that ends at or before the offset back to the first, there are.
pub open spec fn ended_by(v: Seq<(TextSize, Span)>, offset: int) -> nat
    decreases v.len(),
{
    if v.len() == 0 || v.last().0.0 <= offset {
        v.len()
    } else {
        ended_by(v.drop_last(), offset)
    }
}

/// The range of the `i`th piece.
pub open spec fn piece(v: Seq<(TextSize, Span)>, i: int) -> TextRange {
    TextRange {
        start: if i == 0 {
            TextSize(0)
        } else {
            v[i - 1].0
        },
        end: v[i].0,
    }
}

pub proof fn lemma_ended_by(v: Seq<(TextSize, Span)>, offset: int)
    requires
        in_order(v),
    ensures
        ended_by(v, offset) <= v.len(),
        forall|i: int| 0 <= i < ended_by(v, offset) ==> (#[trigger] v[i]).0.0 <= offset,
        forall|i: int| ended_by(v, offset) <= i < v.len() ==> (#[trigger] v[i]).0.0 > offset,
    decreases v.len(),
{
    if v.len() > 0 {
        let r = ended_by(v, offset);
        if v.last().0.0 > offset {
            let w = v.drop_last();
            assert forall|i: int, j: int| 0 <= i < j < w.len() implies (#[trigger] w[i]).0.0 < (
            #[trigger] w[j]).0.0 by {
                assert(v[i].0.0 < v[j].0.0);
            }
            lemma_ended_by(w, offset);
            assert forall|i: int| 0 <= i < r implies (#[trigger] v[i]).0.0 <= offset by {
                assert(w[i].0.0 <= offset);
            }
            assert forall|i: int| r <= i < v.len() implies (#[trigger] v[i]).0.0 > offset by {
                if i < w.len() {
                    assert(w[i].0.0 > offset);
                }
            }
        } else {
            assert forall|i: int| 0 <= i < v.len() implies (#[trigger] v[i]).0.0 <= offset by {
                if i < v.len() - 1 {
                    assert(v[i].0.0 < v[v.len() - 1].0.0);
                }
            }
        }
    }
}

/// Which pieces the test picks out of the first `n`, with their ranges and contexts.
pub open spec fn picked(
    v: Seq<(TextSize, Span)>,
    test: spec_fn(Span) -> bool,
    n: nat,
) -> Seq<(TextRange, SyntaxContext)>
    decreases n,
{
    if n == 0 {
        Seq::empty()
    } else {
        let before = picked(v, test, (n - 1) as nat);
        if test(v[n - 1].1) {
            before.push((piece(v, n - 1), v[n - 1].1.ctx))
        } else {
            before
        }
    }
}

/// Whether a piece holds one of the offsets of a range.
pub open spec fn touches(piece: TextRange, range: TextRange) -> bool {
    &&& range.start.0 < range.end.0
    &&& piece.start.0 < range.end.0
    &&& range.start.0 < piece.end.0
}

/// The spans of those of the first `n` pieces that hold an offset of the range.
pub open spec fn spans_touching(v: Seq<(TextSize, Span)>, range: TextRange, n: nat) -> Seq<Span>
    decreases n,
{
    if n == 0 {
        Seq::empty()
    } else {
        let before = spans_touching(v, range, (n - 1) as nat);
        if touches(piece(v, n - 1), range) {
            before.push(v[n - 1].1)
        } else {
            before
        }
    }
}

proof fn lemma_none_touch(v: Seq<(TextSize, Span)>, range: TextRange, m: nat, n: nat)
    requires
        m <= n <= v.len(),
        forall|i: int| m <= i < n ==> !touches(#[trigger] piece(v, i), range),
    ensures
        spans_touching(v, range, n) == spans_touching(v, range, m),
    decreases n,
{
    if m < n {
        assert(!touches(piece(v, n - 1), range));
        lemma_none_touch(v, range, m, (n - 1) as nat);
    }
}

/// The pieces of a map with the pieces of another put in the place of a range.
pub open spec fn merged(
    v: Seq<(TextSize, Span)>,
    range: TextRange,
    size: TextSize,
    other: Seq<(TextSize, Span)>,
) -> Seq<(TextSize, Span)> {
    let start = ended_by(v, range.start.0 as int);
    let end = ended_by(v, range.end.0 as int);
    let kept = v.take(start as int);
    let inserted = Seq::new(
        other.len(),
        |i: int| (TextSize((other[i].0.0 + range.start.0) as u32), other[i].1),
    );
    let shifted = Seq::new(
        (v.len() - end) as nat,
        |i: int|
            (
                TextSize((v[end + i].0.0 + size.0 - (range.end.0 - range.start.0)) as u32),
                v[end + i].1,
            ),
    );
    kept + inserted + shifted
}

impl View for SpanMap {
    type V = Seq<(TextSize, Span)>;

    /// The pieces: where each ends, and its span.
    open spec fn view(&self) -> Seq<(TextSize, Span)> {
        Seq::new(self.spans@.len(), |i: int| (self.spans@[i].end, self.spec_span(i)))
    }
}

impl SpanMap {
    pub open spec fn spec_span(self, i: int) -> Span {
        let base = small::small(self.bases)[self.base_indices@[i] as int];
        Span { range: self.spans@[i].range, anchor: base.anchor, ctx: base.ctx }
    }

    /// Every piece has a base, and no base is stored twice.
    pub open spec fn stored_right(self) -> bool {
        &&& self.base_indices@.len() == self.spans@.len()
        &&& forall|i: int|
            0 <= i < self.base_indices@.len() ==> (#[trigger] self.base_indices@[i])
                < small::small(self.bases).len()
        &&& small::small(self.bases).no_duplicates()
    }

    /// The storage is right and the pieces are in order.
    pub open spec fn wf(self) -> bool {
        &&& self.stored_right()
        &&& in_order(self@)
    }

    /// How many different bases are stored.
    pub open spec fn base_count(self) -> nat {
        small::small(self.bases).len()
    }

    /// Whether one more base has a place that its number can say.
    pub open spec fn has_room(self) -> bool {
        self.base_count() <= u32::MAX
    }

    /// The map of the empty text.
    pub fn empty() -> (r: SpanMap)
        ensures
            r.wf(),
            r@ == Seq::<(TextSize, Span)>::empty(),
            r.matched_arm is None,
            r.base_count() == 0,
            r.base_indices is Compact,
    {
        let r = SpanMap {
            spans: Vec::new(),
            base_indices: SpanMapBaseIndices::new(),
            bases: small::small_new(),
            matched_arm: None,
        };
        assert(r@ =~= Seq::<(TextSize, Span)>::empty());
        r
    }

    /// Gives memory back once the map is complete.
    pub fn finish(&mut self)
        requires
            old(self).wf(),
        ensures
            final(self).wf(),
            final(self)@ == old(self)@,
            final(self).spans@ == old(self).spans@,
            final(self).base_indices@ == old(self).base_indices@,
            final(self).base_indices is Compact <==> old(self).base_indices is Compact,
            small::small(final(self).bases) == small::small(old(self).bases),
            final(self).matched_arm == old(self).matched_arm,
    {
        let ghost before = *self;
        storage::vec_shrink_to_fit(&mut self.spans);
        self.base_indices.shrink_to_fit();
        small::small_shrink_to_fit(&mut self.bases);
        assert(self@ =~= before@);
    }

    fn base_of(&mut self, span: Span) -> (r: u32)
        requires
            old(self).stored_right(),
            old(self).has_room(),
        ensures
            final(self).stored_right(),
            final(self).spans == old(self).spans,
            final(self).base_indices == old(self).base_indices,
            final(self).matched_arm == old(self).matched_arm,
            r < final(self).base_count(),
            small::small(final(self).bases)[r as int] == (SpanMapBase {
                anchor: span.anchor,
                ctx: span.ctx,
            }),
            small::small(final(self).bases) == small::small(old(self).bases)
                || small::small(final(self).bases) == small::small(old(self).bases).push(
                SpanMapBase { anchor: span.anchor, ctx: span.ctx },
            ),
            final(self).base_count() == old(self).base_count() <==> small::small(
                old(self).bases,
            ).contains(SpanMapBase { anchor: span.anchor, ctx: span.ctx }),
    {
        let base = SpanMapBase { anchor: span.anchor, ctx: span.ctx };
        let ghost items = small::small(self.bases);
        if self.spans.len() > 0 {
            let last: usize = self.base_indices.get(self.spans.len() - 1);
            if small::small_as_slice(&self.bases)[last] == base {
                assert(items[last as int] == base);
                return last as u32;
            }
        }
        let mut i: usize = 0;
        while i < self.bases.len()
            invariant
                items == small::small(self.bases),
                items.len() <= u32::MAX,
                i <= items.len(),
                *self == *old(self),
                self.stored_right(),
                forall|j: int| 0 <= j < i ==> #[trigger] items[j] != base,
                base == (SpanMapBase { anchor: span.anchor, ctx: span.ctx }),
            decreases items.len() - i,
        {
            if small::small_as_slice(&self.bases)[i] == base {
                assert(items[i as int] == base);
                return i as u32;
            }
            i = i + 1;
        }
        let index: usize = self.bases.len();
        small::small_push(&mut self.bases, base);
        proof {
            let after = small::small(self.bases);
            assert(after == items.push(base));
            assert forall|a: int, b: int|
                0 <= a < after.len() && 0 <= b < after.len() && a != b implies after[a]
                != after[b] by {
                if a < items.len() {
                    assert(items[a] != base);
                }
                if b < items.len() {
                    assert(items[b] != base);
                }
            }
        }
        index as u32
    }

    /// Appends a piece that ends at `offset`, behind all the others.
    pub fn push(&mut self, offset: TextSize, span: Span)
        requires
            old(self).wf(),
            old(self).has_room(),
            old(self)@.len() > 0 ==> old(self)@.last().0.0 < offset.0,
        ensures
            final(self).wf(),
            final(self)@ == old(self)@.push((offset, span)),
            final(self).matched_arm == old(self).matched_arm,
            old(self).base_count() <= final(self).base_count() <= old(self).base_count() + 1,
            final(self).base_count() == old(self).base_count() <==> small::small(
                old(self).bases,
            ).contains(SpanMapBase { anchor: span.anchor, ctx: span.ctx }),
            old(self).base_indices is Compact && final(self).base_count() <= 256
                ==> final(self).base_indices is Compact,
    {
        let ghost before = *self;
        let base: u32 = self.base_of(span);
        let ghost mid = *self;
        proof {
            assert(mid@ =~= before@) by {
                assert forall|i: int| 0 <= i < before@.len() implies #[trigger] mid@[i]
                    == before@[i] by {
                    let k = before.base_indices@[i];
                    assert(small::small(mid.bases)[k as int] == small::small(
                        before.bases,
                    )[k as int]);
                }
            }
        }
        self.spans.push(SpanMapEntry { end: offset, range: span.range });
        self.base_indices.push(base);
        proof {
            assert forall|i: int| 0 <= i < before@.len() implies #[trigger] self@[i]
                == mid@[i] by {
                assert(self.base_indices@[i] == mid.base_indices@[i]);
            }
            assert(self@ =~= before@.push((offset, span)));
            assert forall|i: int, j: int| 0 <= i < j < self@.len() implies (#[trigger] self@[i]).0.0
                < (#[trigger] self@[j]).0.0 by {
                assert(self@[i] == before@[i]);
                if j < before@.len() {
                    assert(self@[j] == before@[j]);
                } else if i < before@.len() - 1 {
                    assert(before@[i].0.0 < before@[before@.len() - 1].0.0);
                }
            }
        }
    }

    fn span(&self, index: usize) -> (r: Span)
        requires
            self.stored_right(),
            index < self.spans@.len(),
        ensures
            r == self@[index as int].1,
            r == self.spec_span(index as int),
    {
        let base = small::small_as_slice(&self.bases)[self.base_indices.get(index)];
        Span { range: self.spans[index].range, anchor: base.anchor, ctx: base.ctx }
    }

    fn piece(&self, index: usize) -> (r: TextRange)
        requires
            self.wf(),
            index < self.spans@.len(),
        ensures
            r == piece(self@, index as int),
            r.wf(),
    {
        let start = if index == 0 {
            TextSize(0)
        } else {
            assert(self@[index - 1].0.0 < self@[index as int].0.0);
            self.spans[index - 1].end
        };
        TextRange::new(start, self.spans[index].end)
    }

    /// The pieces whose span is the given one, up to the context.
    pub fn ranges_with_span_exact(&self, span: Span) -> (r: Vec<(TextRange, SyntaxContext)>)
        requires
            self.wf(),
        ensures
            r@ == picked(self@, |s: Span| s.spec_eq_ignoring_ctx(span), self@.len()),
    {
        let ghost test = |s: Span| s.spec_eq_ignoring_ctx(span);
        let mut r: Vec<(TextRange, SyntaxContext)> = Vec::new();
        let mut i: usize = 0;
        while i < self.spans.len()
            invariant
                self.wf(),
                i <= self.spans@.len(),
                test == (|s: Span| s.spec_eq_ignoring_ctx(span)),
                r@ == picked(self@, test, i as nat),
            decreases self.spans@.len() - i,
        {
            let s = self.span(i);
            if s.eq_ignoring_ctx(span) {
                r.push((self.piece(i), s.ctx));
            }
            i = i + 1;
        }
        r
    }

    /// The pieces whose span contains the given one.
    pub fn ranges_with_span(&self, span: Span) -> (r: Vec<(TextRange, SyntaxContext)>)
        requires
            self.wf(),
        ensures
            r@ == picked(
                self@,
                |s: Span| s.anchor == span.anchor && s.range.spec_contains_range(span.range),
                self@.len(),
            ),
    {
        let ghost test = |s: Span|
            s.anchor == span.anchor && s.range.spec_contains_range(span.range);
        let mut r: Vec<(TextRange, SyntaxContext)> = Vec::new();
        let mut i: usize = 0;
        while i < self.spans.len()
            invariant
                self.wf(),
                i <= self.spans@.len(),
                test == (|s: Span|
                    s.anchor == span.anchor && s.range.spec_contains_range(span.range)),
                r@ == picked(self@, test, i as nat),
            decreases self.spans@.len() - i,
        {
            let s = self.span(i);
            if s.anchor == span.anchor && s.range.contains_range(span.range) {
                r.push((self.piece(i), s.ctx));
            }
            i = i + 1;
        }
        r
    }

    /// How many pieces end at or before the offset.
    fn partition_point(&self, offset: TextSize) -> (r: usize)
        requires
            self.wf(),
        ensures
            r == ended_by(self@, offset.0 as int),
            r <= self@.len(),
    {
        let mut lo: usize = 0;
        let mut hi: usize = self.spans.len();
        while lo < hi
            invariant
                self.wf(),
                lo <= hi <= self@.len(),
                forall|i: int| 0 <= i < lo ==> (#[trigger] self@[i]).0.0 <= offset.0,
                forall|i: int| hi <= i < self@.len() ==> (#[trigger] self@[i]).0.0 > offset.0,
            decreases hi - lo,
        {
            let mid: usize = lo + (hi - lo) / 2;
            let end = self.spans[mid].end;
            assert(self@[mid as int].0 == end);
            if end.0 <= offset.0 {
                lo = mid + 1;
            } else {
                hi = mid;
            }
        }
        proof {
            lemma_ended_by(self@, offset.0 as int);
            let n = ended_by(self@, offset.0 as int);
            if n < lo {
                assert(self@[n as int].0.0 > offset.0);
            }
            if lo < n {
                assert(self@[lo as int].0.0 <= offset.0);
            }
        }
        lo
    }

    /// The span at the given position.
    pub fn span_at(&self, offset: TextSize) -> (r: Span)
        requires
            self.wf(),
            self@.len() > 0,
            offset.0 < self@.last().0.0,
        ensures
            ({
                let i = ended_by(self@, offset.0 as int) as int;
                &&& 0 <= i < self@.len()
                &&& r == self@[i].1
                &&& piece(self@, i).start.0 <= offset.0 < piece(self@, i).end.0
            }),
    {
        proof {
            lemma_ended_by(self@, offset.0 as int);
        }
        let index: usize = self.partition_point(offset);
        self.span(index)
    }

    pub fn iter(&self) -> (r: Vec<(TextSize, Span)>)
        requires
            self.stored_right(),
        ensures
            r@ == self@,
    {
        let mut r: Vec<(TextSize, Span)> = Vec::with_capacity(self.spans.len());
        let mut i: usize = 0;
        while i < self.spans.len()
            invariant
                self.stored_right(),
                i <= self.spans@.len(),
                r@ == self@.take(i as int),
            decreases self.spans@.len() - i,
        {
            r.push((self.spans[i].end, self.span(i)));
            i = i + 1;
            assert(r@ =~= self@.take(i as int));
        }
        assert(self@.take(self@.len() as int) =~= self@);
        r
    }

    /// The spans of all offsets in the given range.
    pub fn spans_for_range(&self, range: TextRange) -> (r: Vec<Span>)
        requires
            self.wf(),
        ensures
            r@ == spans_touching(self@, range, self@.len()),
    {
        let mut r: Vec<Span> = Vec::new();
        let mut i: usize = self.partition_point(range.start);
        proof {
            lemma_ended_by(self@, range.start.0 as int);
            lemma_none_touch(self@, range, 0, i as nat);
        }
        while i < self.spans.len() && range.start.0 < range.end.0 && self.piece(i).start.0
            < range.end.0
            invariant
                self.wf(),
                i <= self@.len(),
                ended_by(self@, range.start.0 as int) <= i,
                r@ == spans_touching(self@, range, i as nat),
            ensures
                r@ == spans_touching(self@, range, i as nat),
                i <= self@.len(),
                i < self@.len() ==> range.start.0 >= range.end.0 || piece(self@, i as int).start.0
                    >= range.end.0,
            decreases self@.len() - i,
        {
            proof {
                lemma_ended_by(self@, range.start.0 as int);
                assert(self@[i as int].0.0 > range.start.0);
            }
            r.push(self.span(i));
            i = i + 1;
        }
        proof {
            assert forall|k: int| i <= k < self@.len() implies !touches(
                #[trigger] piece(self@, k),
                range,
            ) by {
                if k > i && i > 0 {
                    assert(self@[i - 1].0.0 < self@[k - 1].0.0);
                }
            }
            lemma_none_touch(self@, range, i as nat, self@.len());
        }
        r
    }

    /// Puts the pieces of another map in the place of `other_range`. The text of the other map has
    /// the length `other_size`.
    ///
    /// A piece that ends in the range is replaced. One that ends behind it is moved by as much as
    /// the text grows.
    pub fn merge(&mut self, other_range: TextRange, other_size: TextSize, other: &SpanMap)
        requires
            old(self).wf(),
            other.stored_right(),
            other_range.wf(),
            old(self).base_count() + other@.len() <= u32::MAX,
            old(self)@.len() + other@.len() <= usize::MAX,
            forall|i: int|
                0 <= i < old(self)@.len() && (#[trigger] old(self)@[i]).0.0 > other_range.end.0
                    ==> old(self)@[i].0.0 + other_size.0 <= u32::MAX,
            forall|i: int|
                0 <= i < other@.len() ==> (#[trigger] other@[i]).0.0 + other_range.start.0
                    <= u32::MAX,
        ensures
            final(self).stored_right(),
            final(self)@ == merged(old(self)@, other_range, other_size, other@),
            final(self).matched_arm is None,
            final(self).base_count() <= old(self).base_count() + other@.len(),
    {
        let ghost v = self@;
        let ghost before = *self;
        let replace_start: usize = self.partition_point(other_range.start);
        let replace_end: usize = self.partition_point(other_range.end);
        proof {
            lemma_ended_by(v, other_range.start.0 as int);
            lemma_ended_by(v, other_range.end.0 as int);
            if replace_end < replace_start {
                assert(v[replace_end as int].0.0 > other_range.end.0);
            }
        }
        let shift: u32 = other_range.len().0;
        let mut i: usize = replace_end;
        while i < self.spans.len()
            invariant
                replace_end <= i <= self.spans@.len(),
                shift == other_range.end.0 - other_range.start.0,
                v == before@,
                self.bases == before.bases,
                self.base_indices == before.base_indices,
                self.matched_arm == before.matched_arm,
                self.spans@.len() == before.spans@.len(),
                forall|j: int| replace_end <= j < v.len() ==> (#[trigger] v[j]).0.0 > other_range.end.0,
                forall|i: int|
                    0 <= i < v.len() && (#[trigger] v[i]).0.0 > other_range.end.0
                        ==> v[i].0.0 + other_size.0 <= u32::MAX,
                forall|j: int|
                    0 <= j < self.spans@.len() ==> (#[trigger] self.spans@[j]).range
                        == before.spans@[j].range,
                forall|j: int|
                    0 <= j < replace_end || i <= j < self.spans@.len() ==> (
                    #[trigger] self.spans@[j]).end == before.spans@[j].end,
                forall|j: int|
                    replace_end <= j < i ==> (#[trigger] self.spans@[j]).end.0 == v[j].0.0
                        + other_size.0 - shift,
            decreases self.spans@.len() - i,
        {
            let entry = self.spans[i];
            assert(v[i as int].0 == entry.end);
            let end = TextSize(entry.end.0 + other_size.0 - shift);
            self.spans.set(i, SpanMapEntry { end, range: entry.range });
            i = i + 1;
        }
        let ghost shifted = *self;
        let mut entries: Vec<SpanMapEntry> = Vec::with_capacity(other.spans.len());
        let mut base_indices: Vec<u32> = Vec::with_capacity(other.spans.len());
        let mut k: usize = 0;
        while k < other.spans.len()
            invariant
                k <= other@.len(),
                other.stored_right(),
                self.stored_right(),
                before.stored_right(),
                self.spans == shifted.spans,
                self.base_indices == before.base_indices,
                self.base_count() <= before.base_count() + k,
                before.base_count() + other@.len() <= u32::MAX,
                before.base_count() <= self.base_count(),
                forall|j: int|
                    0 <= j < before.base_count() ==> (#[trigger] small::small(self.bases)[j])
                        == small::small(before.bases)[j],
                entries@.len() == k,
                base_indices@.len() == k,
                forall|i: int|
                    0 <= i < other@.len() ==> (#[trigger] other@[i]).0.0 + other_range.start.0
                        <= u32::MAX,
                forall|j: int|
                    0 <= j < k ==> (#[trigger] entries@[j]).end.0 == other@[j].0.0
                        + other_range.start.0 && entries@[j].range == other@[j].1.range,
                forall|j: int| 0 <= j < k ==> (#[trigger] base_indices@[j]) < self.base_count(),
                forall|j: int|
                    0 <= j < k ==> small::small(self.bases)[(#[trigger] base_indices@[j]) as int]
                        == (SpanMapBase { anchor: other@[j].1.anchor, ctx: other@[j].1.ctx }),
            decreases other@.len() - k,
        {
            let span = other.span(k);
            assert(other@[k as int].0 == other.spans@[k as int].end);
            let ghost items = small::small(self.bases);
            let base: u32 = self.base_of(span);
            proof {
                let after = small::small(self.bases);
                assert forall|j: int| 0 <= j < items.len() implies after[j] == items[j] by {}
            }
            entries.push(
                SpanMapEntry {
                    end: TextSize(other.spans[k].end.0 + other_range.start.0),
                    range: span.range,
                },
            );
            base_indices.push(base);
            k = k + 1;
        }
        let ghost own = before.base_indices@;
        let ghost new_indices = base_indices@;
        let ghost new_entries = entries@;
        bases::splice(&mut self.spans, replace_start, replace_end, entries);
        self.base_indices.replace_range(replace_start, replace_end, base_indices);
        // Which arm matched says nothing of a text that comes from several macros.
        self.matched_arm = None;
        proof {
            let m = merged(v, other_range, other_size, other@);
            let n = other@.len();
            let s = replace_start as int;
            let e = replace_end as int;
            assert(self.base_indices@ == own.take(s) + new_indices + own.skip(e));
            assert(self.spans@ == shifted.spans@.take(s) + new_entries + shifted.spans@.skip(e));
            assert(self@.len() == m.len());
            assert forall|j: int| 0 <= j < self.base_indices@.len() implies (
            #[trigger] self.base_indices@[j]) < self.base_count() by {
                if j < s {
                    assert(self.base_indices@[j] == own[j]);
                } else if j < s + n {
                    assert(self.base_indices@[j] == new_indices[j - s]);
                } else {
                    assert(self.base_indices@[j] == own[j - s - n + e]);
                }
            }
            assert forall|j: int| 0 <= j < m.len() implies #[trigger] self@[j] == m[j] by {
                if j < s {
                    assert(self.base_indices@[j] == own[j]);
                    assert(self.spans@[j] == shifted.spans@[j]);
                    assert(m[j] == v[j]);
                } else if j < s + n {
                    assert(self.base_indices@[j] == new_indices[j - s]);
                    assert(self.spans@[j] == new_entries[j - s]);
                } else {
                    let o = j - s - n + e;
                    assert(self.base_indices@[j] == own[o]);
                    assert(self.spans@[j] == shifted.spans@[o]);
                    assert(shifted.spans@[o].range == before.spans@[o].range);
                }
            }
            assert(self@ =~= m);
        }
    }
}

impl SpanMap {
    /// The piece at an index, if it is there and has a base.
    pub open spec fn spec_entry_at(self, i: int) -> Option<(TextSize, Span)> {
        if 0 <= i < self.spans@.len() && i < self.base_indices@.len() && self.base_indices@[i]
            < small::small(self.bases).len() {
            Some((self.spans@[i].end, self.spec_span(i)))
        } else {
            None
        }
    }

    fn entry_at(&self, i: usize) -> (r: Option<(TextSize, Span)>)
        ensures
            r == self.spec_entry_at(i as int),
    {
        if i < self.spans.len() && i < self.base_indices.len() {
            let base: usize = self.base_indices.get(i);
            if base < self.bases.len() {
                let base = small::small_as_slice(&self.bases)[base];
                let range = self.spans[i].range;
                return Some(
                    (self.spans[i].end, Span { range, anchor: base.anchor, ctx: base.ctx }),
                );
            }
        }
        None
    }

    /// What there is to hash of a map: the number of the pieces, the pieces and the matched arm.
    /// Equal maps have equal parts, however they are stored.
    pub fn hash_parts(&self) -> (r: (usize, Vec<(TextSize, Span)>, Option<u32>))
        requires
            self.stored_right(),
        ensures
            r.0 == self@.len(),
            r.1@ == self@,
            r.2 == self.matched_arm,
    {
        (self.spans.len(), self.iter(), self.matched_arm)
    }
}

impl Clone for SpanMap {
    fn clone(&self) -> (r: SpanMap)
        ensures
            r@ == self@,
            self.wf() ==> r.wf(),
            r.matched_arm == self.matched_arm,
            r.base_count() == self.base_count(),
            r.base_indices is Compact <==> self.base_indices is Compact,
    {
        let r = SpanMap {
            spans: self.spans.clone(),
            base_indices: self.base_indices.clone(),
            bases: self.bases.clone(),
            matched_arm: self.matched_arm,
        };
        assert(r.spans@ =~= self.spans@);
        assert(r@ =~= self@);
        r
    }
}

impl PartialEq for SpanMap {
    fn eq(&self, other: &Self) -> (r: bool) {
        if self.matched_arm != other.matched_arm || self.spans.len() != other.spans.len() {
            return false;
        }
        let mut i: usize = 0;
        while i < self.spans.len()
            invariant
                self.spans@.len() == other.spans@.len(),
                i <= self.spans@.len(),
                self.matched_arm == other.matched_arm,
                forall|j: int|
                    0 <= j < i ==> #[trigger] self.spec_entry_at(j) == other.spec_entry_at(j),
            decreases self.spans@.len() - i,
        {
            let same = match (self.entry_at(i), other.entry_at(i)) {
                (Some(a), Some(b)) => a.0 == b.0 && a.1 == b.1,
                (None, None) => true,
                _ => false,
            };
            if !same {
                assert(self.spec_entry_at(i as int) != other.spec_entry_at(i as int));
                return false;
            }
            i = i + 1;
        }
        true
    }
}

impl vstd::std_specs::cmp::PartialEqSpecImpl for SpanMap {
    open spec fn obeys_eq_spec() -> bool {
        true
    }

    open spec fn eq_spec(&self, other: &Self) -> bool {
        &&& self.matched_arm == other.matched_arm
        &&& self.spans@.len() == other.spans@.len()
        &&& forall|i: int|
            0 <= i < self.spans@.len() ==> #[trigger] self.spec_entry_at(i) == other.spec_entry_at(i)
    }
}

impl Eq for SpanMap {

}

/// Two maps are equal if they have the same pieces and the same matched arm: bases that no piece
/// uses, and the width in which indexes are stored, make no difference.
pub proof fn equality_ignores_storage(a: SpanMap, b: SpanMap)
    requires
        a.stored_right(),
        b.stored_right(),
    ensures
        vstd::std_specs::cmp::PartialEqSpec::eq_spec(&a, &b) <==> a@ == b@ && a.matched_arm
            == b.matched_arm,
{
    if vstd::std_specs::cmp::PartialEqSpec::eq_spec(&a, &b) {
        assert forall|i: int| 0 <= i < a@.len() implies a@[i] == b@[i] by {
            assert(a.spec_entry_at(i) == b.spec_entry_at(i));
        }
        assert(a@ =~= b@);
    }
    if a@ == b@ && a.matched_arm == b.matched_arm {
        assert(a.spans@.len() == a@.len());
        assert forall|i: int| 0 <= i < a.spans@.len() implies #[trigger] a.spec_entry_at(i)
            == b.spec_entry_at(i) by {
            assert(a@[i] == b@[i]);
            assert(a.base_indices@[i] < small::small(a.bases).len());
            assert(b.base_indices@[i] < small::small(b.bases).len());
        }
    }
}

/// A merge leaves the pieces in order, if the other map is in order and its text is as long as it is
/// said to be.
pub proof fn merge_keeps_order(
    v: Seq<(TextSize, Span)>,
    range: TextRange,
    size: TextSize,
    other: Seq<(TextSize, Span)>,
)
    requires
        in_order(v),
        in_order(other),
        range.wf(),
        forall|i: int| 0 <= i < other.len() ==> 0 < (#[trigger] other[i]).0.0 <= size.0,
        range.start.0 + size.0 <= u32::MAX,
        forall|i: int|
            0 <= i < v.len() && (#[trigger] v[i]).0.0 > range.end.0 ==> v[i].0.0 + size.0
                <= u32::MAX,
    ensures
        in_order(merged(v, range, size, other)),
{
    lemma_ended_by(v, range.start.0 as int);
    lemma_ended_by(v, range.end.0 as int);
    let m = merged(v, range, size, other);
    let s = ended_by(v, range.start.0 as int) as int;
    let e = ended_by(v, range.end.0 as int) as int;
    let n = other.len() as int;
    let grown = size.0 - (range.end.0 - range.start.0);
    assert forall|i: int, j: int| 0 <= i < j < m.len() implies (#[trigger] m[i]).0.0 < (
    #[trigger] m[j]).0.0 by {
        if i < s {
            assert(m[i] == v[i]);
            assert(v[i].0.0 <= range.start.0);
        } else if i < s + n {
            assert(m[i].0.0 == other[i - s].0.0 + range.start.0);
        } else {
            let a = i - s - n + e;
            assert(v[a].0.0 > range.end.0);
            assert(m[i].0.0 == v[a].0.0 + grown);
        }
        if j < s {
            assert(m[j] == v[j]);
            assert(v[i].0.0 < v[j].0.0);
        } else if j < s + n {
            assert(m[j].0.0 == other[j - s].0.0 + range.start.0);
            if i >= s {
                assert(other[i - s].0.0 < other[j - s].0.0);
            }
        } else {
            let b = j - s - n + e;
            assert(v[b].0.0 > range.end.0);
            assert(m[j].0.0 == v[b].0.0 + grown);
            if i >= s + n {
                assert(v[i - s - n + e].0.0 < v[b].0.0);
            }
        }
    }
}

proof fn lemma_ended_by_is(v: Seq<(TextSize, Span)>, offset: int, i: int)
    requires
        in_order(v),
        0 <= i < v.len(),
        offset < v[i].0.0,
        i > 0 ==> v[i - 1].0.0 <= offset,
    ensures
        ended_by(v, offset) == i,
{
    lemma_ended_by(v, offset);
    let n = ended_by(v, offset) as int;
    if n > i {
        assert(v[i].0.0 <= offset);
    }
    if n < i {
        assert(v[n].0.0 > offset);
        if n < i - 1 {
            assert(v[n].0.0 < v[i - 1].0.0);
        }
    }
}

proof fn lemma_merge_before(
    v: Seq<(TextSize, Span)>,
    range: TextRange,
    size: TextSize,
    other: Seq<(TextSize, Span)>,
    offset: int,
)
    requires
        in_order(v),
        in_order(other),
        range.wf(),
        forall|i: int| 0 <= i < other.len() ==> 0 < (#[trigger] other[i]).0.0 <= size.0,
        range.start.0 + size.0 <= u32::MAX,
        forall|i: int|
            0 <= i < v.len() && (#[trigger] v[i]).0.0 > range.end.0 ==> v[i].0.0 + size.0
                <= u32::MAX,
        offset >= 0,
    ensures
        ({
            let m = merged(v, range, size, other);
            let i = ended_by(v, offset) as int;
            offset < range.start.0 && i < v.len() && v[i].0.0 <= range.start.0 ==> ended_by(
                m,
                offset,
            ) == i && m[i].1 == v[i].1
        }),
{
    merge_keeps_order(v, range, size, other);
    lemma_ended_by(v, range.start.0 as int);
    lemma_ended_by(v, range.end.0 as int);
    let m = merged(v, range, size, other);
    let s = ended_by(v, range.start.0 as int) as int;
    lemma_ended_by(v, offset);
    let i = ended_by(v, offset) as int;
    if offset < range.start.0 && i < v.len() && v[i].0.0 <= range.start.0 {
        if i >= s {
            assert(v[i].0.0 > range.start.0);
        }
        assert(m[i] == v[i]);
        if i > 0 {
            assert(m[i - 1] == v[i - 1]);
        }
        lemma_ended_by_is(m, offset, i);
    }
}

proof fn lemma_merge_inside(
    v: Seq<(TextSize, Span)>,
    range: TextRange,
    size: TextSize,
    other: Seq<(TextSize, Span)>,
    offset: int,
)
    requires
        in_order(v),
        in_order(other),
        range.wf(),
        forall|i: int| 0 <= i < other.len() ==> 0 < (#[trigger] other[i]).0.0 <= size.0,
        range.start.0 + size.0 <= u32::MAX,
        forall|i: int|
            0 <= i < v.len() && (#[trigger] v[i]).0.0 > range.end.0 ==> v[i].0.0 + size.0
                <= u32::MAX,
        offset >= 0,
    ensures
        ({
            let m = merged(v, range, size, other);
            let i = ended_by(other, offset) as int;
            let j = ended_by(m, range.start.0 + offset) as int;
            i < other.len() ==> j < m.len() && m[j].1 == other[i].1
        }),
{
    merge_keeps_order(v, range, size, other);
    lemma_ended_by(v, range.start.0 as int);
    lemma_ended_by(v, range.end.0 as int);
    let m = merged(v, range, size, other);
    let s = ended_by(v, range.start.0 as int) as int;
    let n = other.len() as int;
    lemma_ended_by(other, offset);
    let k = ended_by(other, offset) as int;
    if k < n {
        let j = s + k;
        assert(m[j].0.0 == other[k].0.0 + range.start.0);
        if k > 0 {
            assert(m[j - 1].0.0 == other[k - 1].0.0 + range.start.0);
        } else if s > 0 {
            assert(m[j - 1] == v[s - 1]);
        }
        lemma_ended_by_is(m, range.start.0 + offset, j);
    }
}

proof fn lemma_merge_behind(
    v: Seq<(TextSize, Span)>,
    range: TextRange,
    size: TextSize,
    other: Seq<(TextSize, Span)>,
    offset: int,
)
    requires
        in_order(v),
        in_order(other),
        range.wf(),
        forall|i: int| 0 <= i < other.len() ==> 0 < (#[trigger] other[i]).0.0 <= size.0,
        range.start.0 + size.0 <= u32::MAX,
        forall|i: int|
            0 <= i < v.len() && (#[trigger] v[i]).0.0 > range.end.0 ==> v[i].0.0 + size.0
                <= u32::MAX,
        offset >= 0,
    ensures
        ({
            let m = merged(v, range, size, other);
            let i = ended_by(v, offset) as int;
            let j = ended_by(m, offset + size.0 - (range.end.0 - range.start.0)) as int;
            offset >= range.end.0 && i < v.len() ==> j < m.len() && m[j].1 == v[i].1
        }),
{
    merge_keeps_order(v, range, size, other);
    lemma_ended_by(v, range.start.0 as int);
    lemma_ended_by(v, range.end.0 as int);
    let m = merged(v, range, size, other);
    let s = ended_by(v, range.start.0 as int) as int;
    let n = other.len() as int;
    lemma_ended_by(v, offset);
    let e = ended_by(v, range.end.0 as int) as int;
    let grown = size.0 - (range.end.0 - range.start.0);
    let i = ended_by(v, offset) as int;
    if offset >= range.end.0 && i < v.len() {
        if i < e {
            assert(v[i].0.0 <= range.end.0);
        }
        let j = i - e + s + n;
        assert(v[i].0.0 > range.end.0);
        assert(m[j].0.0 == v[i].0.0 + grown);
        if i > e {
            assert(v[i - 1].0.0 > range.end.0);
            assert(m[j - 1].0.0 == v[i - 1].0.0 + grown);
        } else if n > 0 {
            assert(m[j - 1].0.0 == other[n - 1].0.0 + range.start.0);
        } else if s > 0 {
            assert(m[j - 1] == v[s - 1]);
        }
        lemma_ended_by_is(m, offset + grown, j);
    }
}

/// What a merge does to the spans of the positions. Those before the range keep theirs, if the range
/// starts where a piece does. Those in the range have the spans of the other map. Those behind the
/// range move along with the text.
pub proof fn merge_moves_spans(
    v: Seq<(TextSize, Span)>,
    range: TextRange,
    size: TextSize,
    other: Seq<(TextSize, Span)>,
    offset: int,
)
    requires
        in_order(v),
        in_order(other),
        range.wf(),
        forall|i: int| 0 <= i < other.len() ==> 0 < (#[trigger] other[i]).0.0 <= size.0,
        range.start.0 + size.0 <= u32::MAX,
        forall|i: int|
            0 <= i < v.len() && (#[trigger] v[i]).0.0 > range.end.0 ==> v[i].0.0 + size.0
                <= u32::MAX,
        offset >= 0,
    ensures
        ({
            let m = merged(v, range, size, other);
            let i = ended_by(v, offset) as int;
            offset < range.start.0 && i < v.len() && v[i].0.0 <= range.start.0 ==> ended_by(
                m,
                offset,
            ) == i && m[i].1 == v[i].1
        }),
        ({
            let m = merged(v, range, size, other);
            let i = ended_by(other, offset) as int;
            let j = ended_by(m, range.start.0 + offset) as int;
            i < other.len() ==> j < m.len() && m[j].1 == other[i].1
        }),
        ({
            let m = merged(v, range, size, other);
            let i = ended_by(v, offset) as int;
            let j = ended_by(m, offset + size.0 - (range.end.0 - range.start.0)) as int;
            offset >= range.end.0 && i < v.len() ==> j < m.len() && m[j].1 == v[i].1
        }),
{
    lemma_merge_before(v, range, size, other, offset);
    lemma_merge_inside(v, range, size, other, offset);
    lemma_merge_behind(v, range, size, other, offset);
}

/// Looking a span up both ways: the pieces that a span is found at include every piece that has it.
pub proof fn lookup_goes_both_ways(v: Seq<(TextSize, Span)>, i: int, n: nat)
    requires
        0 <= i < n <= v.len(),
    ensures
        picked(v, |s: Span| s.spec_eq_ignoring_ctx(v[i].1), n).contains(
            (piece(v, i), v[i].1.ctx),
        ),
        v[i].1.range.wf() ==> picked(
            v,
            |s: Span|
                s.anchor == v[i].1.anchor && s.range.spec_contains_range(v[i].1.range),
            n,
        ).contains((piece(v, i), v[i].1.ctx)),
{
    lemma_picked(v, |s: Span| s.spec_eq_ignoring_ctx(v[i].1), i, n);
    lemma_picked(
        v,
        |s: Span| s.anchor == v[i].1.anchor && s.range.spec_contains_range(v[i].1.range),
        i,
        n,
    );
}

proof fn lemma_picked(v: Seq<(TextSize, Span)>, test: spec_fn(Span) -> bool, i: int, n: nat)
    requires
        0 <= i < n <= v.len(),
        test(v[i].1),
    ensures
        picked(v, test, n).contains((piece(v, i), v[i].1.ctx)),
    decreases n,
{
    let all = picked(v, test, n);
    let shorter = picked(v, test, (n - 1) as nat);
    if i == n - 1 {
        assert(all[all.len() - 1] == (piece(v, i), v[i].1.ctx));
    } else {
        lemma_picked(v, test, i, (n - 1) as nat);
        let k = choose|k: int| 0 <= k < shorter.len() && shorter[k] == (piece(v, i), v[i].1.ctx);
        assert(all[k] == shorter[k]);
    }
}

/// Appending a piece does not change the spans of the positions before it, and gives its own
/// positions the new span.
pub proof fn push_extends_lookup(
    v: Seq<(TextSize, Span)>,
    end: TextSize,
    span: Span,
    offset: int,
)
    requires
        in_order(v),
        v.len() > 0 ==> v.last().0.0 < end.0,
        0 <= offset < end.0,
    ensures
        ended_by(v.push((end, span)), offset) == ended_by(v, offset),
        ({
            let i = ended_by(v, offset) as int;
            v.push((end, span))[i].1 == if i < v.len() {
                v[i].1
            } else {
                span
            }
        }),
{
    assert(v.push((end, span)).drop_last() =~= v);
    lemma_ended_by(v, offset);
}

} // verus!
