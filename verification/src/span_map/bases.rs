//! Storage for the parts that many spans share.

use crate::small::Small;
use crate::span::{SpanAnchor, SyntaxContext};
use crate::storage;
use vstd::prelude::*;

verus! {

/// The part of a span that it mostly shares with its neighbours.
#[derive(Clone, Copy, PartialEq, Eq, Structural, Debug, Hash)]
pub struct SpanMapBase {
    pub anchor: SpanAnchor,
    pub ctx: SyntaxContext,
}

/// The bases of the spans of a map. Mostly there are one or two.
pub type SpanMapBases = Small<SpanMapBase, 2>;

/// The indexes of the bases of the spans, in one byte each as long as that is enough.
pub enum SpanMapBaseIndices {
    Compact(Vec<u8>),
    Wide(Vec<u32>),
}

impl Clone for SpanMapBaseIndices {
    fn clone(&self) -> (r: SpanMapBaseIndices)
        ensures
            r@ == self@,
            r is Compact <==> *self is Compact,
    {
        let r = match self {
            SpanMapBaseIndices::Compact(indices) => SpanMapBaseIndices::Compact(indices.clone()),
            SpanMapBaseIndices::Wide(indices) => SpanMapBaseIndices::Wide(indices.clone()),
        };
        assert(r@ =~= self@);
        r
    }
}

pub open spec fn widened(v: Seq<u8>) -> Seq<u32> {
    Seq::new(v.len(), |i: int| v[i] as u32)
}

impl View for SpanMapBaseIndices {
    type V = Seq<u32>;

    open spec fn view(&self) -> Seq<u32> {
        match self {
            SpanMapBaseIndices::Compact(v) => widened(v@),
            SpanMapBaseIndices::Wide(v) => v@,
        }
    }
}

fn widen(indices: &Vec<u8>) -> (r: Vec<u32>)
    ensures
        r@ == widened(indices@),
{
    let mut wide: Vec<u32> = Vec::with_capacity(indices.len());
    let mut i: usize = 0;
    while i < indices.len()
        invariant
            i <= indices@.len(),
            wide@ == widened(indices@).take(i as int),
        decreases indices@.len() - i,
    {
        wide.push(indices[i] as u32);
        i = i + 1;
        assert(wide@ =~= widened(indices@).take(i as int));
    }
    assert(widened(indices@).take(indices@.len() as int) =~= widened(indices@));
    wide
}

/// Whether all indexes fit in a byte.
pub open spec fn all_narrow(v: Seq<u32>) -> bool {
    forall|i: int| 0 <= i < v.len() ==> #[trigger] v[i] <= u8::MAX
}

/// Replaces the items from `start` up to `end`.
pub(crate) fn splice<T>(v: &mut Vec<T>, start: usize, end: usize, replacement: Vec<T>)
    requires
        start <= end <= old(v)@.len(),
        start + replacement@.len() + (old(v)@.len() - end) <= usize::MAX,
    ensures
        final(v)@ == old(v)@.take(start as int) + replacement@ + old(v)@.skip(end as int),
{
    let ghost before = v@;
    let mut tail = v.split_off(end);
    v.truncate(start);
    let mut replacement = replacement;
    v.append(&mut replacement);
    v.append(&mut tail);
    assert(before.take(end as int).take(start as int) =~= before.take(start as int));
}

impl SpanMapBaseIndices {
    pub fn new() -> (r: SpanMapBaseIndices)
        ensures
            r@ == Seq::<u32>::empty(),
            r is Compact,
    {
        let r = SpanMapBaseIndices::Compact(Vec::new());
        assert(r@ =~= Seq::<u32>::empty());
        r
    }

    pub fn get(&self, index: usize) -> (r: usize)
        requires
            index < self@.len(),
        ensures
            r == self@[index as int],
    {
        match self {
            SpanMapBaseIndices::Compact(indices) => indices[index] as usize,
            SpanMapBaseIndices::Wide(indices) => indices[index] as usize,
        }
    }

    pub fn len(&self) -> (r: usize)
        ensures
            r == self@.len(),
    {
        match self {
            SpanMapBaseIndices::Compact(indices) => indices.len(),
            SpanMapBaseIndices::Wide(indices) => indices.len(),
        }
    }

    /// Appends an index. The first that does not fit in a byte makes the storage wide.
    pub fn push(&mut self, index: u32)
        ensures
            final(self)@ == old(self)@.push(index),
            (*final(self)) is Compact <==> (*old(self)) is Compact && index <= u8::MAX,
    {
        let ghost before = self@;
        let mut wide: Option<Vec<u32>> = None;
        match self {
            SpanMapBaseIndices::Compact(indices) => {
                if index <= u8::MAX as u32 {
                    indices.push(index as u8);
                } else {
                    let mut w = widen(indices);
                    w.push(index);
                    wide = Some(w);
                }
            },
            SpanMapBaseIndices::Wide(indices) => {
                indices.push(index);
            },
        }
        if let Some(w) = wide {
            *self = SpanMapBaseIndices::Wide(w);
        }
        assert(self@ =~= before.push(index));
    }

    /// Replaces the indexes from `start` up to `end`.
    pub fn replace_range(&mut self, start: usize, end: usize, replacement: Vec<u32>)
        requires
            start <= end <= old(self)@.len(),
            start + replacement@.len() + (old(self)@.len() - end) <= usize::MAX,
        ensures
            final(self)@ == old(self)@.take(start as int) + replacement@ + old(self)@.skip(
                end as int,
            ),
            (*final(self)) is Compact <==> (*old(self)) is Compact && all_narrow(replacement@),
    {
        let ghost before = self@;
        let mut needs_wide = false;
        let mut narrow: Vec<u8> = Vec::new();
        let mut i: usize = 0;
        while i < replacement.len()
            invariant
                i <= replacement@.len(),
                needs_wide <==> !all_narrow(replacement@.take(i as int)),
                !needs_wide ==> widened(narrow@) == replacement@.take(i as int),
            decreases replacement@.len() - i,
        {
            let ghost shorter = replacement@.take(i as int);
            assert(replacement@.take(i + 1) =~= shorter.push(replacement@[i as int]));
            let index: u32 = replacement[i];
            if index > u8::MAX as u32 {
                needs_wide = true;
                assert(replacement@.take(i + 1)[i as int] > u8::MAX);
            } else if !needs_wide {
                narrow.push(index as u8);
                assert(widened(narrow@) =~= replacement@.take(i + 1));
            }
            proof {
                if !all_narrow(shorter) {
                    let k = choose|k: int| 0 <= k < shorter.len() && #[trigger] shorter[k] > u8::MAX;
                    assert(replacement@.take(i + 1)[k] > u8::MAX);
                }
            }
            i = i + 1;
        }
        assert(replacement@.take(replacement@.len() as int) =~= replacement@);
        if needs_wide {
            let mut wide: Option<Vec<u32>> = None;
            match self {
                SpanMapBaseIndices::Compact(indices) => {
                    wide = Some(widen(indices));
                },
                SpanMapBaseIndices::Wide(_) => {},
            }
            if let Some(w) = wide {
                *self = SpanMapBaseIndices::Wide(w);
            }
        }
        match self {
            SpanMapBaseIndices::Compact(indices) => {
                splice(indices, start, end, narrow);
            },
            SpanMapBaseIndices::Wide(indices) => {
                splice(indices, start, end, replacement);
            },
        }
        assert(self@ =~= before.take(start as int) + replacement@ + before.skip(end as int));
    }

    /// Gives memory back and keeps the indexes.
    pub fn shrink_to_fit(&mut self)
        ensures
            final(self)@ == old(self)@,
            (*final(self)) is Compact <==> (*old(self)) is Compact,
    {
        match self {
            SpanMapBaseIndices::Compact(indices) => storage::vec_shrink_to_fit(indices),
            SpanMapBaseIndices::Wide(indices) => storage::vec_shrink_to_fit(indices),
        }
    }
}

} // verus!
