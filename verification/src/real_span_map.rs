//! Spans of the text of a file: ranges relative to the nearest stable node.

use crate::ast_id::erased;
use crate::ast_id::erased::ErasedFileAstId;
use crate::span::{Edition, EditionedFileId, Span, SpanAnchor, SyntaxContext};
use crate::text;
use crate::text::{TextRange, TextSize};
use vstd::prelude::*;
use vstd::string::StringExecFns;

verus! {

/// Maps the ranges of a file to spans.
#[derive(PartialEq, Eq, Hash, Debug)]
pub struct RealSpanMap {
    pub file_id: EditionedFileId,
    /// Where the anchors start, in order.
    pub pairs: Vec<(TextSize, ErasedFileAstId)>,
    pub end: TextSize,
}

/// No anchor starts before the one in front of it.
pub open spec fn sorted(pairs: Seq<(TextSize, ErasedFileAstId)>) -> bool {
    forall|i: int, j: int|
        0 <= i < j < pairs.len() ==> (#[trigger] pairs[i]).0.0 <= (#[trigger] pairs[j]).0.0
}

/// The last anchor that starts at or before the offset.
pub open spec fn anchor_at(pairs: Seq<(TextSize, ErasedFileAstId)>, offset: u32) -> int
    decreases pairs.len(),
{
    if pairs.len() == 0 {
        -1
    } else if pairs.last().0.0 <= offset {
        pairs.len() - 1
    } else {
        anchor_at(pairs.drop_last(), offset)
    }
}

pub(crate) proof fn lemma_anchor_at(pairs: Seq<(TextSize, ErasedFileAstId)>, offset: u32, i: int)
    requires
        sorted(pairs),
        0 <= i <= pairs.len(),
        forall|j: int| i <= j < pairs.len() ==> (#[trigger] pairs[j]).0.0 > offset,
        i > 0 ==> pairs[i - 1].0.0 <= offset,
    ensures
        anchor_at(pairs, offset) == i - 1,
    decreases pairs.len(),
{
    if pairs.len() > 0 {
        let shorter = pairs.drop_last();
        if i < pairs.len() {
            assert(pairs[pairs.len() - 1].0.0 > offset);
            assert forall|j: int| i <= j < shorter.len() implies (#[trigger] shorter[j]).0.0
                > offset by {
                assert(pairs[j].0.0 > offset);
            }
            assert forall|a: int, b: int| 0 <= a < b < shorter.len() implies (
            #[trigger] shorter[a]).0.0 <= (#[trigger] shorter[b]).0.0 by {
                assert(pairs[a].0.0 <= pairs[b].0.0);
            }
            lemma_anchor_at(shorter, offset, i);
        }
    }
}

pub open spec fn edition_name(edition: Edition) -> Seq<char> {
    match edition {
        Edition::Edition2015 => "Edition2015"@,
        Edition::Edition2018 => "Edition2018"@,
        Edition::Edition2021 => "Edition2021"@,
        Edition::Edition2024 => "Edition2024"@,
    }
}

fn edition_str(edition: Edition) -> (r: &'static str)
    ensures
        r@ == edition_name(edition),
{
    match edition {
        Edition::Edition2015 => "Edition2015",
        Edition::Edition2018 => "Edition2018",
        Edition::Edition2021 => "Edition2021",
        Edition::Edition2024 => "Edition2024",
    }
}

/// The lines that print the first `n` anchors.
pub open spec fn anchor_lines(pairs: Seq<(TextSize, ErasedFileAstId)>, n: nat) -> Seq<char>
    decreases n,
{
    if n == 0 {
        Seq::empty()
    } else {
        anchor_lines(pairs, (n - 1) as nat) + text::decimal(pairs[n - 1].0.0 as nat) + ": "@
            + pairs[n - 1].1.spec_fmt(true) + "\n"@
    }
}

impl RealSpanMap {
    /// The anchors are in order, and every position has one.
    pub open spec fn wf(self) -> bool {
        &&& sorted(self.pairs@)
        &&& self.pairs@.len() > 0
        &&& self.pairs@[0].0.0 == 0
    }

    /// The map in which all ranges are relative to the whole file.
    pub fn absolute(file_id: EditionedFileId) -> (r: RealSpanMap)
        ensures
            r.wf(),
            r.file_id == file_id,
            r.pairs@ == seq![(TextSize(0), erased::spec_root())],
            r.end.0 == u32::MAX,
    {
        let mut pairs: Vec<(TextSize, ErasedFileAstId)> = Vec::new();
        pairs.push((TextSize(0), erased::ROOT_ERASED_FILE_AST_ID()));
        assert(pairs@ =~= seq![(TextSize(0), erased::spec_root())]);
        RealSpanMap { file_id, pairs, end: TextSize(u32::MAX) }
    }

    /// The map of a file with the given anchors, whose text ends at `end`.
    pub fn from_file(
        file_id: EditionedFileId,
        pairs: Vec<(TextSize, ErasedFileAstId)>,
        end: TextSize,
    ) -> (r: RealSpanMap)
        ensures
            r == (RealSpanMap { file_id, pairs, end }),
    {
        RealSpanMap { file_id, pairs, end }
    }

    /// The span of a range: relative to the last anchor that does not start behind it.
    pub open spec fn spec_span_for_range(self, range: TextRange) -> Span {
        let (offset, ast_id) = self.pairs@[anchor_at(self.pairs@, range.start.0)];
        Span {
            range: TextRange {
                start: TextSize((range.start.0 - offset.0) as u32),
                end: TextSize((range.end.0 - offset.0) as u32),
            },
            anchor: SpanAnchor { file_id: self.file_id, ast_id },
            ctx: SyntaxContext::spec_root(self.file_id.edition),
        }
    }

    pub fn span_for_range(&self, range: TextRange) -> (r: Span)
        requires
            sorted(self.pairs@),
            self.pairs@.len() > 0,
            range.wf(),
            self.pairs@[0].0.0 <= range.start.0,
            range.end.0 <= self.end.0,
        ensures
            r == self.spec_span_for_range(range),
            0 <= anchor_at(self.pairs@, range.start.0) < self.pairs@.len(),
            self.pairs@[anchor_at(self.pairs@, range.start.0)].0.0 <= range.start.0,
    {
        let mut lo: usize = 0;
        let mut hi: usize = self.pairs.len();
        while lo < hi
            invariant
                lo <= hi <= self.pairs@.len(),
                sorted(self.pairs@),
                forall|i: int| 0 <= i < lo ==> (#[trigger] self.pairs@[i]).0.0 <= range.start.0,
                forall|i: int|
                    hi <= i < self.pairs@.len() ==> (#[trigger] self.pairs@[i]).0.0 > range.start.0,
            decreases hi - lo,
        {
            let mid: usize = lo + (hi - lo) / 2;
            if self.pairs[mid].0.0 <= range.start.0 {
                lo = mid + 1;
            } else {
                hi = mid;
            }
        }
        proof {
            if lo == 0 {
                assert(self.pairs@[0].0.0 > range.start.0);
            }
            lemma_anchor_at(self.pairs@, range.start.0, lo as int);
        }
        let (offset, ast_id) = self.pairs[lo - 1];
        Span {
            range: TextRange {
                start: TextSize(range.start.0 - offset.0),
                end: TextSize(range.end.0 - offset.0),
            },
            anchor: SpanAnchor { file_id: self.file_id, ast_id },
            ctx: SyntaxContext::root(self.file_id.edition()),
        }
    }

    pub open spec fn spec_to_text(self) -> Seq<char> {
        "RealSpanMap(EditionedFileId(FileId("@ + text::decimal(self.file_id.file_id.0 as nat)
            + "), "@ + edition_name(self.file_id.edition) + ")):\n"@ + anchor_lines(
            self.pairs@,
            self.pairs@.len(),
        )
    }

    /// Prints the map, with a line for each anchor.
    pub fn to_text(&self) -> (r: String)
        ensures
            r@ == self.spec_to_text(),
    {
        let mut buf = "RealSpanMap(EditionedFileId(FileId(".to_owned();
        text::push_decimal(&mut buf, self.file_id.file_id.0);
        buf.append("), ");
        buf.append(edition_str(self.file_id.edition));
        buf.append(")):\n");
        let ghost head = buf@;
        let mut i: usize = 0;
        assert(buf@ =~= head + anchor_lines(self.pairs@, 0));
        while i < self.pairs.len()
            invariant
                i <= self.pairs@.len(),
                buf@ == head + anchor_lines(self.pairs@, i as nat),
            decreases self.pairs@.len() - i,
        {
            let pair = self.pairs[i];
            text::push_decimal(&mut buf, pair.0.0);
            buf.append(": ");
            let id = pair.1.fmt(true);
            buf.append(id.as_str());
            buf.append("\n");
            i = i + 1;
            assert(buf@ =~= head + anchor_lines(self.pairs@, i as nat));
        }
        buf
    }
}

/// A span leads back to the range it was made for: adding the start of its anchor gives the range.
pub proof fn spans_lead_back(map: RealSpanMap, range: TextRange)
    requires
        map.wf(),
        range.wf(),
    ensures
        ({
            let offset = map.pairs@[anchor_at(map.pairs@, range.start.0)].0.0;
            let span = map.spec_span_for_range(range);
            &&& span.range.start.0 + offset == range.start.0
            &&& span.range.end.0 + offset == range.end.0
        }),
{
    lemma_anchor_before(map.pairs@, range.start.0);
}

proof fn lemma_anchor_before(pairs: Seq<(TextSize, ErasedFileAstId)>, offset: u32)
    requires
        pairs.len() > 0,
        pairs[0].0.0 <= offset,
    ensures
        0 <= anchor_at(pairs, offset) < pairs.len(),
        pairs[anchor_at(pairs, offset)].0.0 <= offset,
    decreases pairs.len(),
{
    if pairs.last().0.0 > offset {
        lemma_anchor_before(pairs.drop_last(), offset);
    }
}

/// In an absolute map the span of a range has that very range.
pub proof fn absolute_spans_are_ranges(map: RealSpanMap, range: TextRange)
    requires
        map.pairs@ == seq![(TextSize(0), erased::spec_root())],
        range.wf(),
    ensures
        map.spec_span_for_range(range) == (Span {
            range,
            anchor: SpanAnchor { file_id: map.file_id, ast_id: erased::spec_root() },
            ctx: SyntaxContext::spec_root(map.file_id.edition),
        }),
{
    lemma_anchor_before(map.pairs@, range.start.0);
}

} // verus!
