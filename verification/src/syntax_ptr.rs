//! Pointers to syntax nodes that stay valid after the tree is gone.

use crate::syntax_kind::SyntaxKind;
use crate::text::TextRange;
use vstd::prelude::*;

verus! {

/// The kind and the range of a node: enough to find it again in an equal tree.
#[derive(Clone, Copy, PartialEq, Eq, Structural, Debug, Hash)]
pub struct SyntaxNodePtr {
    pub kind: SyntaxKind,
    pub range: TextRange,
}

impl SyntaxNodePtr {
    pub fn from_kind_and_range(kind: SyntaxKind, range: TextRange) -> (r: SyntaxNodePtr)
        ensures
            r == (SyntaxNodePtr { kind, range }),
    {
        SyntaxNodePtr { kind, range }
    }

    pub fn kind(self) -> (r: SyntaxKind)
        ensures
            r == self.kind,
    {
        self.kind
    }

    pub fn text_range(self) -> (r: TextRange)
        ensures
            r == self.range,
    {
        self.range
    }
}

} // verus!
