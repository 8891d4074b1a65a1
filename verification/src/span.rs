//! Spans: ranges relative to a stable node, with the context they were made in.

use crate::ast_id::erased::ErasedFileAstId;
use crate::text::TextRange;
use vstd::prelude::*;

verus! {

/// An edition of the language.
#[derive(Clone, Copy, PartialEq, Eq, Structural, Debug, Hash, PartialOrd, Ord)]
pub enum Edition {
    Edition2015,
    Edition2018,
    Edition2021,
    Edition2024,
}

impl Edition {
    /// The latest stable edition.
    pub const CURRENT: Edition = Edition::Edition2024;

    pub open spec fn spec_number(self) -> u32 {
        match self {
            Edition::Edition2015 => 0,
            Edition::Edition2018 => 1,
            Edition::Edition2021 => 2,
            Edition::Edition2024 => 3,
        }
    }

    pub fn number(self) -> (r: u32)
        ensures
            r == self.spec_number(),
    {
        match self {
            Edition::Edition2015 => 0,
            Edition::Edition2018 => 1,
            Edition::Edition2021 => 2,
            Edition::Edition2024 => 3,
        }
    }

    pub fn at_least_2021(self) -> (r: bool)
        ensures
            r == (self.spec_number() >= 2),
    {
        self.number() >= 2
    }

    pub fn at_least_2024(self) -> (r: bool)
        ensures
            r == (self.spec_number() >= 3),
    {
        self.number() >= 3
    }
}

/// A file.
#[derive(Clone, Copy, PartialEq, Eq, Structural, Debug, Hash, PartialOrd, Ord)]
pub struct FileId(pub u32);

impl FileId {
    pub fn from_raw(raw: u32) -> (r: FileId)
        ensures
            r == FileId(raw),
    {
        FileId(raw)
    }

    pub fn index(self) -> (r: u32)
        ensures
            r == self.0,
    {
        self.0
    }
}

/// A file with the edition that it is read in.
#[derive(Clone, Copy, PartialEq, Eq, Structural, Debug, Hash)]
pub struct EditionedFileId {
    pub file_id: FileId,
    pub edition: Edition,
}

impl EditionedFileId {
    pub fn new(file_id: FileId, edition: Edition) -> (r: EditionedFileId)
        ensures
            r == (EditionedFileId { file_id, edition }),
    {
        EditionedFileId { file_id, edition }
    }

    pub fn current_edition(file_id: FileId) -> (r: EditionedFileId)
        ensures
            r == (EditionedFileId { file_id, edition: Edition::CURRENT }),
    {
        EditionedFileId { file_id, edition: Edition::CURRENT }
    }

    pub fn unpack(self) -> (r: (FileId, Edition))
        ensures
            r == (self.file_id, self.edition),
    {
        (self.file_id, self.edition)
    }

    pub fn file_id(self) -> (r: FileId)
        ensures
            r == self.file_id,
    {
        self.file_id
    }

    pub fn edition(self) -> (r: Edition)
        ensures
            r == self.edition,
    {
        self.edition
    }
}

/// The macro context that a piece of text was made in. The contexts outside of all macros come last,
/// one for each edition.
#[derive(Clone, Copy, PartialEq, Eq, Structural, Debug, Hash)]
pub struct SyntaxContext(pub u32);

impl SyntaxContext {
    pub open spec fn spec_root(edition: Edition) -> SyntaxContext {
        SyntaxContext((u32::MAX - edition.spec_number()) as u32)
    }

    /// The context outside of all macros.
    pub fn root(edition: Edition) -> (r: SyntaxContext)
        ensures
            r == SyntaxContext::spec_root(edition),
    {
        SyntaxContext(u32::MAX - edition.number())
    }

    pub fn is_root(self) -> (r: bool)
        ensures
            r == (exists|edition: Edition| self == #[trigger] SyntaxContext::spec_root(edition)),
    {
        proof {
            assert(SyntaxContext::spec_root(Edition::Edition2015).0 == u32::MAX);
            assert(SyntaxContext::spec_root(Edition::Edition2018).0 == u32::MAX - 1);
            assert(SyntaxContext::spec_root(Edition::Edition2021).0 == u32::MAX - 2);
            assert(SyntaxContext::spec_root(Edition::Edition2024).0 == u32::MAX - 3);
        }
        self.0 >= u32::MAX - 3
    }
}

/// The node that a span is relative to.
#[derive(Clone, Copy, PartialEq, Eq, Structural, Debug, Hash)]
pub struct SpanAnchor {
    pub file_id: EditionedFileId,
    pub ast_id: ErasedFileAstId,
}

/// A range of text, relative to its anchor.
#[derive(Clone, Copy, PartialEq, Eq, Structural, Debug, Hash)]
pub struct Span {
    pub range: TextRange,
    pub anchor: SpanAnchor,
    pub ctx: SyntaxContext,
}

impl Span {
    pub open spec fn spec_eq_ignoring_ctx(self, other: Span) -> bool {
        self.anchor == other.anchor && self.range == other.range
    }

    /// Whether two spans are the same text, whatever contexts they come from.
    pub fn eq_ignoring_ctx(self, other: Span) -> (r: bool)
        ensures
            r == self.spec_eq_ignoring_ctx(other),
    {
        self.anchor == other.anchor && self.range == other.range
    }
}

} // verus!
