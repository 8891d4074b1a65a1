//! Files together with the edition that they are read in.

use crate::span;
use crate::span::{Edition, FileId};
use crate::syntax_node::{Parse, SyntaxError};
use vstd::prelude::*;

verus! {

/// A file with its edition, as queries take it.
#[derive(Clone, Copy, PartialEq, Eq, Structural, Debug, Hash)]
pub struct EditionedFileId {
    pub field: span::EditionedFileId,
}

/// The files that were parsed.
pub struct Parses {
    pub files: Vec<(EditionedFileId, Parse)>,
}

impl Parses {
    /// The place of a file, at `i` or behind.
    pub open spec fn file_from(self, file: EditionedFileId, i: nat) -> Option<nat>
        decreases self.files@.len() - i,
    {
        if i >= self.files@.len() {
            None
        } else if self.files@[i as int].0 == file {
            Some(i)
        } else {
            self.file_from(file, i + 1)
        }
    }
}

impl EditionedFileId {
    pub fn from_span_file_id(field: span::EditionedFileId) -> (r: EditionedFileId)
        ensures
            r.field == field,
    {
        EditionedFileId { field }
    }

    pub fn new(file_id: FileId, edition: Edition) -> (r: EditionedFileId)
        ensures
            r.field == (span::EditionedFileId { file_id, edition }),
    {
        EditionedFileId::from_span_file_id(span::EditionedFileId::new(file_id, edition))
    }

    pub fn current_edition(file_id: FileId) -> (r: EditionedFileId)
        ensures
            r.field == (span::EditionedFileId { file_id, edition: Edition::CURRENT }),
    {
        EditionedFileId::from_span_file_id(span::EditionedFileId::current_edition(file_id))
    }

    pub fn file_id(self) -> (r: FileId)
        ensures
            r == self.field.file_id,
    {
        self.field.file_id()
    }

    pub fn span_file_id(self) -> (r: span::EditionedFileId)
        ensures
            r == self.field,
    {
        self.field
    }

    pub fn unpack(self) -> (r: (FileId, Edition))
        ensures
            r == (self.field.file_id, self.field.edition),
    {
        self.field.unpack()
    }

    pub fn edition(self) -> (r: Edition)
        ensures
            r == self.field.edition,
    {
        self.field.edition()
    }

    /// The tree of the file, with what is wrong with its text.
    pub fn parse(self, parses: &Parses) -> (r: &Parse)
        requires
            parses.file_from(self, 0) is Some,
        ensures
            *r == parses.files@[parses.file_from(self, 0)->0 as int].1,
    {
        let mut i: usize = 0;
        while i < parses.files.len()
            invariant
                i <= parses.files@.len(),
                parses.file_from(self, 0) == parses.file_from(self, i as nat),
                parses.file_from(self, 0) is Some,
            decreases parses.files@.len() - i,
        {
            if parses.files[i].0 == self {
                return &parses.files[i].1;
            }
            i = i + 1;
        }
        vstd::pervasive::unreached()
    }

    /// What is wrong with the text of the file, if anything is.
    pub fn parse_errors(self, parses: &Parses) -> (r: Option<&[SyntaxError]>)
        requires
            parses.file_from(self, 0) is Some,
        ensures
            ({
                let errors = parses.files@[parses.file_from(self, 0)->0 as int].1.errors@;
                match r {
                    Some(e) => errors.len() > 0 && e@ == errors,
                    None => errors.len() == 0,
                }
            }),
    {
        let parse = self.parse(parses);
        if parse.errors.len() == 0 {
            None
        } else {
            Some(parse.errors.as_slice())
        }
    }
}

} // verus!
