//! The span maps of files and of macro expansions.

use crate::anchors::{ExpansionSpanMap, SpanMap};
use crate::editioned_file_id::EditionedFileId;
use crate::ids::MacroCallId;
use crate::real_span_map::RealSpanMap;
use vstd::prelude::*;

verus! {

/// A file: one with a text of its own, or the expansion of a macro call.
#[derive(Clone, Copy, PartialEq, Eq, Structural, Debug, Hash)]
pub enum HirFileId {
    FileId(EditionedFileId),
    MacroFile(MacroCallId),
}

/// The span maps that were computed.
pub struct SpanMaps {
    pub files: Vec<(EditionedFileId, RealSpanMap)>,
    pub expansions: Vec<(MacroCallId, ExpansionSpanMap)>,
}

impl SpanMaps {
    /// The place of the map of a file, at `i` or behind.
    pub open spec fn file_from(self, file: EditionedFileId, i: nat) -> Option<nat>
        decreases self.files@.len() - i,
    {
        if i >= self.files@.len() {
            None
        } else if self.files@[i as int].0 == file {
            Some(i)
        } else {
            self.file_from(file, i + 1)
        }
    }

    /// The place of the map of an expansion, at `i` or behind.
    pub open spec fn expansion_from(self, call: MacroCallId, i: nat) -> Option<nat>
        decreases self.expansions@.len() - i,
    {
        if i >= self.expansions@.len() {
            None
        } else if self.expansions@[i as int].0 == call {
            Some(i)
        } else {
            self.expansion_from(call, i + 1)
        }
    }

    /// The map of a file with a text of its own.
    pub fn real_span_map(&self, file: EditionedFileId) -> (r: &RealSpanMap)
        requires
            self.file_from(file, 0) is Some,
        ensures
            *r == self.files@[self.file_from(file, 0)->0 as int].1,
    {
        let mut i: usize = 0;
        while i < self.files.len()
            invariant
                i <= self.files@.len(),
                self.file_from(file, 0) == self.file_from(file, i as nat),
                self.file_from(file, 0) is Some,
            decreases self.files@.len() - i,
        {
            if self.files[i].0 == file {
                return &self.files[i].1;
            }
            i = i + 1;
        }
        vstd::pervasive::unreached()
    }
}

impl MacroCallId {
    /// The span map of the expansion of a call.
    pub fn expansion_span_map(self, maps: &SpanMaps) -> (r: &ExpansionSpanMap)
        requires
            maps.expansion_from(self, 0) is Some,
        ensures
            *r == maps.expansions@[maps.expansion_from(self, 0)->0 as int].1,
    {
        let mut i: usize = 0;
        while i < maps.expansions.len()
            invariant
                i <= maps.expansions@.len(),
                maps.expansion_from(self, 0) == maps.expansion_from(self, i as nat),
                maps.expansion_from(self, 0) is Some,
            decreases maps.expansions@.len() - i,
        {
            if maps.expansions[i].0 == self {
                return &maps.expansions[i].1;
            }
            i = i + 1;
        }
        vstd::pervasive::unreached()
    }
}

impl HirFileId {
    /// Whether the span map of the file was computed.
    pub open spec fn has_span_map(self, maps: SpanMaps) -> bool {
        match self {
            HirFileId::FileId(file) => maps.file_from(file, 0) is Some,
            HirFileId::MacroFile(call) => maps.expansion_from(call, 0) is Some,
        }
    }

    /// The span map of a file.
    pub fn span_map<'db>(self, maps: &'db SpanMaps) -> (r: SpanMap<'db>)
        requires
            self.has_span_map(*maps),
        ensures
            r == (match self {
                HirFileId::FileId(file) => SpanMap::RealSpanMap(
                    &maps.files@[maps.file_from(file, 0)->0 as int].1,
                ),
                HirFileId::MacroFile(call) => SpanMap::ExpansionSpanMap(
                    &maps.expansions@[maps.expansion_from(call, 0)->0 as int].1,
                ),
            }),
    {
        match self {
            HirFileId::FileId(file) => SpanMap::RealSpanMap(maps.real_span_map(file)),
            HirFileId::MacroFile(call) => SpanMap::ExpansionSpanMap(call.expansion_span_map(maps)),
        }
    }
}

} // verus!
