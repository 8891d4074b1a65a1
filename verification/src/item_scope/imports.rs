//! Where a name in a scope comes from, and how that is stored.

use crate::ids::{ExternCrateId, Id, ModuleDefId, UseId, UseTreeIdx, Visibility};
use crate::thin;
use thin_vec::ThinVec;
use vstd::prelude::*;
use vstd::std_specs::convert::FromSpecImpl;

verus! {

/// A name in a use item.
#[derive(Clone, Copy, PartialEq, Eq, Structural, Debug, Hash, PartialOrd, Ord)]
pub struct ImportId {
    pub use_: UseId,
    pub idx: UseTreeIdx,
}

/// A star in a use item.
#[derive(Clone, Copy, PartialEq, Eq, Structural, Debug, Hash, PartialOrd, Ord)]
pub struct GlobId {
    pub use_: UseId,
    pub idx: UseTreeIdx,
}

#[derive(Clone, Copy, PartialEq, Eq, Structural, Debug, Hash)]
pub enum ImportOrExternCrate {
    Glob(GlobId),
    Import(ImportId),
    ExternCrate(ExternCrateId),
}

#[derive(Clone, Copy, PartialEq, Eq, Structural, Debug, Hash)]
pub enum ImportOrGlob {
    Glob(GlobId),
    Import(ImportId),
}

/// What an import leads to: another import, or a definition.
#[derive(Clone, Copy, PartialEq, Eq, Structural, Debug, Hash)]
pub enum ImportOrDef {
    Import(ImportId),
    Glob(GlobId),
    ExternCrate(ExternCrateId),
    Def(ModuleDefId),
}

impl From<ImportOrGlob> for ImportOrExternCrate {
    fn from(import: ImportOrGlob) -> (r: ImportOrExternCrate) {
        match import {
            ImportOrGlob::Glob(it) => ImportOrExternCrate::Glob(it),
            ImportOrGlob::Import(it) => ImportOrExternCrate::Import(it),
        }
    }
}

impl FromSpecImpl<ImportOrGlob> for ImportOrExternCrate {
    open spec fn obeys_from_spec() -> bool {
        true
    }

    open spec fn from_spec(import: ImportOrGlob) -> ImportOrExternCrate {
        match import {
            ImportOrGlob::Glob(it) => ImportOrExternCrate::Glob(it),
            ImportOrGlob::Import(it) => ImportOrExternCrate::Import(it),
        }
    }
}

impl From<ImportOrExternCrate> for ImportOrDef {
    fn from(import: ImportOrExternCrate) -> (r: ImportOrDef) {
        match import {
            ImportOrExternCrate::Glob(it) => ImportOrDef::Glob(it),
            ImportOrExternCrate::Import(it) => ImportOrDef::Import(it),
            ImportOrExternCrate::ExternCrate(it) => ImportOrDef::ExternCrate(it),
        }
    }
}

impl FromSpecImpl<ImportOrExternCrate> for ImportOrDef {
    open spec fn obeys_from_spec() -> bool {
        true
    }

    open spec fn from_spec(import: ImportOrExternCrate) -> ImportOrDef {
        match import {
            ImportOrExternCrate::Glob(it) => ImportOrDef::Glob(it),
            ImportOrExternCrate::Import(it) => ImportOrDef::Import(it),
            ImportOrExternCrate::ExternCrate(it) => ImportOrDef::ExternCrate(it),
        }
    }
}

impl From<ImportOrGlob> for ImportOrDef {
    fn from(import: ImportOrGlob) -> (r: ImportOrDef) {
        match import {
            ImportOrGlob::Glob(it) => ImportOrDef::Glob(it),
            ImportOrGlob::Import(it) => ImportOrDef::Import(it),
        }
    }
}

impl FromSpecImpl<ImportOrGlob> for ImportOrDef {
    open spec fn obeys_from_spec() -> bool {
        true
    }

    open spec fn from_spec(import: ImportOrGlob) -> ImportOrDef {
        match import {
            ImportOrGlob::Glob(it) => ImportOrDef::Glob(it),
            ImportOrGlob::Import(it) => ImportOrDef::Import(it),
        }
    }
}

impl ImportOrExternCrate {
    pub open spec fn spec_import_or_glob(self) -> Option<ImportOrGlob> {
        match self {
            ImportOrExternCrate::Import(it) => Some(ImportOrGlob::Import(it)),
            ImportOrExternCrate::Glob(it) => Some(ImportOrGlob::Glob(it)),
            ImportOrExternCrate::ExternCrate(_) => None,
        }
    }

    pub fn import_or_glob(self) -> (r: Option<ImportOrGlob>)
        ensures
            r == self.spec_import_or_glob(),
    {
        match self {
            ImportOrExternCrate::Import(it) => Some(ImportOrGlob::Import(it)),
            ImportOrExternCrate::Glob(it) => Some(ImportOrGlob::Glob(it)),
            ImportOrExternCrate::ExternCrate(_) => None,
        }
    }

    pub fn import(self) -> (r: Option<ImportId>)
        ensures
            r == (match self {
                ImportOrExternCrate::Import(it) => Some(it),
                _ => None,
            }),
    {
        match self {
            ImportOrExternCrate::Import(it) => Some(it),
            _ => None,
        }
    }

    pub fn glob(self) -> (r: Option<GlobId>)
        ensures
            r == (match self {
                ImportOrExternCrate::Glob(it) => Some(it),
                _ => None,
            }),
    {
        match self {
            ImportOrExternCrate::Glob(it) => Some(it),
            _ => None,
        }
    }

    pub fn use_(self) -> (r: Option<UseId>)
        ensures
            r == (match self {
                ImportOrExternCrate::Glob(it) => Some(it.use_),
                ImportOrExternCrate::Import(it) => Some(it.use_),
                ImportOrExternCrate::ExternCrate(_) => None,
            }),
    {
        match self {
            ImportOrExternCrate::Glob(it) => Some(it.use_),
            ImportOrExternCrate::Import(it) => Some(it.use_),
            ImportOrExternCrate::ExternCrate(_) => None,
        }
    }

    pub open spec fn spec_id(self) -> Id {
        match self {
            ImportOrExternCrate::Glob(it) => it.use_.0,
            ImportOrExternCrate::Import(it) => it.use_.0,
            ImportOrExternCrate::ExternCrate(it) => it.0,
        }
    }

    /// An import can be stored if its id was never reused.
    pub open spec fn storable(self) -> bool {
        self.spec_id().wf() && self.spec_id().generation == 0
    }

    pub fn id(self) -> (r: Id)
        ensures
            r == self.spec_id(),
    {
        match self {
            ImportOrExternCrate::Glob(it) => it.use_.0,
            ImportOrExternCrate::Import(it) => it.use_.0,
            ImportOrExternCrate::ExternCrate(it) => it.0,
        }
    }
}

impl ImportOrGlob {
    pub fn into_import(self) -> (r: Option<ImportId>)
        ensures
            r == (match self {
                ImportOrGlob::Import(it) => Some(it),
                ImportOrGlob::Glob(_) => None,
            }),
    {
        match self {
            ImportOrGlob::Import(it) => Some(it),
            ImportOrGlob::Glob(_) => None,
        }
    }
}

// Visibilities.

/// A visibility in the table of a scope.
#[derive(Clone, Copy, PartialEq, Eq, Structural, Debug)]
pub struct ScopeVisibility(pub u32);

/// The place in the table that stands for public, which is not stored.
pub const PUBLIC_VISIBILITY: u32 = u32::MAX;

/// A table of visibilities: none is stored twice, and public is not stored.
pub open spec fn visibilities_wf(v: Seq<Visibility>) -> bool {
    &&& v.no_duplicates()
    &&& !v.contains(Visibility::Public)
}

impl ScopeVisibility {
    /// Whether this is a place in the table.
    pub open spec fn fits(self, v: Seq<Visibility>) -> bool {
        self.0 == PUBLIC_VISIBILITY || self.0 < v.len()
    }

    pub open spec fn spec_get(self, v: Seq<Visibility>) -> Visibility {
        if self.0 == PUBLIC_VISIBILITY {
            Visibility::Public
        } else {
            v[self.0 as int]
        }
    }

    /// Puts a visibility into the table, unless it is there already.
    pub fn new(visibility: Visibility, visibilities: &mut ThinVec<Visibility>) -> (r: ScopeVisibility)
        requires
            visibilities_wf(thin::thin(*old(visibilities))),
            thin::thin(*old(visibilities)).len() <= u32::MAX,
            visibility == Visibility::Public || thin::thin(*old(visibilities)).contains(visibility)
                || thin::thin(*old(visibilities)).len() < u32::MAX,
        ensures
            visibilities_wf(thin::thin(*final(visibilities))),
            r.fits(thin::thin(*final(visibilities))),
            r.spec_get(thin::thin(*final(visibilities))) == visibility,
            ({
                let before = thin::thin(*old(visibilities));
                thin::thin(*final(visibilities)) == if visibility == Visibility::Public
                    || before.contains(visibility) {
                    before
                } else {
                    before.push(visibility)
                }
            }),
    {
        let ghost before = thin::thin(*visibilities);
        if visibility == Visibility::Public {
            return ScopeVisibility(PUBLIC_VISIBILITY);
        }
        let len: usize = visibilities.as_slice().len();
        let mut i: usize = 0;
        while i < len
            invariant
                i <= len,
                len == before.len(),
                before == thin::thin(*visibilities),
                before == thin::thin(*old(visibilities)),
                visibilities_wf(before),
                before.len() <= u32::MAX,
                before.contains(visibility) || before.len() < u32::MAX,
                visibility != Visibility::Public,
                forall|j: int| 0 <= j < i ==> #[trigger] before[j] != visibility,
            decreases len - i,
        {
            if visibilities.as_slice()[i] == visibility {
                assert(before[i as int] == visibility);
                return ScopeVisibility(i as u32);
            }
            i = i + 1;
        }
        visibilities.push(visibility);
        proof {
            let after = before.push(visibility);
            assert forall|a: int, b: int|
                0 <= a < after.len() && 0 <= b < after.len() && a != b implies after[a]
                != after[b] by {
                if a < before.len() && b < before.len() {
                    assert(before[a] != before[b]);
                } else if a < before.len() {
                    assert(before[a] != visibility);
                } else {
                    assert(before[b] != visibility);
                }
            }
            assert(!after.contains(Visibility::Public)) by {
                if after.contains(Visibility::Public) {
                    let k = choose|k: int| 0 <= k < after.len() && after[k] == Visibility::Public;
                    assert(before[k] == Visibility::Public);
                }
            }
        }
        ScopeVisibility(len as u32)
    }

    /// The visibility at the place.
    pub fn get(self, visibilities: &[Visibility]) -> (r: Visibility)
        requires
            self.fits(visibilities@),
        ensures
            r == self.spec_get(visibilities@),
    {
        if self.0 == PUBLIC_VISIBILITY {
            Visibility::Public
        } else {
            visibilities[self.0 as usize]
        }
    }
}

/// In a table of visibilities every visibility has one place only.
pub proof fn visibility_places_are_unique(a: ScopeVisibility, b: ScopeVisibility, v: Seq<Visibility>)
    requires
        visibilities_wf(v),
        v.len() <= u32::MAX,
        a.fits(v),
        b.fits(v),
        a.spec_get(v) == b.spec_get(v),
    ensures
        a == b,
{
    if a.0 != PUBLIC_VISIBILITY {
        assert(v[a.0 as int] == a.spec_get(v));
    }
    if b.0 != PUBLIC_VISIBILITY {
        assert(v[b.0 as int] == b.spec_get(v));
    }
}

// Imports.

#[derive(Clone, Copy, PartialEq, Eq, Structural, Debug)]
pub enum ScopeImportOrExternCrateKind {
    Import,
    Glob,
    ExternCrate,
}

/// An import, stored in as little room as possible.
#[derive(Clone, Copy, PartialEq, Eq, Structural, Debug)]
pub struct ScopeImportOrExternCrate {
    /// The number of the id, which is not zero.
    pub id: u32,
    pub use_tree: u32,
    pub kind: ScopeImportOrExternCrateKind,
}

pub open spec fn stored_import(import: ImportOrExternCrate) -> ScopeImportOrExternCrate {
    match import {
        ImportOrExternCrate::Import(it) => ScopeImportOrExternCrate {
            id: it.use_.0.low,
            use_tree: it.idx.0,
            kind: ScopeImportOrExternCrateKind::Import,
        },
        ImportOrExternCrate::Glob(it) => ScopeImportOrExternCrate {
            id: it.use_.0.low,
            use_tree: it.idx.0,
            kind: ScopeImportOrExternCrateKind::Glob,
        },
        ImportOrExternCrate::ExternCrate(it) => ScopeImportOrExternCrate {
            id: it.0.low,
            use_tree: 0,
            kind: ScopeImportOrExternCrateKind::ExternCrate,
        },
    }
}

impl ScopeImportOrExternCrate {
    pub fn from(import: ImportOrExternCrate) -> (r: ScopeImportOrExternCrate)
        requires
            import.storable(),
        ensures
            r == stored_import(import),
            r.wf(),
            r.spec_import() == import,
    {
        let (use_tree, kind) = match import {
            ImportOrExternCrate::Import(it) => (it.idx.0, ScopeImportOrExternCrateKind::Import),
            ImportOrExternCrate::Glob(it) => (it.idx.0, ScopeImportOrExternCrateKind::Glob),
            ImportOrExternCrate::ExternCrate(_) => (
                0u32,
                ScopeImportOrExternCrateKind::ExternCrate,
            ),
        };
        let id: u32 = import.id().index() + 1;
        ScopeImportOrExternCrate { id, use_tree, kind }
    }

    pub open spec fn wf(self) -> bool {
        self.id != 0 && (self.kind == ScopeImportOrExternCrateKind::ExternCrate ==> self.use_tree
            == 0)
    }

    /// The import that is stored.
    pub open spec fn spec_import(self) -> ImportOrExternCrate {
        let id = Id { low: self.id, generation: 0 };
        match self.kind {
            ScopeImportOrExternCrateKind::Import => ImportOrExternCrate::Import(
                ImportId { use_: UseId(id), idx: UseTreeIdx(self.use_tree) },
            ),
            ScopeImportOrExternCrateKind::Glob => ImportOrExternCrate::Glob(
                GlobId { use_: UseId(id), idx: UseTreeIdx(self.use_tree) },
            ),
            ScopeImportOrExternCrateKind::ExternCrate => ImportOrExternCrate::ExternCrate(
                ExternCrateId(id),
            ),
        }
    }

    pub fn into_import(self) -> (r: ImportOrExternCrate)
        requires
            self.wf(),
        ensures
            r == self.spec_import(),
            r.storable(),
    {
        let id = Id::from_bits(self.id as u64);
        match self.kind {
            ScopeImportOrExternCrateKind::Import => ImportOrExternCrate::Import(
                ImportId { use_: UseId(id), idx: UseTreeIdx(self.use_tree) },
            ),
            ScopeImportOrExternCrateKind::Glob => ImportOrExternCrate::Glob(
                GlobId { use_: UseId(id), idx: UseTreeIdx(self.use_tree) },
            ),
            ScopeImportOrExternCrateKind::ExternCrate => ImportOrExternCrate::ExternCrate(
                ExternCrateId(id),
            ),
        }
    }
}

/// Storing an import loses nothing.
pub proof fn stored_imports_are_kept(import: ImportOrExternCrate)
    requires
        import.storable(),
    ensures
        stored_import(import).wf(),
        stored_import(import).spec_import() == import,
{
}

/// An import in the table of a scope: one more than its place there, or zero for none.
#[derive(Clone, Copy, PartialEq, Eq, Structural, Debug)]
pub struct ScopeImportId(pub u32);

/// A table of imports: none is stored twice.
pub open spec fn imports_wf(t: Seq<ScopeImportOrExternCrate>) -> bool {
    &&& t.no_duplicates()
    &&& forall|i: int| 0 <= i < t.len() ==> (#[trigger] t[i]).wf()
}

impl ScopeImportId {
    pub open spec fn fits(self, t: Seq<ScopeImportOrExternCrate>) -> bool {
        self.0 <= t.len()
    }

    pub open spec fn spec_get(self, t: Seq<ScopeImportOrExternCrate>) -> Option<
        ImportOrExternCrate,
    > {
        if self.0 == 0 {
            None
        } else {
            Some(t[self.0 - 1].spec_import())
        }
    }

    /// No import.
    pub fn none() -> (r: ScopeImportId)
        ensures
            r.0 == 0,
    {
        ScopeImportId(0)
    }

    pub fn is_none(self) -> (r: bool)
        ensures
            r == (self.0 == 0),
    {
        self.0 == 0
    }

    /// Puts an import into the table, unless it is there already.
    pub fn new(
        import: Option<ImportOrExternCrate>,
        imports: &mut ThinVec<ScopeImportOrExternCrate>,
    ) -> (r: ScopeImportId)
        requires
            imports_wf(thin::thin(*old(imports))),
            thin::thin(*old(imports)).len() <= u32::MAX,
            import is None || thin::thin(*old(imports)).contains(stored_import(import->0))
                || thin::thin(*old(imports)).len() < u32::MAX,
            import matches Some(i) ==> i.storable(),
        ensures
            imports_wf(thin::thin(*final(imports))),
            r.fits(thin::thin(*final(imports))),
            r.spec_get(thin::thin(*final(imports))) == import,
            grown(thin::thin(*old(imports)), thin::thin(*final(imports)), import),
    {
        let ghost before = thin::thin(*imports);
        let stored = match import {
            Some(import) => ScopeImportOrExternCrate::from(import),
            None => {
                return ScopeImportId::none();
            },
        };
        let len: usize = imports.as_slice().len();
        let mut i: usize = 0;
        while i < len
            invariant
                i <= len,
                len == before.len(),
                before == thin::thin(*imports),
                before == thin::thin(*old(imports)),
                imports_wf(before),
                before.len() <= u32::MAX,
                before.contains(stored) || before.len() < u32::MAX,
                import matches Some(i) && stored == stored_import(i) && stored.spec_import() == i,
                forall|j: int| 0 <= j < i ==> #[trigger] before[j] != stored,
            decreases len - i,
        {
            if imports.as_slice()[i] == stored {
                assert(before[i as int] == stored);
                return ScopeImportId(i as u32 + 1);
            }
            i = i + 1;
        }
        imports.push(stored);
        proof {
            let after = before.push(stored);
            assert forall|a: int, b: int|
                0 <= a < after.len() && 0 <= b < after.len() && a != b implies after[a]
                != after[b] by {
                if a < before.len() && b < before.len() {
                    assert(before[a] != before[b]);
                } else if a < before.len() {
                    assert(before[a] != stored);
                } else {
                    assert(before[b] != stored);
                }
            }
        }
        ScopeImportId(len as u32 + 1)
    }

    /// The import at the place.
    pub fn get(self, imports: &[ScopeImportOrExternCrate]) -> (r: Option<ImportOrExternCrate>)
        requires
            self.fits(imports@),
            imports_wf(imports@),
        ensures
            r == self.spec_get(imports@),
            r matches Some(i) ==> i.storable(),
    {
        if self.0 == 0 {
            None
        } else {
            assert(imports@[self.0 - 1].wf());
            Some(imports[(self.0 - 1) as usize].into_import())
        }
    }
}

/// The table after an import was put into it.
pub open spec fn grown(
    before: Seq<ScopeImportOrExternCrate>,
    after: Seq<ScopeImportOrExternCrate>,
    import: Option<ImportOrExternCrate>,
) -> bool {
    match import {
        None => after == before,
        Some(i) => after == if before.contains(stored_import(i)) {
            before
        } else {
            before.push(stored_import(i))
        },
    }
}

pub open spec fn value_import(import: ImportOrGlob) -> ImportOrExternCrate {
    match import {
        ImportOrGlob::Glob(it) => ImportOrExternCrate::Glob(it),
        ImportOrGlob::Import(it) => ImportOrExternCrate::Import(it),
    }
}

pub open spec fn value_imports(import: Option<ImportOrGlob>) -> Option<ImportOrExternCrate> {
    match import {
        Some(i) => Some(value_import(i)),
        None => None,
    }
}

} // verus!
