//! Ids of the things that a crate is made of.

use vstd::prelude::*;

verus! {

/// The id of something interned: a number that is never zero, and how often it was reused.
#[derive(Clone, Copy, PartialEq, Eq, Structural, Debug, Hash, PartialOrd, Ord)]
pub struct Id {
    pub low: u32,
    pub generation: u32,
}

impl Id {
    pub open spec fn wf(self) -> bool {
        self.low != 0
    }

    /// The id that is written as one number.
    pub fn from_bits(bits: u64) -> (r: Id)
        requires
            bits % 0x1_0000_0000 != 0,
        ensures
            r.wf(),
            r.low == bits % 0x1_0000_0000,
            r.generation == bits / 0x1_0000_0000,
    {
        Id { low: (bits % 0x1_0000_0000) as u32, generation: (bits / 0x1_0000_0000) as u32 }
    }

    pub open spec fn spec_bits(self) -> int {
        self.generation * 0x1_0000_0000 + self.low
    }

    /// The id as one number.
    pub fn as_bits(self) -> (r: u64)
        ensures
            r == self.spec_bits(),
    {
        self.generation as u64 * 0x1_0000_0000 + self.low as u64
    }

    /// The number of the id, counted from zero.
    pub fn index(self) -> (r: u32)
        requires
            self.wf(),
        ensures
            r == self.low - 1,
    {
        salsa_id_index(self.as_bits())
    }

    pub fn generation(self) -> (r: u32)
        requires
            self.wf(),
        ensures
            r == self.generation,
    {
        salsa_id_generation(self.as_bits())
    }
}

/// `salsa::Id::index` of the id that `salsa::Id::from_bits` makes is one less than the low half of
/// the bits. There is no id for a low half of zero.
#[verifier::external_body]
pub(crate) fn salsa_id_index(bits: u64) -> (r: u32)
    requires
        bits % 0x1_0000_0000 != 0,
    ensures
        r == bits % 0x1_0000_0000 - 1,
{
    salsa::Id::from_bits(bits).index()
}

/// `salsa::Id::generation` of the id that `salsa::Id::from_bits` makes is the high half of the bits.
/// There is no id for a low half of zero.
#[verifier::external_body]
pub(crate) fn salsa_id_generation(bits: u64) -> (r: u32)
    requires
        bits % 0x1_0000_0000 != 0,
    ensures
        r == bits / 0x1_0000_0000,
{
    salsa::Id::from_bits(bits).generation()
}

/// A module.
#[derive(Clone, Copy, PartialEq, Eq, Structural, Debug, Hash, PartialOrd, Ord)]
pub struct ModuleId(pub Id);

/// A function.
#[derive(Clone, Copy, PartialEq, Eq, Structural, Debug, Hash, PartialOrd, Ord)]
pub struct FunctionId(pub Id);

/// A struct.
#[derive(Clone, Copy, PartialEq, Eq, Structural, Debug, Hash, PartialOrd, Ord)]
pub struct StructId(pub Id);

/// A union.
#[derive(Clone, Copy, PartialEq, Eq, Structural, Debug, Hash, PartialOrd, Ord)]
pub struct UnionId(pub Id);

/// An enum.
#[derive(Clone, Copy, PartialEq, Eq, Structural, Debug, Hash, PartialOrd, Ord)]
pub struct EnumId(pub Id);

/// A variant of an enum.
#[derive(Clone, Copy, PartialEq, Eq, Structural, Debug, Hash, PartialOrd, Ord)]
pub struct EnumVariantId(pub Id);

/// A constant.
#[derive(Clone, Copy, PartialEq, Eq, Structural, Debug, Hash, PartialOrd, Ord)]
pub struct ConstId(pub Id);

/// A static.
#[derive(Clone, Copy, PartialEq, Eq, Structural, Debug, Hash, PartialOrd, Ord)]
pub struct StaticId(pub Id);

/// A trait.
#[derive(Clone, Copy, PartialEq, Eq, Structural, Debug, Hash, PartialOrd, Ord)]
pub struct TraitId(pub Id);

/// A type alias.
#[derive(Clone, Copy, PartialEq, Eq, Structural, Debug, Hash, PartialOrd, Ord)]
pub struct TypeAliasId(pub Id);

/// An impl.
#[derive(Clone, Copy, PartialEq, Eq, Structural, Debug, Hash, PartialOrd, Ord)]
pub struct ImplId(pub Id);

/// An extern block.
#[derive(Clone, Copy, PartialEq, Eq, Structural, Debug, Hash, PartialOrd, Ord)]
pub struct ExternBlockId(pub Id);

/// An extern crate item.
#[derive(Clone, Copy, PartialEq, Eq, Structural, Debug, Hash, PartialOrd, Ord)]
pub struct ExternCrateId(pub Id);

/// A use item.
#[derive(Clone, Copy, PartialEq, Eq, Structural, Debug, Hash, PartialOrd, Ord)]
pub struct UseId(pub Id);

/// A macro of the new sort.
#[derive(Clone, Copy, PartialEq, Eq, Structural, Debug, Hash, PartialOrd, Ord)]
pub struct Macro2Id(pub Id);

/// A macro of the old sort.
#[derive(Clone, Copy, PartialEq, Eq, Structural, Debug, Hash, PartialOrd, Ord)]
pub struct MacroRulesId(pub Id);

/// A procedural macro.
#[derive(Clone, Copy, PartialEq, Eq, Structural, Debug, Hash, PartialOrd, Ord)]
pub struct ProcMacroId(pub Id);

/// A call of a macro.
#[derive(Clone, Copy, PartialEq, Eq, Structural, Debug, Hash, PartialOrd, Ord)]
pub struct MacroCallId(pub Id);

/// An impl that a built-in derive makes.
#[derive(Clone, Copy, PartialEq, Eq, Structural, Debug, Hash, PartialOrd, Ord)]
pub struct BuiltinDeriveImplId(pub Id);

/// A crate.
#[derive(Clone, Copy, PartialEq, Eq, Structural, Debug, Hash, PartialOrd, Ord)]
pub struct Crate(pub Id);

/// An attribute of an item, by its place.
#[derive(Clone, Copy, PartialEq, Eq, Structural, Debug, Hash, PartialOrd, Ord)]
pub struct AttrId(pub u32);

/// A part of a use item, by its place.
#[derive(Clone, Copy, PartialEq, Eq, Structural, Debug, Hash, PartialOrd, Ord)]
pub struct UseTreeIdx(pub u32);

/// A struct, union or enum.
#[derive(Clone, Copy, PartialEq, Eq, Structural, Debug, Hash, PartialOrd, Ord)]
pub enum AdtId {
    StructId(StructId),
    UnionId(UnionId),
    EnumId(EnumId),
}

/// A macro.
#[derive(Clone, Copy, PartialEq, Eq, Structural, Debug, Hash, PartialOrd, Ord)]
pub enum MacroId {
    Macro2Id(Macro2Id),
    MacroRulesId(MacroRulesId),
    ProcMacroId(ProcMacroId),
}

/// A type that the language has built in.
#[allow(non_camel_case_types)]
#[derive(Clone, Copy, PartialEq, Eq, Structural, Debug, Hash, PartialOrd, Ord)]
pub enum BuiltinType {
    Char,
    Bool,
    Str,
    Isize,
    I8,
    I16,
    I32,
    I64,
    I128,
    Usize,
    U8,
    U16,
    U32,
    U64,
    U128,
    F16,
    F32,
    F64,
    F128,
}

/// Anything that a name in a module can stand for.
#[derive(Clone, Copy, PartialEq, Eq, Structural, Debug, Hash, PartialOrd, Ord)]
pub enum ModuleDefId {
    ModuleId(ModuleId),
    FunctionId(FunctionId),
    AdtId(AdtId),
    EnumVariantId(EnumVariantId),
    ConstId(ConstId),
    StaticId(StaticId),
    TraitId(TraitId),
    TypeAliasId(TypeAliasId),
    BuiltinType(BuiltinType),
    MacroId(MacroId),
}

/// Whether a visibility was written down.
#[derive(Clone, Copy, PartialEq, Eq, Structural, Debug, Hash, PartialOrd, Ord)]
pub enum VisibilityExplicitness {
    Explicit,
    Implicit,
}

/// From where something can be seen.
#[derive(Clone, Copy, PartialEq, Eq, Structural, Debug, Hash, PartialOrd, Ord)]
pub enum Visibility {
    Module(ModuleId, VisibilityExplicitness),
    PubCrate(Crate),
    Public,
}

} // verus!
