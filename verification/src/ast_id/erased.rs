//! Ids of syntax nodes: how they are packed into one number and printed.

use crate::text;
use vstd::prelude::*;
use vstd::string::StringExecFns;

verus! {

/// What sort of node an id stands for.
#[derive(Clone, Copy, PartialEq, Eq, Structural, Debug, Hash)]
pub enum ErasedFileAstIdKind {
    /// Has to keep its number, because tools outside the library know it.
    Fixup,
    Enum,
    Struct,
    Union,
    ExternCrate,
    MacroDef,
    MacroRules,
    Module,
    Static,
    Trait,
    Variant,
    Const,
    Fn,
    MacroCall,
    TypeAlias,
    ExternBlock,
    Use,
    Impl,
    BlockExpr,
    AsmExpr,
    /// A fake id that is not to be mapped down into macro expansions.
    NoDownmap,
    Root,
}

/// The number that stands for `kind` in an id.
pub open spec fn kind_number(kind: ErasedFileAstIdKind) -> u32 {
    match kind {
        ErasedFileAstIdKind::Fixup => 0,
        ErasedFileAstIdKind::Enum => 1,
        ErasedFileAstIdKind::Struct => 2,
        ErasedFileAstIdKind::Union => 3,
        ErasedFileAstIdKind::ExternCrate => 4,
        ErasedFileAstIdKind::MacroDef => 5,
        ErasedFileAstIdKind::MacroRules => 6,
        ErasedFileAstIdKind::Module => 7,
        ErasedFileAstIdKind::Static => 8,
        ErasedFileAstIdKind::Trait => 9,
        ErasedFileAstIdKind::Variant => 10,
        ErasedFileAstIdKind::Const => 11,
        ErasedFileAstIdKind::Fn => 12,
        ErasedFileAstIdKind::MacroCall => 13,
        ErasedFileAstIdKind::TypeAlias => 14,
        ErasedFileAstIdKind::ExternBlock => 15,
        ErasedFileAstIdKind::Use => 16,
        ErasedFileAstIdKind::Impl => 17,
        ErasedFileAstIdKind::BlockExpr => 18,
        ErasedFileAstIdKind::AsmExpr => 19,
        ErasedFileAstIdKind::NoDownmap => 20,
        ErasedFileAstIdKind::Root => 21,
    }
}

/// How the kind with the given number is printed.
pub open spec fn kind_name(kind: u32) -> Seq<char> {
    if kind == 0 {
        "Fixup"@
    } else if kind == 1 {
        "Enum"@
    } else if kind == 2 {
        "Struct"@
    } else if kind == 3 {
        "Union"@
    } else if kind == 4 {
        "ExternCrate"@
    } else if kind == 5 {
        "MacroDef"@
    } else if kind == 6 {
        "MacroRules"@
    } else if kind == 7 {
        "Module"@
    } else if kind == 8 {
        "Static"@
    } else if kind == 9 {
        "Trait"@
    } else if kind == 10 {
        "Variant"@
    } else if kind == 11 {
        "Const"@
    } else if kind == 12 {
        "Fn"@
    } else if kind == 13 {
        "MacroCall"@
    } else if kind == 14 {
        "TypeAlias"@
    } else if kind == 15 {
        "ExternBlock"@
    } else if kind == 16 {
        "Use"@
    } else if kind == 17 {
        "Impl"@
    } else if kind == 18 {
        "BlockExpr"@
    } else if kind == 19 {
        "AsmExpr"@
    } else if kind == 20 {
        "NoDownmap"@
    } else if kind == 21 {
        "Root"@
    } else {
        "Unknown"@
    }
}

impl ErasedFileAstIdKind {
    pub fn as_u32(self) -> (r: u32)
        ensures
            r == kind_number(self),
            r < 32,
    {
        match self {
            ErasedFileAstIdKind::Fixup => 0,
            ErasedFileAstIdKind::Enum => 1,
            ErasedFileAstIdKind::Struct => 2,
            ErasedFileAstIdKind::Union => 3,
            ErasedFileAstIdKind::ExternCrate => 4,
            ErasedFileAstIdKind::MacroDef => 5,
            ErasedFileAstIdKind::MacroRules => 6,
            ErasedFileAstIdKind::Module => 7,
            ErasedFileAstIdKind::Static => 8,
            ErasedFileAstIdKind::Trait => 9,
            ErasedFileAstIdKind::Variant => 10,
            ErasedFileAstIdKind::Const => 11,
            ErasedFileAstIdKind::Fn => 12,
            ErasedFileAstIdKind::MacroCall => 13,
            ErasedFileAstIdKind::TypeAlias => 14,
            ErasedFileAstIdKind::ExternBlock => 15,
            ErasedFileAstIdKind::Use => 16,
            ErasedFileAstIdKind::Impl => 17,
            ErasedFileAstIdKind::BlockExpr => 18,
            ErasedFileAstIdKind::AsmExpr => 19,
            ErasedFileAstIdKind::NoDownmap => 20,
            ErasedFileAstIdKind::Root => 21,
        }
    }
}

fn kind_str(kind: u32) -> (r: &'static str)
    ensures
        r@ == kind_name(kind),
{
    match kind {
        0 => "Fixup",
        1 => "Enum",
        2 => "Struct",
        3 => "Union",
        4 => "ExternCrate",
        5 => "MacroDef",
        6 => "MacroRules",
        7 => "Module",
        8 => "Static",
        9 => "Trait",
        10 => "Variant",
        11 => "Const",
        12 => "Fn",
        13 => "MacroCall",
        14 => "TypeAlias",
        15 => "ExternBlock",
        16 => "Use",
        17 => "Impl",
        18 => "BlockExpr",
        19 => "AsmExpr",
        20 => "NoDownmap",
        21 => "Root",
        _ => "Unknown",
    }
}

// First the hash, then the index, then the kind.
pub const HASH_BITS: u32 = 16;

pub const INDEX_BITS: u32 = 11;

pub const KIND_BITS: u32 = 5;

/// How many ids of one kind share a hash.
pub const INDEX_LIMIT: u32 = 2048;

/// The fold of a 64 bit hash into 16 bits: a polynomial in its four 16 bit digits.
pub open spec fn folded_hash(hash: u64) -> int {
    let k: int = 0xecc5;
    let p1 = hash as int % 0x10000;
    let p2 = hash as int / 0x10000 % 0x10000;
    let p3 = hash as int / 0x1_0000_0000 % 0x10000;
    let p4 = hash as int / 0x1_0000_0000_0000;
    (((p1 + p2) * k + p3) * k + p4) * k % 0x10000
}

proof fn lemma_fold_step(whole: int, x: int, y: int, r: int)
    requires
        whole % 0x10000 == x,
        r == (x + y) % 0x10000 * 0xecc5 % 0x10000,
    ensures
        (whole + y) * 0xecc5 % 0x10000 == r,
{
    let m: int = 0x10000;
    let k: int = 0xecc5;
    vstd::arithmetic::div_mod::lemma_add_mod_noop(whole, y, m);
    vstd::arithmetic::div_mod::lemma_add_mod_noop(x, y, m);
    vstd::arithmetic::div_mod::lemma_mod_twice(whole, m);
    assert((whole + y) % m == (x + y) % m);
    vstd::arithmetic::div_mod::lemma_mul_mod_noop_left(whole + y, k, m);
}

/// Folds a hash into 16 bits. The higher bits have more entropy, so all digits take part.
pub fn u16_hash(hash: u64) -> (r: u16)
    ensures
        r == folded_hash(hash),
{
    let k: u16 = 0xecc5;
    let part1: u16 = (hash % 0x10000) as u16;
    let part2: u16 = (hash / 0x10000 % 0x10000) as u16;
    let part3: u16 = (hash / 0x1_0000_0000 % 0x10000) as u16;
    let part4: u16 = (hash / 0x1_0000_0000_0000) as u16;
    let a: u16 = part1.wrapping_add(part2).wrapping_mul(k);
    let b: u16 = a.wrapping_add(part3).wrapping_mul(k);
    let c: u16 = b.wrapping_add(part4).wrapping_mul(k);
    proof {
        let ki: int = 0xecc5;
        lemma_fold_step(part1 as int, part1 as int, part2 as int, a as int);
        lemma_fold_step((part1 + part2) * ki, a as int, part3 as int, b as int);
        lemma_fold_step(((part1 + part2) * ki + part3) * ki, b as int, part4 as int, c as int);
    }
    c
}

/// The number that holds the three parts of an id.
pub open spec fn packed(hash: u16, index: u32, kind: u32) -> u32 {
    (hash as u32) | (index << 16) | (kind << 27)
}

pub fn pack_hash_index_and_kind(hash: u16, index: u32, kind: u32) -> (r: u32)
    ensures
        r == packed(hash, index, kind),
{
    (hash as u32) | (index << HASH_BITS) | (kind << (HASH_BITS + INDEX_BITS))
}

/// An id of a syntax node that does not say what type the node has.
#[derive(Clone, Copy, PartialEq, Eq, Structural, Hash, Debug)]
pub struct ErasedFileAstId(pub u32);

/// The id that always stands for the whole file. Ranges relative to it are absolute, so it is a
/// poor anchor.
pub open spec fn spec_root() -> ErasedFileAstId {
    ErasedFileAstId(packed(0, 0, kind_number(ErasedFileAstIdKind::Root)))
}

pub open spec fn spec_fixup() -> ErasedFileAstId {
    ErasedFileAstId(packed(0, 0, kind_number(ErasedFileAstIdKind::Fixup)))
}

pub open spec fn spec_no_downmap() -> ErasedFileAstId {
    ErasedFileAstId(packed(0, 0, kind_number(ErasedFileAstIdKind::NoDownmap)))
}

/// The id of the whole file.
#[allow(non_snake_case)]
pub fn ROOT_ERASED_FILE_AST_ID() -> (r: ErasedFileAstId)
    ensures
        r == spec_root(),
        r.0 == 0xa800_0000,
{
    assert(packed(0, 0, 21) == 0xa800_0000u32) by (bit_vector);
    ErasedFileAstId(pack_hash_index_and_kind(0, 0, ErasedFileAstIdKind::Root.as_u32()))
}

/// The id in the spans of nodes that were made up to repair a tree.
#[allow(non_snake_case)]
pub fn FIXUP_ERASED_FILE_AST_ID_MARKER() -> (r: ErasedFileAstId)
    ensures
        r == spec_fixup(),
        r.0 == 0,
{
    assert(packed(0, 0, 0) == 0u32) by (bit_vector);
    ErasedFileAstId(pack_hash_index_and_kind(0, 0, ErasedFileAstIdKind::Fixup.as_u32()))
}

/// The id in the spans of nodes that are not to be mapped down into macro expansions.
#[allow(non_snake_case)]
pub fn NO_DOWNMAP_ERASED_FILE_AST_ID_MARKER() -> (r: ErasedFileAstId)
    ensures
        r == spec_no_downmap(),
        r.0 == 0xa000_0000,
{
    assert(packed(0, 0, 20) == 0xa000_0000u32) by (bit_vector);
    ErasedFileAstId(pack_hash_index_and_kind(0, 0, ErasedFileAstIdKind::NoDownmap.as_u32()))
}

impl ErasedFileAstId {
    pub open spec fn spec_hash(self) -> u16 {
        (self.0 & 0xffff) as u16
    }

    pub open spec fn spec_index(self) -> u32 {
        (self.0 >> 16) & 0x7ff
    }

    pub open spec fn spec_kind(self) -> u32 {
        self.0 >> 27
    }

    pub fn hash_value(self) -> (r: u16)
        ensures
            r == self.spec_hash(),
    {
        let x: u32 = self.0;
        assert(x as u16 == (x & 0xffff) as u16) by (bit_vector);
        x as u16
    }

    pub fn index(self) -> (r: u32)
        ensures
            r == self.spec_index(),
            r < INDEX_LIMIT,
    {
        let x: u32 = self.0;
        assert((x << 5) >> 21 == (x >> 16) & 0x7ff && ((x >> 16) & 0x7ff) < 2048) by (bit_vector);
        (x << KIND_BITS) >> (HASH_BITS + KIND_BITS)
    }

    pub fn kind(self) -> (r: u32)
        ensures
            r == self.spec_kind(),
            r < 32,
    {
        let x: u32 = self.0;
        assert(x >> 27 < 32) by (bit_vector);
        x >> (HASH_BITS + INDEX_BITS)
    }

    /// Whether this is an id of a whole file.
    pub fn is_root(self) -> (r: bool)
        ensures
            r == (self.spec_kind() == kind_number(ErasedFileAstIdKind::Root)),
    {
        self.kind() == ErasedFileAstIdKind::Root.as_u32()
    }

    pub fn into_raw(self) -> (r: u32)
        ensures
            r == self.0,
    {
        self.0
    }

    pub fn from_raw(v: u32) -> (r: ErasedFileAstId)
        ensures
            r == ErasedFileAstId(v),
    {
        ErasedFileAstId(v)
    }

    /// The id as it is printed.
    pub open spec fn spec_fmt(self, alternate: bool) -> Seq<char> {
        let kind = kind_name(self.spec_kind());
        let index = text::decimal(self.spec_index() as nat);
        let hash = text::hex4(self.spec_hash() as nat);
        if alternate {
            kind + "["@ + hash + ", "@ + index + "]"@
        } else {
            "ErasedFileAstId { kind: "@ + kind + ", index: "@ + index + ", hash: "@ + hash + " }"@
        }
    }

    /// Prints the id, in the short form if `alternate` is set.
    pub fn fmt(self, alternate: bool) -> (r: String)
        ensures
            r@ == self.spec_fmt(alternate),
    {
        let kind = kind_str(self.kind());
        if alternate {
            let mut buf = kind.to_owned();
            buf.append("[");
            text::push_hex4(&mut buf, self.hash_value());
            buf.append(", ");
            text::push_decimal(&mut buf, self.index());
            buf.append("]");
            buf
        } else {
            let mut buf = "ErasedFileAstId { kind: ".to_owned();
            buf.append(kind);
            buf.append(", index: ");
            text::push_decimal(&mut buf, self.index());
            buf.append(", hash: ");
            text::push_hex4(&mut buf, self.hash_value());
            buf.append(" }");
            buf
        }
    }
}

/// Packing loses nothing: the three parts of an id can be read back.
pub proof fn unpacking_undoes_packing(hash: u16, index: u32, kind: u32)
    requires
        index < INDEX_LIMIT,
        kind < 32,
    ensures
        ({
            let id = ErasedFileAstId(packed(hash, index, kind));
            id.spec_hash() == hash && id.spec_index() == index && id.spec_kind() == kind
        }),
{
    let x = packed(hash, index, kind);
    assert((x & 0xffff) as u16 == hash && (x >> 16) & 0x7ff == index && x >> 27 == kind) by (bit_vector)
        requires
            x == (hash as u32) | (index << 16) | (kind << 27),
            index < 2048,
            kind < 32,
    ;
}

/// An id is nothing but its three parts.
pub proof fn packing_undoes_unpacking(id: ErasedFileAstId)
    ensures
        packed(id.spec_hash(), id.spec_index(), id.spec_kind()) == id.0,
{
    let x = id.0;
    assert((((x & 0xffff) as u16) as u32) | (((x >> 16) & 0x7ff) << 16) | ((x >> 27) << 27) == x) by (bit_vector);
}

} // verus!
