//! The kinds of tokens and nodes of a Rust syntax tree.

use vstd::prelude::*;

verus! {

/// The kind of a token or node. The kinds that the library tells apart have a name; every other
/// kind of the grammar is carried by its number.
#[allow(non_camel_case_types)]
#[derive(Clone, Copy, PartialEq, Eq, Structural, Debug, Hash, PartialOrd, Ord)]
pub enum SyntaxKind {
    EOF,
    ERROR,
    IDENT,
    WHITESPACE,
    FOR_KW,
    SOURCE_FILE,
    ENUM,
    STRUCT,
    UNION,
    EXTERN_CRATE,
    MACRO_DEF,
    MACRO_RULES,
    MODULE,
    STATIC,
    TRAIT,
    VARIANT,
    CONST,
    FN,
    MACRO_CALL,
    TYPE_ALIAS,
    EXTERN_BLOCK,
    USE,
    IMPL,
    BLOCK_EXPR,
    ASM_EXPR,
    ARRAY_TYPE,
    DYN_TRAIT_TYPE,
    FN_PTR_TYPE,
    FOR_TYPE,
    IMPL_TRAIT_TYPE,
    INFER_TYPE,
    MACRO_TYPE,
    NEVER_TYPE,
    PAREN_TYPE,
    PATH_TYPE,
    PTR_TYPE,
    REF_TYPE,
    SLICE_TYPE,
    TUPLE_TYPE,
    NAME,
    NAME_REF,
    PATH,
    PATH_SEGMENT,
    ATTR,
    EXTERN_ITEM_LIST,
    ASSOC_ITEM_LIST,
    ITEM_LIST,
    VARIANT_LIST,
    STMT_LIST,
    EXPR_STMT,
    MACRO_EXPR,
    Other(u16),
}

/// How many kinds have a name.
pub const NAMED_KINDS: u16 = 51;

/// The number by which a tree stores `kind`. The named kinds come first.
pub open spec fn raw_kind(kind: SyntaxKind) -> int {
    match kind {
        SyntaxKind::EOF => 0,
        SyntaxKind::ERROR => 1,
        SyntaxKind::IDENT => 2,
        SyntaxKind::WHITESPACE => 3,
        SyntaxKind::FOR_KW => 4,
        SyntaxKind::SOURCE_FILE => 5,
        SyntaxKind::ENUM => 6,
        SyntaxKind::STRUCT => 7,
        SyntaxKind::UNION => 8,
        SyntaxKind::EXTERN_CRATE => 9,
        SyntaxKind::MACRO_DEF => 10,
        SyntaxKind::MACRO_RULES => 11,
        SyntaxKind::MODULE => 12,
        SyntaxKind::STATIC => 13,
        SyntaxKind::TRAIT => 14,
        SyntaxKind::VARIANT => 15,
        SyntaxKind::CONST => 16,
        SyntaxKind::FN => 17,
        SyntaxKind::MACRO_CALL => 18,
        SyntaxKind::TYPE_ALIAS => 19,
        SyntaxKind::EXTERN_BLOCK => 20,
        SyntaxKind::USE => 21,
        SyntaxKind::IMPL => 22,
        SyntaxKind::BLOCK_EXPR => 23,
        SyntaxKind::ASM_EXPR => 24,
        SyntaxKind::ARRAY_TYPE => 25,
        SyntaxKind::DYN_TRAIT_TYPE => 26,
        SyntaxKind::FN_PTR_TYPE => 27,
        SyntaxKind::FOR_TYPE => 28,
        SyntaxKind::IMPL_TRAIT_TYPE => 29,
        SyntaxKind::INFER_TYPE => 30,
        SyntaxKind::MACRO_TYPE => 31,
        SyntaxKind::NEVER_TYPE => 32,
        SyntaxKind::PAREN_TYPE => 33,
        SyntaxKind::PATH_TYPE => 34,
        SyntaxKind::PTR_TYPE => 35,
        SyntaxKind::REF_TYPE => 36,
        SyntaxKind::SLICE_TYPE => 37,
        SyntaxKind::TUPLE_TYPE => 38,
        SyntaxKind::NAME => 39,
        SyntaxKind::NAME_REF => 40,
        SyntaxKind::PATH => 41,
        SyntaxKind::PATH_SEGMENT => 42,
        SyntaxKind::ATTR => 43,
        SyntaxKind::EXTERN_ITEM_LIST => 44,
        SyntaxKind::ASSOC_ITEM_LIST => 45,
        SyntaxKind::ITEM_LIST => 46,
        SyntaxKind::VARIANT_LIST => 47,
        SyntaxKind::STMT_LIST => 48,
        SyntaxKind::EXPR_STMT => 49,
        SyntaxKind::MACRO_EXPR => 50,
        SyntaxKind::Other(n) => NAMED_KINDS + n,
    }
}

impl SyntaxKind {
    /// A kind without a name whose number still fits behind the named kinds.
    pub open spec fn wf(self) -> bool {
        raw_kind(self) <= u16::MAX
    }

    /// The number of the kind.
    pub fn number(self) -> (r: u32)
        ensures
            r == raw_kind(self),
    {
        match self {
            SyntaxKind::EOF => 0,
            SyntaxKind::ERROR => 1,
            SyntaxKind::IDENT => 2,
            SyntaxKind::WHITESPACE => 3,
            SyntaxKind::FOR_KW => 4,
            SyntaxKind::SOURCE_FILE => 5,
            SyntaxKind::ENUM => 6,
            SyntaxKind::STRUCT => 7,
            SyntaxKind::UNION => 8,
            SyntaxKind::EXTERN_CRATE => 9,
            SyntaxKind::MACRO_DEF => 10,
            SyntaxKind::MACRO_RULES => 11,
            SyntaxKind::MODULE => 12,
            SyntaxKind::STATIC => 13,
            SyntaxKind::TRAIT => 14,
            SyntaxKind::VARIANT => 15,
            SyntaxKind::CONST => 16,
            SyntaxKind::FN => 17,
            SyntaxKind::MACRO_CALL => 18,
            SyntaxKind::TYPE_ALIAS => 19,
            SyntaxKind::EXTERN_BLOCK => 20,
            SyntaxKind::USE => 21,
            SyntaxKind::IMPL => 22,
            SyntaxKind::BLOCK_EXPR => 23,
            SyntaxKind::ASM_EXPR => 24,
            SyntaxKind::ARRAY_TYPE => 25,
            SyntaxKind::DYN_TRAIT_TYPE => 26,
            SyntaxKind::FN_PTR_TYPE => 27,
            SyntaxKind::FOR_TYPE => 28,
            SyntaxKind::IMPL_TRAIT_TYPE => 29,
            SyntaxKind::INFER_TYPE => 30,
            SyntaxKind::MACRO_TYPE => 31,
            SyntaxKind::NEVER_TYPE => 32,
            SyntaxKind::PAREN_TYPE => 33,
            SyntaxKind::PATH_TYPE => 34,
            SyntaxKind::PTR_TYPE => 35,
            SyntaxKind::REF_TYPE => 36,
            SyntaxKind::SLICE_TYPE => 37,
            SyntaxKind::TUPLE_TYPE => 38,
            SyntaxKind::NAME => 39,
            SyntaxKind::NAME_REF => 40,
            SyntaxKind::PATH => 41,
            SyntaxKind::PATH_SEGMENT => 42,
            SyntaxKind::ATTR => 43,
            SyntaxKind::EXTERN_ITEM_LIST => 44,
            SyntaxKind::ASSOC_ITEM_LIST => 45,
            SyntaxKind::ITEM_LIST => 46,
            SyntaxKind::VARIANT_LIST => 47,
            SyntaxKind::STMT_LIST => 48,
            SyntaxKind::EXPR_STMT => 49,
            SyntaxKind::MACRO_EXPR => 50,
            SyntaxKind::Other(n) => NAMED_KINDS as u32 + n as u32,
        }
    }

    pub fn to_raw(self) -> (r: u16)
        requires
            self.wf(),
        ensures
            r == raw_kind(self),
    {
        self.number() as u16
    }

    /// The kind that is stored as `raw`.
    pub fn from_raw(raw: u16) -> (r: SyntaxKind)
        ensures
            r.wf(),
            raw_kind(r) == raw,
    {
        match raw {
            0 => SyntaxKind::EOF,
            1 => SyntaxKind::ERROR,
            2 => SyntaxKind::IDENT,
            3 => SyntaxKind::WHITESPACE,
            4 => SyntaxKind::FOR_KW,
            5 => SyntaxKind::SOURCE_FILE,
            6 => SyntaxKind::ENUM,
            7 => SyntaxKind::STRUCT,
            8 => SyntaxKind::UNION,
            9 => SyntaxKind::EXTERN_CRATE,
            10 => SyntaxKind::MACRO_DEF,
            11 => SyntaxKind::MACRO_RULES,
            12 => SyntaxKind::MODULE,
            13 => SyntaxKind::STATIC,
            14 => SyntaxKind::TRAIT,
            15 => SyntaxKind::VARIANT,
            16 => SyntaxKind::CONST,
            17 => SyntaxKind::FN,
            18 => SyntaxKind::MACRO_CALL,
            19 => SyntaxKind::TYPE_ALIAS,
            20 => SyntaxKind::EXTERN_BLOCK,
            21 => SyntaxKind::USE,
            22 => SyntaxKind::IMPL,
            23 => SyntaxKind::BLOCK_EXPR,
            24 => SyntaxKind::ASM_EXPR,
            25 => SyntaxKind::ARRAY_TYPE,
            26 => SyntaxKind::DYN_TRAIT_TYPE,
            27 => SyntaxKind::FN_PTR_TYPE,
            28 => SyntaxKind::FOR_TYPE,
            29 => SyntaxKind::IMPL_TRAIT_TYPE,
            30 => SyntaxKind::INFER_TYPE,
            31 => SyntaxKind::MACRO_TYPE,
            32 => SyntaxKind::NEVER_TYPE,
            33 => SyntaxKind::PAREN_TYPE,
            34 => SyntaxKind::PATH_TYPE,
            35 => SyntaxKind::PTR_TYPE,
            36 => SyntaxKind::REF_TYPE,
            37 => SyntaxKind::SLICE_TYPE,
            38 => SyntaxKind::TUPLE_TYPE,
            39 => SyntaxKind::NAME,
            40 => SyntaxKind::NAME_REF,
            41 => SyntaxKind::PATH,
            42 => SyntaxKind::PATH_SEGMENT,
            43 => SyntaxKind::ATTR,
            44 => SyntaxKind::EXTERN_ITEM_LIST,
            45 => SyntaxKind::ASSOC_ITEM_LIST,
            46 => SyntaxKind::ITEM_LIST,
            47 => SyntaxKind::VARIANT_LIST,
            48 => SyntaxKind::STMT_LIST,
            49 => SyntaxKind::EXPR_STMT,
            50 => SyntaxKind::MACRO_EXPR,
            _ => SyntaxKind::Other(raw - NAMED_KINDS),
        }
    }
}

/// Different kinds are stored as different numbers.
pub proof fn raw_kind_is_injective(a: SyntaxKind, b: SyntaxKind)
    requires
        raw_kind(a) == raw_kind(b),
    ensures
        a == b,
{
}

} // verus!
