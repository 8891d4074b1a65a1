//! Syntax nodes that know their type.

use crate::syntax_kind::SyntaxKind;
use crate::syntax_ptr::SyntaxNodePtr;
use vstd::prelude::*;
use vstd::std_specs::convert::FromSpecImpl;

verus! {

/// A syntax node of a known type.
pub trait AstNode: Sized {
    /// The kinds of nodes that are of this type.
    spec fn castable(kind: SyntaxKind) -> bool;

    spec fn spec_syntax(&self) -> SyntaxNodePtr;

    fn can_cast(kind: SyntaxKind) -> (r: bool)
        ensures
            r == Self::castable(kind),
    ;

    /// The node as one of this type, if it is one.
    fn cast(ptr: SyntaxNodePtr) -> (r: Option<Self>)
        ensures
            r is Some <==> Self::castable(ptr.kind),
            r matches Some(n) ==> n.spec_syntax() == ptr,
    ;

    /// Where the node stands.
    fn syntax(&self) -> (r: SyntaxNodePtr)
        ensures
            r == self.spec_syntax(),
    ;
}

/// The types of nodes that always have an id.
pub trait AstIdNode: AstNode {

}

/// An extern block.
#[derive(Clone, Copy, PartialEq, Eq, Structural, Debug, Hash)]
pub struct ExternBlock {
    pub ptr: SyntaxNodePtr,
}

impl AstNode for ExternBlock {
    open spec fn castable(kind: SyntaxKind) -> bool {
        kind == SyntaxKind::EXTERN_BLOCK
    }

    open spec fn spec_syntax(&self) -> SyntaxNodePtr {
        self.ptr
    }

    fn can_cast(kind: SyntaxKind) -> bool {
        kind == SyntaxKind::EXTERN_BLOCK
    }

    fn cast(ptr: SyntaxNodePtr) -> Option<Self> {
        if Self::can_cast(ptr.kind) {
            Some(ExternBlock { ptr })
        } else {
            None
        }
    }

    fn syntax(&self) -> SyntaxNodePtr {
        self.ptr
    }
}

impl AstIdNode for ExternBlock {

}

/// A use item.
#[derive(Clone, Copy, PartialEq, Eq, Structural, Debug, Hash)]
pub struct Use {
    pub ptr: SyntaxNodePtr,
}

impl AstNode for Use {
    open spec fn castable(kind: SyntaxKind) -> bool {
        kind == SyntaxKind::USE
    }

    open spec fn spec_syntax(&self) -> SyntaxNodePtr {
        self.ptr
    }

    fn can_cast(kind: SyntaxKind) -> bool {
        kind == SyntaxKind::USE
    }

    fn cast(ptr: SyntaxNodePtr) -> Option<Self> {
        if Self::can_cast(ptr.kind) {
            Some(Use { ptr })
        } else {
            None
        }
    }

    fn syntax(&self) -> SyntaxNodePtr {
        self.ptr
    }
}

impl AstIdNode for Use {

}

/// Inline assembly.
#[derive(Clone, Copy, PartialEq, Eq, Structural, Debug, Hash)]
pub struct AsmExpr {
    pub ptr: SyntaxNodePtr,
}

impl AstNode for AsmExpr {
    open spec fn castable(kind: SyntaxKind) -> bool {
        kind == SyntaxKind::ASM_EXPR
    }

    open spec fn spec_syntax(&self) -> SyntaxNodePtr {
        self.ptr
    }

    fn can_cast(kind: SyntaxKind) -> bool {
        kind == SyntaxKind::ASM_EXPR
    }

    fn cast(ptr: SyntaxNodePtr) -> Option<Self> {
        if Self::can_cast(ptr.kind) {
            Some(AsmExpr { ptr })
        } else {
            None
        }
    }

    fn syntax(&self) -> SyntaxNodePtr {
        self.ptr
    }
}

impl AstIdNode for AsmExpr {

}

/// An impl.
#[derive(Clone, Copy, PartialEq, Eq, Structural, Debug, Hash)]
pub struct Impl {
    pub ptr: SyntaxNodePtr,
}

impl AstNode for Impl {
    open spec fn castable(kind: SyntaxKind) -> bool {
        kind == SyntaxKind::IMPL
    }

    open spec fn spec_syntax(&self) -> SyntaxNodePtr {
        self.ptr
    }

    fn can_cast(kind: SyntaxKind) -> bool {
        kind == SyntaxKind::IMPL
    }

    fn cast(ptr: SyntaxNodePtr) -> Option<Self> {
        if Self::can_cast(ptr.kind) {
            Some(Impl { ptr })
        } else {
            None
        }
    }

    fn syntax(&self) -> SyntaxNodePtr {
        self.ptr
    }
}

impl AstIdNode for Impl {

}

/// An enum.
#[derive(Clone, Copy, PartialEq, Eq, Structural, Debug, Hash)]
pub struct Enum {
    pub ptr: SyntaxNodePtr,
}

impl AstNode for Enum {
    open spec fn castable(kind: SyntaxKind) -> bool {
        kind == SyntaxKind::ENUM
    }

    open spec fn spec_syntax(&self) -> SyntaxNodePtr {
        self.ptr
    }

    fn can_cast(kind: SyntaxKind) -> bool {
        kind == SyntaxKind::ENUM
    }

    fn cast(ptr: SyntaxNodePtr) -> Option<Self> {
        if Self::can_cast(ptr.kind) {
            Some(Enum { ptr })
        } else {
            None
        }
    }

    fn syntax(&self) -> SyntaxNodePtr {
        self.ptr
    }
}

impl AstIdNode for Enum {

}

/// A struct.
#[derive(Clone, Copy, PartialEq, Eq, Structural, Debug, Hash)]
pub struct Struct {
    pub ptr: SyntaxNodePtr,
}

impl AstNode for Struct {
    open spec fn castable(kind: SyntaxKind) -> bool {
        kind == SyntaxKind::STRUCT
    }

    open spec fn spec_syntax(&self) -> SyntaxNodePtr {
        self.ptr
    }

    fn can_cast(kind: SyntaxKind) -> bool {
        kind == SyntaxKind::STRUCT
    }

    fn cast(ptr: SyntaxNodePtr) -> Option<Self> {
        if Self::can_cast(ptr.kind) {
            Some(Struct { ptr })
        } else {
            None
        }
    }

    fn syntax(&self) -> SyntaxNodePtr {
        self.ptr
    }
}

impl AstIdNode for Struct {

}

/// A union.
#[derive(Clone, Copy, PartialEq, Eq, Structural, Debug, Hash)]
pub struct Union {
    pub ptr: SyntaxNodePtr,
}

impl AstNode for Union {
    open spec fn castable(kind: SyntaxKind) -> bool {
        kind == SyntaxKind::UNION
    }

    open spec fn spec_syntax(&self) -> SyntaxNodePtr {
        self.ptr
    }

    fn can_cast(kind: SyntaxKind) -> bool {
        kind == SyntaxKind::UNION
    }

    fn cast(ptr: SyntaxNodePtr) -> Option<Self> {
        if Self::can_cast(ptr.kind) {
            Some(Union { ptr })
        } else {
            None
        }
    }

    fn syntax(&self) -> SyntaxNodePtr {
        self.ptr
    }
}

impl AstIdNode for Union {

}

/// An extern crate item.
#[derive(Clone, Copy, PartialEq, Eq, Structural, Debug, Hash)]
pub struct ExternCrate {
    pub ptr: SyntaxNodePtr,
}

impl AstNode for ExternCrate {
    open spec fn castable(kind: SyntaxKind) -> bool {
        kind == SyntaxKind::EXTERN_CRATE
    }

    open spec fn spec_syntax(&self) -> SyntaxNodePtr {
        self.ptr
    }

    fn can_cast(kind: SyntaxKind) -> bool {
        kind == SyntaxKind::EXTERN_CRATE
    }

    fn cast(ptr: SyntaxNodePtr) -> Option<Self> {
        if Self::can_cast(ptr.kind) {
            Some(ExternCrate { ptr })
        } else {
            None
        }
    }

    fn syntax(&self) -> SyntaxNodePtr {
        self.ptr
    }
}

impl AstIdNode for ExternCrate {

}

/// A `macro` definition.
#[derive(Clone, Copy, PartialEq, Eq, Structural, Debug, Hash)]
pub struct MacroDef {
    pub ptr: SyntaxNodePtr,
}

impl AstNode for MacroDef {
    open spec fn castable(kind: SyntaxKind) -> bool {
        kind == SyntaxKind::MACRO_DEF
    }

    open spec fn spec_syntax(&self) -> SyntaxNodePtr {
        self.ptr
    }

    fn can_cast(kind: SyntaxKind) -> bool {
        kind == SyntaxKind::MACRO_DEF
    }

    fn cast(ptr: SyntaxNodePtr) -> Option<Self> {
        if Self::can_cast(ptr.kind) {
            Some(MacroDef { ptr })
        } else {
            None
        }
    }

    fn syntax(&self) -> SyntaxNodePtr {
        self.ptr
    }
}

impl AstIdNode for MacroDef {

}

/// A `macro_rules` definition.
#[derive(Clone, Copy, PartialEq, Eq, Structural, Debug, Hash)]
pub struct MacroRules {
    pub ptr: SyntaxNodePtr,
}

impl AstNode for MacroRules {
    open spec fn castable(kind: SyntaxKind) -> bool {
        kind == SyntaxKind::MACRO_RULES
    }

    open spec fn spec_syntax(&self) -> SyntaxNodePtr {
        self.ptr
    }

    fn can_cast(kind: SyntaxKind) -> bool {
        kind == SyntaxKind::MACRO_RULES
    }

    fn cast(ptr: SyntaxNodePtr) -> Option<Self> {
        if Self::can_cast(ptr.kind) {
            Some(MacroRules { ptr })
        } else {
            None
        }
    }

    fn syntax(&self) -> SyntaxNodePtr {
        self.ptr
    }
}

impl AstIdNode for MacroRules {

}

/// A module.
#[derive(Clone, Copy, PartialEq, Eq, Structural, Debug, Hash)]
pub struct Module {
    pub ptr: SyntaxNodePtr,
}

impl AstNode for Module {
    open spec fn castable(kind: SyntaxKind) -> bool {
        kind == SyntaxKind::MODULE
    }

    open spec fn spec_syntax(&self) -> SyntaxNodePtr {
        self.ptr
    }

    fn can_cast(kind: SyntaxKind) -> bool {
        kind == SyntaxKind::MODULE
    }

    fn cast(ptr: SyntaxNodePtr) -> Option<Self> {
        if Self::can_cast(ptr.kind) {
            Some(Module { ptr })
        } else {
            None
        }
    }

    fn syntax(&self) -> SyntaxNodePtr {
        self.ptr
    }
}

impl AstIdNode for Module {

}

/// A static.
#[derive(Clone, Copy, PartialEq, Eq, Structural, Debug, Hash)]
pub struct Static {
    pub ptr: SyntaxNodePtr,
}

impl AstNode for Static {
    open spec fn castable(kind: SyntaxKind) -> bool {
        kind == SyntaxKind::STATIC
    }

    open spec fn spec_syntax(&self) -> SyntaxNodePtr {
        self.ptr
    }

    fn can_cast(kind: SyntaxKind) -> bool {
        kind == SyntaxKind::STATIC
    }

    fn cast(ptr: SyntaxNodePtr) -> Option<Self> {
        if Self::can_cast(ptr.kind) {
            Some(Static { ptr })
        } else {
            None
        }
    }

    fn syntax(&self) -> SyntaxNodePtr {
        self.ptr
    }
}

impl AstIdNode for Static {

}

/// A trait.
#[derive(Clone, Copy, PartialEq, Eq, Structural, Debug, Hash)]
pub struct Trait {
    pub ptr: SyntaxNodePtr,
}

impl AstNode for Trait {
    open spec fn castable(kind: SyntaxKind) -> bool {
        kind == SyntaxKind::TRAIT
    }

    open spec fn spec_syntax(&self) -> SyntaxNodePtr {
        self.ptr
    }

    fn can_cast(kind: SyntaxKind) -> bool {
        kind == SyntaxKind::TRAIT
    }

    fn cast(ptr: SyntaxNodePtr) -> Option<Self> {
        if Self::can_cast(ptr.kind) {
            Some(Trait { ptr })
        } else {
            None
        }
    }

    fn syntax(&self) -> SyntaxNodePtr {
        self.ptr
    }
}

impl AstIdNode for Trait {

}

/// A variant of an enum.
#[derive(Clone, Copy, PartialEq, Eq, Structural, Debug, Hash)]
pub struct Variant {
    pub ptr: SyntaxNodePtr,
}

impl AstNode for Variant {
    open spec fn castable(kind: SyntaxKind) -> bool {
        kind == SyntaxKind::VARIANT
    }

    open spec fn spec_syntax(&self) -> SyntaxNodePtr {
        self.ptr
    }

    fn can_cast(kind: SyntaxKind) -> bool {
        kind == SyntaxKind::VARIANT
    }

    fn cast(ptr: SyntaxNodePtr) -> Option<Self> {
        if Self::can_cast(ptr.kind) {
            Some(Variant { ptr })
        } else {
            None
        }
    }

    fn syntax(&self) -> SyntaxNodePtr {
        self.ptr
    }
}

impl AstIdNode for Variant {

}

/// A constant.
#[derive(Clone, Copy, PartialEq, Eq, Structural, Debug, Hash)]
pub struct Const {
    pub ptr: SyntaxNodePtr,
}

impl AstNode for Const {
    open spec fn castable(kind: SyntaxKind) -> bool {
        kind == SyntaxKind::CONST
    }

    open spec fn spec_syntax(&self) -> SyntaxNodePtr {
        self.ptr
    }

    fn can_cast(kind: SyntaxKind) -> bool {
        kind == SyntaxKind::CONST
    }

    fn cast(ptr: SyntaxNodePtr) -> Option<Self> {
        if Self::can_cast(ptr.kind) {
            Some(Const { ptr })
        } else {
            None
        }
    }

    fn syntax(&self) -> SyntaxNodePtr {
        self.ptr
    }
}

impl AstIdNode for Const {

}

/// A function.
#[derive(Clone, Copy, PartialEq, Eq, Structural, Debug, Hash)]
pub struct Fn {
    pub ptr: SyntaxNodePtr,
}

impl AstNode for Fn {
    open spec fn castable(kind: SyntaxKind) -> bool {
        kind == SyntaxKind::FN
    }

    open spec fn spec_syntax(&self) -> SyntaxNodePtr {
        self.ptr
    }

    fn can_cast(kind: SyntaxKind) -> bool {
        kind == SyntaxKind::FN
    }

    fn cast(ptr: SyntaxNodePtr) -> Option<Self> {
        if Self::can_cast(ptr.kind) {
            Some(Fn { ptr })
        } else {
            None
        }
    }

    fn syntax(&self) -> SyntaxNodePtr {
        self.ptr
    }
}

impl AstIdNode for Fn {

}

/// A type alias.
#[derive(Clone, Copy, PartialEq, Eq, Structural, Debug, Hash)]
pub struct TypeAlias {
    pub ptr: SyntaxNodePtr,
}

impl AstNode for TypeAlias {
    open spec fn castable(kind: SyntaxKind) -> bool {
        kind == SyntaxKind::TYPE_ALIAS
    }

    open spec fn spec_syntax(&self) -> SyntaxNodePtr {
        self.ptr
    }

    fn can_cast(kind: SyntaxKind) -> bool {
        kind == SyntaxKind::TYPE_ALIAS
    }

    fn cast(ptr: SyntaxNodePtr) -> Option<Self> {
        if Self::can_cast(ptr.kind) {
            Some(TypeAlias { ptr })
        } else {
            None
        }
    }

    fn syntax(&self) -> SyntaxNodePtr {
        self.ptr
    }
}

impl AstIdNode for TypeAlias {

}

/// A macro call.
#[derive(Clone, Copy, PartialEq, Eq, Structural, Debug, Hash)]
pub struct MacroCall {
    pub ptr: SyntaxNodePtr,
}

impl AstNode for MacroCall {
    open spec fn castable(kind: SyntaxKind) -> bool {
        kind == SyntaxKind::MACRO_CALL
    }

    open spec fn spec_syntax(&self) -> SyntaxNodePtr {
        self.ptr
    }

    fn can_cast(kind: SyntaxKind) -> bool {
        kind == SyntaxKind::MACRO_CALL
    }

    fn cast(ptr: SyntaxNodePtr) -> Option<Self> {
        if Self::can_cast(ptr.kind) {
            Some(MacroCall { ptr })
        } else {
            None
        }
    }

    fn syntax(&self) -> SyntaxNodePtr {
        self.ptr
    }
}

impl AstIdNode for MacroCall {

}

/// A block. Not every block has an id, so it is no [`AstIdNode`].
#[derive(Clone, Copy, PartialEq, Eq, Structural, Debug, Hash)]
pub struct BlockExpr {
    pub ptr: SyntaxNodePtr,
}

impl AstNode for BlockExpr {
    open spec fn castable(kind: SyntaxKind) -> bool {
        kind == SyntaxKind::BLOCK_EXPR
    }

    open spec fn spec_syntax(&self) -> SyntaxNodePtr {
        self.ptr
    }

    fn can_cast(kind: SyntaxKind) -> bool {
        kind == SyntaxKind::BLOCK_EXPR
    }

    fn cast(ptr: SyntaxNodePtr) -> Option<Self> {
        if Self::can_cast(ptr.kind) {
            Some(BlockExpr { ptr })
        } else {
            None
        }
    }

    fn syntax(&self) -> SyntaxNodePtr {
        self.ptr
    }
}

/// A struct, enum or union.
#[derive(Clone, Copy, PartialEq, Eq, Structural, Debug, Hash)]
pub struct Adt {
    pub ptr: SyntaxNodePtr,
}

impl AstNode for Adt {
    open spec fn castable(kind: SyntaxKind) -> bool {
        ||| kind == SyntaxKind::ENUM
        ||| kind == SyntaxKind::STRUCT
        ||| kind == SyntaxKind::UNION
    }

    open spec fn spec_syntax(&self) -> SyntaxNodePtr {
        self.ptr
    }

    fn can_cast(kind: SyntaxKind) -> bool {
        matches!(
            kind,
            SyntaxKind::ENUM
                | SyntaxKind::STRUCT
                | SyntaxKind::UNION
        )
    }

    fn cast(ptr: SyntaxNodePtr) -> Option<Self> {
        if Self::can_cast(ptr.kind) {
            Some(Adt { ptr })
        } else {
            None
        }
    }

    fn syntax(&self) -> SyntaxNodePtr {
        self.ptr
    }
}

impl AstIdNode for Adt {

}

/// A macro definition of either sort.
#[derive(Clone, Copy, PartialEq, Eq, Structural, Debug, Hash)]
pub struct Macro {
    pub ptr: SyntaxNodePtr,
}

impl AstNode for Macro {
    open spec fn castable(kind: SyntaxKind) -> bool {
        ||| kind == SyntaxKind::MACRO_DEF
        ||| kind == SyntaxKind::MACRO_RULES
    }

    open spec fn spec_syntax(&self) -> SyntaxNodePtr {
        self.ptr
    }

    fn can_cast(kind: SyntaxKind) -> bool {
        matches!(
            kind,
            SyntaxKind::MACRO_DEF
                | SyntaxKind::MACRO_RULES
        )
    }

    fn cast(ptr: SyntaxNodePtr) -> Option<Self> {
        if Self::can_cast(ptr.kind) {
            Some(Macro { ptr })
        } else {
            None
        }
    }

    fn syntax(&self) -> SyntaxNodePtr {
        self.ptr
    }
}

impl AstIdNode for Macro {

}

/// An item that can stand in a trait or an impl.
#[derive(Clone, Copy, PartialEq, Eq, Structural, Debug, Hash)]
pub struct AssocItem {
    pub ptr: SyntaxNodePtr,
}

impl AstNode for AssocItem {
    open spec fn castable(kind: SyntaxKind) -> bool {
        ||| kind == SyntaxKind::CONST
        ||| kind == SyntaxKind::FN
        ||| kind == SyntaxKind::MACRO_CALL
        ||| kind == SyntaxKind::TYPE_ALIAS
    }

    open spec fn spec_syntax(&self) -> SyntaxNodePtr {
        self.ptr
    }

    fn can_cast(kind: SyntaxKind) -> bool {
        matches!(
            kind,
            SyntaxKind::CONST
                | SyntaxKind::FN
                | SyntaxKind::MACRO_CALL
                | SyntaxKind::TYPE_ALIAS
        )
    }

    fn cast(ptr: SyntaxNodePtr) -> Option<Self> {
        if Self::can_cast(ptr.kind) {
            Some(AssocItem { ptr })
        } else {
            None
        }
    }

    fn syntax(&self) -> SyntaxNodePtr {
        self.ptr
    }
}

impl AstIdNode for AssocItem {

}

/// Anything with generic parameters.
#[derive(Clone, Copy, PartialEq, Eq, Structural, Debug, Hash)]
pub struct AnyHasGenericParams {
    pub ptr: SyntaxNodePtr,
}

impl AstNode for AnyHasGenericParams {
    open spec fn castable(kind: SyntaxKind) -> bool {
        ||| kind == SyntaxKind::ENUM
        ||| kind == SyntaxKind::FN
        ||| kind == SyntaxKind::IMPL
        ||| kind == SyntaxKind::STRUCT
        ||| kind == SyntaxKind::TRAIT
        ||| kind == SyntaxKind::TYPE_ALIAS
        ||| kind == SyntaxKind::UNION
    }

    open spec fn spec_syntax(&self) -> SyntaxNodePtr {
        self.ptr
    }

    fn can_cast(kind: SyntaxKind) -> bool {
        matches!(
            kind,
            SyntaxKind::ENUM
                | SyntaxKind::FN
                | SyntaxKind::IMPL
                | SyntaxKind::STRUCT
                | SyntaxKind::TRAIT
                | SyntaxKind::TYPE_ALIAS
                | SyntaxKind::UNION
        )
    }

    fn cast(ptr: SyntaxNodePtr) -> Option<Self> {
        if Self::can_cast(ptr.kind) {
            Some(AnyHasGenericParams { ptr })
        } else {
            None
        }
    }

    fn syntax(&self) -> SyntaxNodePtr {
        self.ptr
    }
}

impl AstIdNode for AnyHasGenericParams {

}

/// Any item.
#[derive(Clone, Copy, PartialEq, Eq, Structural, Debug, Hash)]
pub struct Item {
    pub ptr: SyntaxNodePtr,
}

impl AstNode for Item {
    open spec fn castable(kind: SyntaxKind) -> bool {
        ||| kind == SyntaxKind::ASM_EXPR
        ||| kind == SyntaxKind::CONST
        ||| kind == SyntaxKind::ENUM
        ||| kind == SyntaxKind::EXTERN_BLOCK
        ||| kind == SyntaxKind::EXTERN_CRATE
        ||| kind == SyntaxKind::FN
        ||| kind == SyntaxKind::IMPL
        ||| kind == SyntaxKind::MACRO_CALL
        ||| kind == SyntaxKind::MACRO_DEF
        ||| kind == SyntaxKind::MACRO_RULES
        ||| kind == SyntaxKind::MODULE
        ||| kind == SyntaxKind::STATIC
        ||| kind == SyntaxKind::STRUCT
        ||| kind == SyntaxKind::TRAIT
        ||| kind == SyntaxKind::TYPE_ALIAS
        ||| kind == SyntaxKind::UNION
        ||| kind == SyntaxKind::USE
    }

    open spec fn spec_syntax(&self) -> SyntaxNodePtr {
        self.ptr
    }

    fn can_cast(kind: SyntaxKind) -> bool {
        matches!(
            kind,
            SyntaxKind::ASM_EXPR
                | SyntaxKind::CONST
                | SyntaxKind::ENUM
                | SyntaxKind::EXTERN_BLOCK
                | SyntaxKind::EXTERN_CRATE
                | SyntaxKind::FN
                | SyntaxKind::IMPL
                | SyntaxKind::MACRO_CALL
                | SyntaxKind::MACRO_DEF
                | SyntaxKind::MACRO_RULES
                | SyntaxKind::MODULE
                | SyntaxKind::STATIC
                | SyntaxKind::STRUCT
                | SyntaxKind::TRAIT
                | SyntaxKind::TYPE_ALIAS
                | SyntaxKind::UNION
                | SyntaxKind::USE
        )
    }

    fn cast(ptr: SyntaxNodePtr) -> Option<Self> {
        if Self::can_cast(ptr.kind) {
            Some(Item { ptr })
        } else {
            None
        }
    }

    fn syntax(&self) -> SyntaxNodePtr {
        self.ptr
    }
}

impl AstIdNode for Item {

}

impl From<Enum> for Adt {
    fn from(node: Enum) -> (r: Adt) {
        Adt { ptr: node.ptr }
    }
}

impl FromSpecImpl<Enum> for Adt {
    open spec fn obeys_from_spec() -> bool {
        true
    }

    open spec fn from_spec(node: Enum) -> Adt {
        Adt { ptr: node.ptr }
    }
}

impl From<Struct> for Adt {
    fn from(node: Struct) -> (r: Adt) {
        Adt { ptr: node.ptr }
    }
}

impl FromSpecImpl<Struct> for Adt {
    open spec fn obeys_from_spec() -> bool {
        true
    }

    open spec fn from_spec(node: Struct) -> Adt {
        Adt { ptr: node.ptr }
    }
}

impl From<Union> for Adt {
    fn from(node: Union) -> (r: Adt) {
        Adt { ptr: node.ptr }
    }
}

impl FromSpecImpl<Union> for Adt {
    open spec fn obeys_from_spec() -> bool {
        true
    }

    open spec fn from_spec(node: Union) -> Adt {
        Adt { ptr: node.ptr }
    }
}

impl From<Const> for AssocItem {
    fn from(node: Const) -> (r: AssocItem) {
        AssocItem { ptr: node.ptr }
    }
}

impl FromSpecImpl<Const> for AssocItem {
    open spec fn obeys_from_spec() -> bool {
        true
    }

    open spec fn from_spec(node: Const) -> AssocItem {
        AssocItem { ptr: node.ptr }
    }
}

impl From<Fn> for AssocItem {
    fn from(node: Fn) -> (r: AssocItem) {
        AssocItem { ptr: node.ptr }
    }
}

impl FromSpecImpl<Fn> for AssocItem {
    open spec fn obeys_from_spec() -> bool {
        true
    }

    open spec fn from_spec(node: Fn) -> AssocItem {
        AssocItem { ptr: node.ptr }
    }
}

impl From<MacroCall> for AssocItem {
    fn from(node: MacroCall) -> (r: AssocItem) {
        AssocItem { ptr: node.ptr }
    }
}

impl FromSpecImpl<MacroCall> for AssocItem {
    open spec fn obeys_from_spec() -> bool {
        true
    }

    open spec fn from_spec(node: MacroCall) -> AssocItem {
        AssocItem { ptr: node.ptr }
    }
}

impl From<TypeAlias> for AssocItem {
    fn from(node: TypeAlias) -> (r: AssocItem) {
        AssocItem { ptr: node.ptr }
    }
}

impl FromSpecImpl<TypeAlias> for AssocItem {
    open spec fn obeys_from_spec() -> bool {
        true
    }

    open spec fn from_spec(node: TypeAlias) -> AssocItem {
        AssocItem { ptr: node.ptr }
    }
}

impl From<MacroDef> for Macro {
    fn from(node: MacroDef) -> (r: Macro) {
        Macro { ptr: node.ptr }
    }
}

impl FromSpecImpl<MacroDef> for Macro {
    open spec fn obeys_from_spec() -> bool {
        true
    }

    open spec fn from_spec(node: MacroDef) -> Macro {
        Macro { ptr: node.ptr }
    }
}

impl From<MacroRules> for Macro {
    fn from(node: MacroRules) -> (r: Macro) {
        Macro { ptr: node.ptr }
    }
}

impl FromSpecImpl<MacroRules> for Macro {
    open spec fn obeys_from_spec() -> bool {
        true
    }

    open spec fn from_spec(node: MacroRules) -> Macro {
        Macro { ptr: node.ptr }
    }
}

impl From<Adt> for Item {
    fn from(node: Adt) -> (r: Item) {
        Item { ptr: node.ptr }
    }
}

impl FromSpecImpl<Adt> for Item {
    open spec fn obeys_from_spec() -> bool {
        true
    }

    open spec fn from_spec(node: Adt) -> Item {
        Item { ptr: node.ptr }
    }
}

impl From<AssocItem> for Item {
    fn from(node: AssocItem) -> (r: Item) {
        Item { ptr: node.ptr }
    }
}

impl FromSpecImpl<AssocItem> for Item {
    open spec fn obeys_from_spec() -> bool {
        true
    }

    open spec fn from_spec(node: AssocItem) -> Item {
        Item { ptr: node.ptr }
    }
}

impl From<Macro> for Item {
    fn from(node: Macro) -> (r: Item) {
        Item { ptr: node.ptr }
    }
}

impl FromSpecImpl<Macro> for Item {
    open spec fn obeys_from_spec() -> bool {
        true
    }

    open spec fn from_spec(node: Macro) -> Item {
        Item { ptr: node.ptr }
    }
}

impl From<Module> for Item {
    fn from(node: Module) -> (r: Item) {
        Item { ptr: node.ptr }
    }
}

impl FromSpecImpl<Module> for Item {
    open spec fn obeys_from_spec() -> bool {
        true
    }

    open spec fn from_spec(node: Module) -> Item {
        Item { ptr: node.ptr }
    }
}

impl From<Trait> for Item {
    fn from(node: Trait) -> (r: Item) {
        Item { ptr: node.ptr }
    }
}

impl FromSpecImpl<Trait> for Item {
    open spec fn obeys_from_spec() -> bool {
        true
    }

    open spec fn from_spec(node: Trait) -> Item {
        Item { ptr: node.ptr }
    }
}

impl From<Impl> for Item {
    fn from(node: Impl) -> (r: Item) {
        Item { ptr: node.ptr }
    }
}

impl FromSpecImpl<Impl> for Item {
    open spec fn obeys_from_spec() -> bool {
        true
    }

    open spec fn from_spec(node: Impl) -> Item {
        Item { ptr: node.ptr }
    }
}

} // verus!
