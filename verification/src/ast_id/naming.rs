//! What the ids of nodes are made from, told by how the nodes are written.

use super::erased::{ErasedFileAstId, ErasedFileAstIdKind};
use super::identity;
use super::identity::SpecIdentity;
use crate::green::{GreenElement, GreenNode, GreenToken};
use crate::syntax_kind::SyntaxKind;
use vstd::prelude::*;

verus! {

/// The first child node of the kind, at the place `i`.
pub open spec fn is_first(n: GreenNode, i: int, kind: SyntaxKind, child: GreenNode) -> bool {
    let c = n.children@;
    &&& 0 <= i < c.len()
    &&& c[i] == GreenElement::Node(child)
    &&& child.kind == kind
    &&& forall|j: int| #![trigger c[j]] 0 <= j < i && c[j] is Node ==> c[j]->Node_0.kind != kind
}

/// No child node is of the kind.
pub open spec fn has_no_child(n: GreenNode, kind: SyntaxKind) -> bool {
    forall|j: int|
        #![trigger n.children@[j]]
        0 <= j < n.children@.len() && n.children@[j] is Node ==> n.children@[j]->Node_0.kind != kind
}

/// Whether a node starts with the token.
pub open spec fn starts_with(n: GreenNode, t: GreenToken) -> bool {
    n.children@.len() > 0 && n.children@[0] == GreenElement::Token(t)
}

/// Whether the node is written with the name `t`, in the child at the place `i`.
pub open spec fn is_named(n: GreenNode, i: int, name: GreenNode, t: GreenToken) -> bool {
    is_first(n, i, SyntaxKind::NAME, name) && starts_with(name, t)
}

proof fn lemma_first_child(c: Seq<GreenElement>, kind: SyntaxKind, i: int)
    requires
        0 <= i < c.len(),
        c[i] is Node && c[i]->Node_0.kind == kind,
        forall|j: int| #![trigger c[j]] 0 <= j < i && c[j] is Node ==> c[j]->Node_0.kind != kind,
    ensures
        identity::first_child(c, kind) == Some(c[i]->Node_0),
        identity::leading_text(c[i]->Node_0) is Some ==> identity::first_child_text(c, kind)
            == identity::leading_text(c[i]->Node_0),
    decreases i,
{
    if i > 0 {
        let rest = c.skip(1);
        assert forall|j: int| #![trigger rest[j]] 0 <= j < i - 1 && rest[j] is Node implies
            rest[j]->Node_0.kind != kind by {
            assert(rest[j] == c[j + 1]);
        }
        assert(rest[i - 1] == c[i]);
        lemma_first_child(rest, kind, i - 1);
        assert(c[0] is Node ==> c[0]->Node_0.kind != kind);
    }
}

proof fn lemma_no_child(c: Seq<GreenElement>, kind: SyntaxKind)
    requires
        forall|j: int|
            #![trigger c[j]]
            0 <= j < c.len() && c[j] is Node ==> c[j]->Node_0.kind != kind,
    ensures
        identity::first_child(c, kind) is None,
        identity::first_child_text(c, kind) is None,
    decreases c.len(),
{
    if c.len() > 0 {
        let rest = c.skip(1);
        assert forall|j: int| #![trigger rest[j]] 0 <= j < rest.len() && rest[j] is Node implies
            rest[j]->Node_0.kind != kind by {
            assert(rest[j] == c[j + 1]);
        }
        lemma_no_child(rest, kind);
        assert(c[0] is Node ==> c[0]->Node_0.kind != kind);
    }
}

/// The kinds of nodes that are known by their name alone.
pub open spec fn is_known_by_name(kind: SyntaxKind) -> bool {
    ||| kind == SyntaxKind::ENUM
    ||| kind == SyntaxKind::STRUCT
    ||| kind == SyntaxKind::UNION
    ||| kind == SyntaxKind::MACRO_DEF
    ||| kind == SyntaxKind::MACRO_RULES
    ||| kind == SyntaxKind::MODULE
    ||| kind == SyntaxKind::STATIC
    ||| kind == SyntaxKind::TRAIT
}

/// The kinds of nodes that are known by their name and by what they are in.
pub open spec fn is_known_by_place(kind: SyntaxKind) -> bool {
    ||| kind == SyntaxKind::VARIANT
    ||| kind == SyntaxKind::CONST
    ||| kind == SyntaxKind::FN
    ||| kind == SyntaxKind::TYPE_ALIAS
}

/// A struct, an enum, a union, a module, a trait, a static and a macro are known by exactly the name
/// that is written, wherever they stand. Without a name they are known by the empty one.
pub proof fn items_are_known_by_their_names(
    n: GreenNode,
    parent: Option<ErasedFileAstId>,
    i: int,
    name: GreenNode,
    t: GreenToken,
)
    requires
        is_known_by_name(n.kind),
    ensures
        is_named(n, i, name, t) ==> identity::spec_identity(n, parent) == SpecIdentity::HasName(
            t.text@,
        ),
        has_no_child(n, SyntaxKind::NAME) ==> identity::spec_identity(n, parent)
            == SpecIdentity::HasName(""@),
{
    if is_named(n, i, name, t) {
        lemma_first_child(n.children@, SyntaxKind::NAME, i);
    }
    if has_no_child(n, SyntaxKind::NAME) {
        lemma_no_child(n.children@, SyntaxKind::NAME);
    }
}

/// An extern crate is known by the name of the crate, not by the one it is renamed to.
pub proof fn extern_crates_are_known_by_the_crate(
    n: GreenNode,
    parent: Option<ErasedFileAstId>,
    i: int,
    name: GreenNode,
    t: GreenToken,
)
    requires
        n.kind == SyntaxKind::EXTERN_CRATE,
        is_first(n, i, SyntaxKind::NAME_REF, name),
        starts_with(name, t),
    ensures
        identity::spec_identity(n, parent) == SpecIdentity::HasName(t.text@),
{
    lemma_first_child(n.children@, SyntaxKind::NAME_REF, i);
}

/// A function, a constant, a type alias and a variant are known by the name that is written and by the
/// id of what they are in.
pub proof fn nested_items_are_known_by_name_and_parent(
    n: GreenNode,
    parent: Option<ErasedFileAstId>,
    i: int,
    name: GreenNode,
    t: GreenToken,
)
    requires
        is_known_by_place(n.kind),
    ensures
        is_named(n, i, name, t) ==> identity::spec_identity(n, parent) == SpecIdentity::AssocItem(
            parent,
            t.text@,
        ),
        has_no_child(n, SyntaxKind::NAME) ==> identity::spec_identity(n, parent)
            == SpecIdentity::AssocItem(parent, ""@),
{
    if is_named(n, i, name, t) {
        lemma_first_child(n.children@, SyntaxKind::NAME, i);
    }
    if has_no_child(n, SyntaxKind::NAME) {
        lemma_no_child(n.children@, SyntaxKind::NAME);
    }
}

/// Where the last segment of the path of a node is written: the places of the path, of the segment and
/// of its name.
pub ghost struct PathName {
    pub i: int,
    pub path: GreenNode,
    pub j: int,
    pub segment: GreenNode,
    pub k: int,
    pub name: GreenNode,
    pub token: GreenToken,
}

impl PathName {
    pub open spec fn is_in(self, n: GreenNode) -> bool {
        &&& is_first(n, self.i, SyntaxKind::PATH, self.path)
        &&& is_first(self.path, self.j, SyntaxKind::PATH_SEGMENT, self.segment)
        &&& is_first(self.segment, self.k, SyntaxKind::NAME_REF, self.name)
        &&& starts_with(self.name, self.token)
    }
}

proof fn lemma_path(n: GreenNode, p: PathName)
    requires
        p.is_in(n),
    ensures
        identity::spec_macro_call_name(n) == p.token.text@,
        n.kind == SyntaxKind::PATH_TYPE ==> identity::spec_path_type_name(n) == Some(p.token.text@),
{
    lemma_first_child(n.children@, SyntaxKind::PATH, p.i);
    lemma_first_child(p.path.children@, SyntaxKind::PATH_SEGMENT, p.j);
    lemma_first_child(p.segment.children@, SyntaxKind::NAME_REF, p.k);
}

/// A macro call is known by the name of the macro, without the path in front, and by the id of what it
/// is in. Without a path the name is empty.
pub proof fn macro_calls_are_known_by_the_macro(
    n: GreenNode,
    parent: Option<ErasedFileAstId>,
    p: PathName,
)
    requires
        n.kind == SyntaxKind::MACRO_CALL,
    ensures
        p.is_in(n) ==> identity::spec_identity(n, parent) == SpecIdentity::AssocItem(
            parent,
            p.token.text@,
        ),
        has_no_child(n, SyntaxKind::PATH) ==> identity::spec_identity(n, parent)
            == SpecIdentity::AssocItem(parent, ""@),
{
    if p.is_in(n) {
        lemma_path(n, p);
    }
    if has_no_child(n, SyntaxKind::PATH) {
        lemma_no_child(n.children@, SyntaxKind::PATH);
    }
}

// Impls.

/// The kinds of nodes that are types.
pub open spec fn is_type(kind: SyntaxKind) -> bool {
    ||| kind == SyntaxKind::ARRAY_TYPE
    ||| kind == SyntaxKind::DYN_TRAIT_TYPE
    ||| kind == SyntaxKind::FN_PTR_TYPE
    ||| kind == SyntaxKind::FOR_TYPE
    ||| kind == SyntaxKind::IMPL_TRAIT_TYPE
    ||| kind == SyntaxKind::INFER_TYPE
    ||| kind == SyntaxKind::MACRO_TYPE
    ||| kind == SyntaxKind::NEVER_TYPE
    ||| kind == SyntaxKind::PAREN_TYPE
    ||| kind == SyntaxKind::PATH_TYPE
    ||| kind == SyntaxKind::PTR_TYPE
    ||| kind == SyntaxKind::REF_TYPE
    ||| kind == SyntaxKind::SLICE_TYPE
    ||| kind == SyntaxKind::TUPLE_TYPE
}

/// Whether the element is a type.
pub open spec fn is_type_at(c: Seq<GreenElement>, i: int) -> bool {
    0 <= i < c.len() && c[i] is Node && is_type(c[i]->Node_0.kind)
}

/// Whether the type is written as a path that ends in the name. Other types have no name.
pub open spec fn type_has_name(ty: GreenNode, name: Option<Seq<char>>) -> bool {
    match name {
        Some(text) => ty.kind == SyntaxKind::PATH_TYPE && exists|p: PathName| #[trigger]
            p.is_in(ty) && p.token.text@ == text,
        None => ty.kind != SyntaxKind::PATH_TYPE,
    }
}

proof fn lemma_type_name(ty: GreenNode, name: Option<Seq<char>>)
    requires
        type_has_name(ty, name),
    ensures
        identity::spec_path_type_name(ty) == name,
{
    if let Some(text) = name {
        let p = choose|p: PathName| #[trigger] p.is_in(ty) && p.token.text@ == text;
        lemma_path(ty, p);
    }
}

proof fn lemma_types(c: Seq<GreenElement>, n: int, a: int)
    requires
        0 <= n <= c.len(),
        forall|i: int| #![trigger c[i]] 0 <= i < n && i != a ==> !is_type_at(c, i),
        is_type_at(c, a),
    ensures
        identity::type_children(c.take(n)) == if a < n {
            seq![c[a]->Node_0]
        } else {
            Seq::empty()
        },
    decreases n,
{
    if n > 0 {
        assert(c.take(n).drop_last() =~= c.take(n - 1));
        assert(c.take(n).last() == c[n - 1]);
        lemma_types(c, n - 1, a);
        assert(n - 1 != a ==> !is_type_at(c, n - 1));
        assert(Seq::<GreenNode>::empty().push(c[a]->Node_0) =~= seq![c[a]->Node_0]);
    } else {
        assert(c.take(n).len() == 0);
    }
}

proof fn lemma_two_types(c: Seq<GreenElement>, n: int, a: int, b: int)
    requires
        0 <= n <= c.len(),
        a < b,
        forall|i: int| #![trigger c[i]] 0 <= i < n && i != a && i != b ==> !is_type_at(c, i),
        is_type_at(c, a),
        is_type_at(c, b),
        b < n,
    ensures
        identity::type_children(c.take(n)) == seq![c[a]->Node_0, c[b]->Node_0],
    decreases n,
{
    assert(c.take(n).drop_last() =~= c.take(n - 1));
    assert(c.take(n).last() == c[n - 1]);
    if b == n - 1 {
        lemma_types(c, n - 1, a);
        assert(seq![c[a]->Node_0].push(c[b]->Node_0) =~= seq![c[a]->Node_0, c[b]->Node_0]);
    } else {
        lemma_two_types(c, n - 1, a, b);
        assert(!is_type_at(c, n - 1));
    }
}

/// An impl with one type and without a `for` is known by the name of that type.
pub proof fn inherent_impls_are_known_by_their_type(
    n: GreenNode,
    parent: Option<ErasedFileAstId>,
    a: int,
    name: Option<Seq<char>>,
)
    requires
        n.kind == SyntaxKind::IMPL,
        is_type_at(n.children@, a),
        forall|i: int|
            #![trigger n.children@[i]]
            0 <= i < n.children@.len() && i != a ==> !is_type_at(n.children@, i),
        forall|i: int|
            #![trigger n.children@[i]]
            0 <= i < n.children@.len() && n.children@[i] is Token ==> n.children@[i]->Token_0.kind
                != SyntaxKind::FOR_KW,
        type_has_name(n.children@[a]->Node_0, name),
    ensures
        identity::spec_identity(n, parent) == SpecIdentity::Impl(name, None),
{
    let c = n.children@;
    lemma_types(c, c.len() as int, a);
    assert(c.take(c.len() as int) =~= c);
    lemma_type_name(c[a]->Node_0, name);
}

/// An impl with two types and a `for` is known by the names of both: that of the second, which it is
/// for, and that of the first, which is the trait.
pub proof fn trait_impls_are_known_by_type_and_trait(
    n: GreenNode,
    parent: Option<ErasedFileAstId>,
    a: int,
    f: int,
    b: int,
    trait_name: Option<Seq<char>>,
    type_name_: Option<Seq<char>>,
)
    requires
        n.kind == SyntaxKind::IMPL,
        a < b,
        is_type_at(n.children@, a),
        is_type_at(n.children@, b),
        forall|i: int|
            #![trigger n.children@[i]]
            0 <= i < n.children@.len() && i != a && i != b ==> !is_type_at(n.children@, i),
        0 <= f < n.children@.len(),
        n.children@[f] is Token && n.children@[f]->Token_0.kind == SyntaxKind::FOR_KW,
        type_has_name(n.children@[a]->Node_0, trait_name),
        type_has_name(n.children@[b]->Node_0, type_name_),
    ensures
        identity::spec_identity(n, parent) == SpecIdentity::Impl(type_name_, trait_name),
{
    let c = n.children@;
    lemma_two_types(c, c.len() as int, a, b);
    assert(c.take(c.len() as int) =~= c);
    assert(identity::has_token(c, SyntaxKind::FOR_KW)) by {
        assert(c[f] is Token);
    }
    lemma_type_name(c[a]->Node_0, trait_name);
    lemma_type_name(c[b]->Node_0, type_name_);
}

/// An extern block, a use and inline assembly are known by nothing but their number.
pub proof fn some_nodes_are_only_counted(n: GreenNode, parent: Option<ErasedFileAstId>)
    requires
        n.kind == SyntaxKind::EXTERN_BLOCK || n.kind == SyntaxKind::USE || n.kind
            == SyntaxKind::ASM_EXPR,
    ensures
        identity::spec_identity(n, parent) == SpecIdentity::Nameless,
{
}

// The kinds of ids.

/// Which nodes get an id in any case, and of which kind.
pub open spec fn gets(kind: SyntaxKind, id_kind: ErasedFileAstIdKind) -> bool {
    ||| kind == SyntaxKind::ENUM && id_kind == ErasedFileAstIdKind::Enum
    ||| kind == SyntaxKind::STRUCT && id_kind == ErasedFileAstIdKind::Struct
    ||| kind == SyntaxKind::UNION && id_kind == ErasedFileAstIdKind::Union
    ||| kind == SyntaxKind::EXTERN_CRATE && id_kind == ErasedFileAstIdKind::ExternCrate
    ||| kind == SyntaxKind::MACRO_DEF && id_kind == ErasedFileAstIdKind::MacroDef
    ||| kind == SyntaxKind::MACRO_RULES && id_kind == ErasedFileAstIdKind::MacroRules
    ||| kind == SyntaxKind::MODULE && id_kind == ErasedFileAstIdKind::Module
    ||| kind == SyntaxKind::STATIC && id_kind == ErasedFileAstIdKind::Static
    ||| kind == SyntaxKind::TRAIT && id_kind == ErasedFileAstIdKind::Trait
    ||| kind == SyntaxKind::VARIANT && id_kind == ErasedFileAstIdKind::Variant
    ||| kind == SyntaxKind::CONST && id_kind == ErasedFileAstIdKind::Const
    ||| kind == SyntaxKind::FN && id_kind == ErasedFileAstIdKind::Fn
    ||| kind == SyntaxKind::MACRO_CALL && id_kind == ErasedFileAstIdKind::MacroCall
    ||| kind == SyntaxKind::TYPE_ALIAS && id_kind == ErasedFileAstIdKind::TypeAlias
    ||| kind == SyntaxKind::EXTERN_BLOCK && id_kind == ErasedFileAstIdKind::ExternBlock
    ||| kind == SyntaxKind::USE && id_kind == ErasedFileAstIdKind::Use
    ||| kind == SyntaxKind::IMPL && id_kind == ErasedFileAstIdKind::Impl
    ||| kind == SyntaxKind::ASM_EXPR && id_kind == ErasedFileAstIdKind::AsmExpr
}

/// The kind of an id is that of its node, and other nodes get none of their own.
pub proof fn ids_have_the_kinds_of_their_nodes(kind: SyntaxKind, id_kind: ErasedFileAstIdKind)
    ensures
        gets(kind, id_kind) <==> identity::spec_should_alloc(kind) == Some(id_kind),
{
}

} // verus!
