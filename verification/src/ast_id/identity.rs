//! What an id is made from: the names that tell the nodes of one kind apart.

use super::erased::{ErasedFileAstId, ErasedFileAstIdKind};
use super::index_map;
use crate::fx;
use crate::green::{GreenElement, GreenNode};
use crate::syntax_kind::SyntaxKind;
use vstd::prelude::*;

verus! {

/// The first child node of the given kind.
pub open spec fn first_child(c: Seq<GreenElement>, kind: SyntaxKind) -> Option<GreenNode>
    decreases c.len(),
{
    if c.len() == 0 {
        None
    } else {
        match c[0] {
            GreenElement::Node(n) if n.kind == kind => Some(n),
            _ => first_child(c.skip(1), kind),
        }
    }
}

/// The text of the token that a node starts with, if it starts with a token.
pub open spec fn leading_text(n: GreenNode) -> Option<Seq<char>> {
    if n.children@.len() > 0 {
        match n.children@[0] {
            GreenElement::Token(t) => Some(t.text@),
            GreenElement::Node(_) => None,
        }
    } else {
        None
    }
}

/// The text at the start of the first child node of the given kind that starts with a token.
pub open spec fn first_child_text(c: Seq<GreenElement>, kind: SyntaxKind) -> Option<Seq<char>>
    decreases c.len(),
{
    if c.len() == 0 {
        None
    } else {
        match c[0] {
            GreenElement::Node(n) if n.kind == kind && leading_text(n) is Some => leading_text(n),
            _ => first_child_text(c.skip(1), kind),
        }
    }
}

/// The name of an item: the empty text where it has none.
pub open spec fn spec_direct_child_text(n: GreenNode, kind: SyntaxKind) -> Seq<char> {
    match first_child_text(n.children@, kind) {
        Some(t) => t,
        None => ""@,
    }
}

/// The last segment of the path of a macro call, or the empty text.
pub open spec fn spec_macro_call_name(n: GreenNode) -> Seq<char> {
    match first_child(n.children@, SyntaxKind::PATH) {
        Some(path) => match first_child(path.children@, SyntaxKind::PATH_SEGMENT) {
            Some(segment) => match first_child(segment.children@, SyntaxKind::NAME_REF) {
                Some(name_ref) => match leading_text(name_ref) {
                    Some(t) => t,
                    None => ""@,
                },
                None => ""@,
            },
            None => ""@,
        },
        None => ""@,
    }
}

/// The last segment of the path that a type consists of.
pub open spec fn spec_path_type_name(n: GreenNode) -> Option<Seq<char>> {
    if n.kind != SyntaxKind::PATH_TYPE {
        None
    } else {
        match first_child(n.children@, SyntaxKind::PATH) {
            Some(path) => match first_child(path.children@, SyntaxKind::PATH_SEGMENT) {
                Some(segment) => first_child_text(segment.children@, SyntaxKind::NAME_REF),
                None => None,
            },
            None => None,
        }
    }
}

pub open spec fn is_type_kind(kind: SyntaxKind) -> bool {
    ||| kind == SyntaxKind::ARRAY_TYPE
    ||| kind == SyntaxKind::DYN_TRAIT_TYPE
    ||| kind == SyntaxKind::FN_PTR_TYPE
    ||| kind == SyntaxKind::FOR_TYPE
    ||| kind == SyntaxKind::IMPL_TRAIT_TYPE
    ||| kind == SyntaxKind::INFER_TYPE
    ||| kind == SyntaxKind::MACRO_TYPE
    ||| kind == SyntaxKind::NEVER_TYPE
    ||| kind == SyntaxKind::PAREN_TYPE
    ||| kind == SyntaxKind::PATH_TYPE
    ||| kind == SyntaxKind::PTR_TYPE
    ||| kind == SyntaxKind::REF_TYPE
    ||| kind == SyntaxKind::SLICE_TYPE
    ||| kind == SyntaxKind::TUPLE_TYPE
}

/// The child nodes that are types.
pub open spec fn type_children(c: Seq<GreenElement>) -> Seq<GreenNode>
    decreases c.len(),
{
    if c.len() == 0 {
        Seq::empty()
    } else {
        match c.last() {
            GreenElement::Node(n) if is_type_kind(n.kind) => type_children(c.drop_last()).push(n),
            _ => type_children(c.drop_last()),
        }
    }
}

pub open spec fn has_token(c: Seq<GreenElement>, kind: SyntaxKind) -> bool {
    exists|i: int|
        0 <= i < c.len() && (#[trigger] c[i] matches GreenElement::Token(t) && t.kind == kind)
}

pub open spec fn type_name_at(types: Seq<GreenNode>, i: int) -> Option<Seq<char>> {
    if i < types.len() {
        spec_path_type_name(types[i])
    } else {
        None
    }
}

/// The names of an impl: first that of the type it is for, then that of the trait. Without a `for`
/// there is no trait.
pub open spec fn impl_names(n: GreenNode) -> (Option<Seq<char>>, Option<Seq<char>>) {
    let types = type_children(n.children@);
    if has_token(n.children@, SyntaxKind::FOR_KW) {
        (type_name_at(types, 1), type_name_at(types, 0))
    } else {
        (type_name_at(types, 0), None)
    }
}

pub(crate) fn find_child<'a>(n: &'a GreenNode, kind: SyntaxKind) -> (r: Option<&'a GreenNode>)
    ensures
        first_child(n.children@, kind) == (match r {
            Some(c) => Some(*c),
            None => None,
        }),
{
    assert(n.children@.skip(0) =~= n.children@);
    let mut i: usize = 0;
    while i < n.children.len()
        invariant
            i <= n.children@.len(),
            first_child(n.children@, kind) == first_child(n.children@.skip(i as int), kind),
        decreases n.children@.len() - i,
    {
        proof {
            assert(n.children@.skip(i as int).skip(1) =~= n.children@.skip(i + 1));
        }
        if let GreenElement::Node(c) = &n.children[i] {
            if c.kind == kind {
                return Some(c);
            }
        }
        i = i + 1;
    }
    None
}

fn leading_str<'a>(n: &'a GreenNode) -> (r: Option<&'a str>)
    ensures
        leading_text(*n) == text_view(r),
{
    if n.children.len() > 0 {
        match &n.children[0] {
            GreenElement::Token(t) => Some(t.text.as_str()),
            GreenElement::Node(_) => None,
        }
    } else {
        None
    }
}

fn find_child_text<'a>(n: &'a GreenNode, kind: SyntaxKind) -> (r: Option<&'a str>)
    ensures
        first_child_text(n.children@, kind) == text_view(r),
{
    assert(n.children@.skip(0) =~= n.children@);
    let mut i: usize = 0;
    while i < n.children.len()
        invariant
            i <= n.children@.len(),
            first_child_text(n.children@, kind) == first_child_text(
                n.children@.skip(i as int),
                kind,
            ),
        decreases n.children@.len() - i,
    {
        proof {
            assert(n.children@.skip(i as int).skip(1) =~= n.children@.skip(i + 1));
        }
        if let GreenElement::Node(c) = &n.children[i] {
            if c.kind == kind {
                let t = leading_str(c);
                if t.is_some() {
                    return t;
                }
            }
        }
        i = i + 1;
    }
    None
}

/// The text of the name node of the given kind right below `node`.
pub fn direct_child_text<'a>(node: &'a GreenNode, kind: SyntaxKind) -> (r: &'a str)
    ensures
        r@ == spec_direct_child_text(*node, kind),
{
    match find_child_text(node, kind) {
        Some(t) => t,
        None => "",
    }
}

/// The name of the macro that is called.
pub fn macro_call_name<'a>(node: &'a GreenNode) -> (r: &'a str)
    ensures
        r@ == spec_macro_call_name(*node),
{
    if let Some(path) = find_child(node, SyntaxKind::PATH) {
        if let Some(segment) = find_child(path, SyntaxKind::PATH_SEGMENT) {
            if let Some(name_ref) = find_child(segment, SyntaxKind::NAME_REF) {
                if let Some(t) = leading_str(name_ref) {
                    return t;
                }
            }
        }
    }
    ""
}

/// The name of a type that is a path.
pub fn path_type_name<'a>(node: &'a GreenNode) -> (r: Option<&'a str>)
    ensures
        spec_path_type_name(*node) == text_view(r),
{
    if node.kind != SyntaxKind::PATH_TYPE {
        return None;
    }
    if let Some(path) = find_child(node, SyntaxKind::PATH) {
        if let Some(segment) = find_child(path, SyntaxKind::PATH_SEGMENT) {
            return find_child_text(segment, SyntaxKind::NAME_REF);
        }
    }
    None
}

fn is_type(kind: SyntaxKind) -> (r: bool)
    ensures
        r == is_type_kind(kind),
{
    matches!(
        kind,
        SyntaxKind::ARRAY_TYPE
            | SyntaxKind::DYN_TRAIT_TYPE
            | SyntaxKind::FN_PTR_TYPE
            | SyntaxKind::FOR_TYPE
            | SyntaxKind::IMPL_TRAIT_TYPE
            | SyntaxKind::INFER_TYPE
            | SyntaxKind::MACRO_TYPE
            | SyntaxKind::NEVER_TYPE
            | SyntaxKind::PAREN_TYPE
            | SyntaxKind::PATH_TYPE
            | SyntaxKind::PTR_TYPE
            | SyntaxKind::REF_TYPE
            | SyntaxKind::SLICE_TYPE
            | SyntaxKind::TUPLE_TYPE
    )
}

/// The identity of a node that is known by its name alone.
#[derive(Hash)]
pub struct ErasedHasNameFileAstId<'a> {
    pub name: &'a str,
}

/// The identity of an associated item. Variants are treated as such.
#[derive(Hash)]
pub struct ErasedAssocItemFileAstId<'a> {
    /// Empty for the items of an extern block: the id of such a block is just an index, so it is
    /// unstable, and the block opens no scope of its own.
    pub parent: Option<ErasedFileAstId>,
    pub properties: ErasedHasNameFileAstId<'a>,
}

/// The identity of an impl.
#[derive(Hash)]
pub struct ImplFileAstId<'a> {
    /// Empty if the type is not a path.
    pub self_ty_name: Option<&'a str>,
    /// Empty in an inherent impl, or if the trait is not a path.
    pub trait_name: Option<&'a str>,
}

/// The identity of a block.
#[derive(Hash)]
pub struct BlockExprFileAstId {
    pub parent: Option<ErasedFileAstId>,
}

/// What an id is made from. Extern blocks, uses and inline assembly have no identity but their
/// number.
pub enum Identity<'a> {
    HasName(ErasedHasNameFileAstId<'a>),
    AssocItem(ErasedAssocItemFileAstId<'a>),
    Impl(ImplFileAstId<'a>),
    BlockExpr(BlockExprFileAstId),
    Nameless,
}

pub ghost enum SpecIdentity {
    HasName(Seq<char>),
    AssocItem(Option<ErasedFileAstId>, Seq<char>),
    Impl(Option<Seq<char>>, Option<Seq<char>>),
    BlockExpr(Option<ErasedFileAstId>),
    Nameless,
}

pub open spec fn text_view(t: Option<&str>) -> Option<Seq<char>> {
    match t {
        Some(t) => Some(t@),
        None => None,
    }
}

impl<'a> View for Identity<'a> {
    type V = SpecIdentity;

    open spec fn view(&self) -> SpecIdentity {
        match self {
            Identity::HasName(d) => SpecIdentity::HasName(d.name@),
            Identity::AssocItem(d) => SpecIdentity::AssocItem(d.parent, d.properties.name@),
            Identity::Impl(d) => SpecIdentity::Impl(
                text_view(d.self_ty_name),
                text_view(d.trait_name),
            ),
            Identity::BlockExpr(d) => SpecIdentity::BlockExpr(d.parent),
            Identity::Nameless => SpecIdentity::Nameless,
        }
    }
}

/// The identity of a node that gets an id, in the item with the id `parent`.
pub open spec fn spec_identity(n: GreenNode, parent: Option<ErasedFileAstId>) -> SpecIdentity {
    match spec_has_name_kind(n.kind) {
        Some((_, name_kind)) => SpecIdentity::HasName(spec_direct_child_text(n, name_kind)),
        None => match spec_assoc_item_kind(n.kind) {
            Some(ErasedFileAstIdKind::MacroCall) => SpecIdentity::AssocItem(
                parent,
                spec_macro_call_name(n),
            ),
            Some(_) => SpecIdentity::AssocItem(
                parent,
                spec_direct_child_text(n, SyntaxKind::NAME),
            ),
            None => if n.kind == SyntaxKind::IMPL {
                SpecIdentity::Impl(impl_names(n).0, impl_names(n).1)
            } else {
                SpecIdentity::Nameless
            },
        },
    }
}

/// The identity of a node, and the kind of its id, if it gets one.
pub fn identity_of<'a>(node: &'a GreenNode, parent: Option<ErasedFileAstId>) -> (r: Option<
    (ErasedFileAstIdKind, Identity<'a>),
>)
    ensures
        r is Some <==> spec_should_alloc(node.kind) is Some,
        r matches Some((k, identity)) ==> Some(k) == spec_should_alloc(node.kind) && identity@
            == spec_identity(*node, parent),
{
    if let Some((kind, name_kind)) = has_name_kind(node.kind) {
        let data = ErasedHasNameFileAstId { name: direct_child_text(node, name_kind) };
        return Some((kind, Identity::HasName(data)));
    }
    if let Some(kind) = assoc_item_kind(node.kind) {
        let name = if kind == ErasedFileAstIdKind::MacroCall {
            macro_call_name(node)
        } else {
            direct_child_text(node, SyntaxKind::NAME)
        };
        let data = ErasedAssocItemFileAstId { parent, properties: ErasedHasNameFileAstId { name } };
        return Some((kind, Identity::AssocItem(data)));
    }
    match node.kind {
        SyntaxKind::EXTERN_BLOCK => Some((ErasedFileAstIdKind::ExternBlock, Identity::Nameless)),
        SyntaxKind::USE => Some((ErasedFileAstIdKind::Use, Identity::Nameless)),
        SyntaxKind::IMPL => Some((ErasedFileAstIdKind::Impl, Identity::Impl(impl_identity(node)))),
        SyntaxKind::ASM_EXPR => Some((ErasedFileAstIdKind::AsmExpr, Identity::Nameless)),
        _ => None,
    }
}

/// The number in an id that may be missing.
pub open spec fn raw_parent(parent: Option<ErasedFileAstId>) -> Option<u32> {
    match parent {
        Some(id) => Some(id.0),
        None => None,
    }
}

/// The hash of an identity without a text. That of a text depends on the machine.
pub open spec fn textless_hash(identity: SpecIdentity) -> Option<u64> {
    match identity {
        SpecIdentity::BlockExpr(parent) => Some(
            fx::fx_hash_of_option(raw_parent(parent), usize::BITS),
        ),
        SpecIdentity::Nameless => Some(0),
        _ => None,
    }
}

/// Whether `hash` is what `fx_hash_one` returned for the names and the parent that the identity is
/// made of, if there are names in it.
pub open spec fn is_text_hash_of(identity: Identity, hash: u64) -> bool {
    match identity {
        Identity::HasName(data) => index_map::is_hash(&data, hash),
        Identity::AssocItem(data) => index_map::is_hash(&data, hash),
        Identity::Impl(data) => index_map::is_hash(&data, hash),
        _ => false,
    }
}

/// The hash of an identity. Which number that is depends on the machine, for a text.
pub fn hash_identity(identity: &Identity) -> (r: u64)
    ensures
        match textless_hash(identity@) {
            Some(hash) => r == hash,
            None => is_text_hash_of(*identity, r),
        },
{
    match identity {
        Identity::HasName(data) => {
            let r: u64 = fx::fx_hash_one(data);
            proof {
                index_map::lemma_is_hash(data, r);
            }
            r
        },
        Identity::AssocItem(data) => {
            let r: u64 = fx::fx_hash_one(data);
            proof {
                index_map::lemma_is_hash(data, r);
            }
            r
        },
        Identity::Impl(data) => {
            let r: u64 = fx::fx_hash_one(data);
            proof {
                index_map::lemma_is_hash(data, r);
            }
            r
        },
        Identity::BlockExpr(data) => fx::fx_hash_option(
            match data.parent {
                Some(id) => Some(id.0),
                None => None,
            },
        ),
        Identity::Nameless => fx::fx_hash_nothing(),
    }
}

/// What the id of an impl is made from.
pub fn impl_identity<'a>(node: &'a GreenNode) -> (r: ImplFileAstId<'a>)
    ensures
        impl_names(*node) == (text_view(r.self_ty_name), text_view(r.trait_name)),
{
    let ghost c = node.children@;
    let mut first: Option<&'a GreenNode> = None;
    let mut second: Option<&'a GreenNode> = None;
    let mut has_for = false;
    let mut i: usize = 0;
    while i < node.children.len()
        invariant
            c == node.children@,
            i <= c.len(),
            first is Some <==> type_children(c.take(i as int)).len() > 0,
            first is Some ==> *first->0 == type_children(c.take(i as int))[0],
            second is Some <==> type_children(c.take(i as int)).len() > 1,
            second is Some ==> *second->0 == type_children(c.take(i as int))[1],
            has_for <==> has_token(c.take(i as int), SyntaxKind::FOR_KW),
        decreases c.len() - i,
    {
        proof {
            let before = c.take(i as int);
            let after = c.take(i + 1);
            assert(after.drop_last() =~= before);
            assert(after.last() == c[i as int]);
            assert(forall|j: int| 0 <= j < i ==> before[j] == #[trigger] after[j]);
            if has_token(before, SyntaxKind::FOR_KW) {
                let j = choose|j: int|
                    0 <= j < before.len() && (#[trigger] before[j] matches GreenElement::Token(t)
                        && t.kind == SyntaxKind::FOR_KW);
                assert(after[j] == before[j]);
                assert(has_token(after, SyntaxKind::FOR_KW));
            }
            if has_token(after, SyntaxKind::FOR_KW) {
                let j = choose|j: int|
                    0 <= j < after.len() && (#[trigger] after[j] matches GreenElement::Token(t)
                        && t.kind == SyntaxKind::FOR_KW);
                if j < i {
                    assert(before[j] == after[j]);
                    assert(has_token(before, SyntaxKind::FOR_KW));
                }
            }
        }
        match &node.children[i] {
            GreenElement::Node(n) => {
                if is_type(n.kind) {
                    if first.is_none() {
                        first = Some(n);
                    } else if second.is_none() {
                        second = Some(n);
                    }
                }
            },
            GreenElement::Token(t) => {
                if t.kind == SyntaxKind::FOR_KW {
                    has_for = true;
                    assert(c.take(i + 1)[i as int] == c[i as int]);
                }
            },
        }
        i = i + 1;
    }
    assert(c.take(c.len() as int) =~= c);
    let (trait_ty, self_ty) = if has_for {
        (first, second)
    } else {
        (None, first)
    };
    let self_ty_name = match self_ty {
        Some(ty) => path_type_name(ty),
        None => None,
    };
    let trait_name = match trait_ty {
        Some(ty) => path_type_name(ty),
        None => None,
    };
    ImplFileAstId { self_ty_name, trait_name }
}

/// The kinds of nodes that are known by their name, with the kind of the node that holds it.
pub open spec fn spec_has_name_kind(kind: SyntaxKind) -> Option<(ErasedFileAstIdKind, SyntaxKind)> {
    match kind {
        SyntaxKind::ENUM => Some((ErasedFileAstIdKind::Enum, SyntaxKind::NAME)),
        SyntaxKind::STRUCT => Some((ErasedFileAstIdKind::Struct, SyntaxKind::NAME)),
        SyntaxKind::UNION => Some((ErasedFileAstIdKind::Union, SyntaxKind::NAME)),
        SyntaxKind::EXTERN_CRATE => Some((ErasedFileAstIdKind::ExternCrate, SyntaxKind::NAME_REF)),
        SyntaxKind::MACRO_DEF => Some((ErasedFileAstIdKind::MacroDef, SyntaxKind::NAME)),
        SyntaxKind::MACRO_RULES => Some((ErasedFileAstIdKind::MacroRules, SyntaxKind::NAME)),
        SyntaxKind::MODULE => Some((ErasedFileAstIdKind::Module, SyntaxKind::NAME)),
        SyntaxKind::STATIC => Some((ErasedFileAstIdKind::Static, SyntaxKind::NAME)),
        SyntaxKind::TRAIT => Some((ErasedFileAstIdKind::Trait, SyntaxKind::NAME)),
        _ => None,
    }
}

pub fn has_name_kind(kind: SyntaxKind) -> (r: Option<(ErasedFileAstIdKind, SyntaxKind)>)
    ensures
        r == spec_has_name_kind(kind),
{
    match kind {
        SyntaxKind::ENUM => Some((ErasedFileAstIdKind::Enum, SyntaxKind::NAME)),
        SyntaxKind::STRUCT => Some((ErasedFileAstIdKind::Struct, SyntaxKind::NAME)),
        SyntaxKind::UNION => Some((ErasedFileAstIdKind::Union, SyntaxKind::NAME)),
        SyntaxKind::EXTERN_CRATE => Some((ErasedFileAstIdKind::ExternCrate, SyntaxKind::NAME_REF)),
        SyntaxKind::MACRO_DEF => Some((ErasedFileAstIdKind::MacroDef, SyntaxKind::NAME)),
        SyntaxKind::MACRO_RULES => Some((ErasedFileAstIdKind::MacroRules, SyntaxKind::NAME)),
        SyntaxKind::MODULE => Some((ErasedFileAstIdKind::Module, SyntaxKind::NAME)),
        SyntaxKind::STATIC => Some((ErasedFileAstIdKind::Static, SyntaxKind::NAME)),
        SyntaxKind::TRAIT => Some((ErasedFileAstIdKind::Trait, SyntaxKind::NAME)),
        _ => None,
    }
}

/// The kinds of nodes that are known by their name and the item they are in.
pub open spec fn spec_assoc_item_kind(kind: SyntaxKind) -> Option<ErasedFileAstIdKind> {
    match kind {
        SyntaxKind::VARIANT => Some(ErasedFileAstIdKind::Variant),
        SyntaxKind::CONST => Some(ErasedFileAstIdKind::Const),
        SyntaxKind::FN => Some(ErasedFileAstIdKind::Fn),
        SyntaxKind::TYPE_ALIAS => Some(ErasedFileAstIdKind::TypeAlias),
        SyntaxKind::MACRO_CALL => Some(ErasedFileAstIdKind::MacroCall),
        _ => None,
    }
}

pub fn assoc_item_kind(kind: SyntaxKind) -> (r: Option<ErasedFileAstIdKind>)
    ensures
        r == spec_assoc_item_kind(kind),
{
    match kind {
        SyntaxKind::VARIANT => Some(ErasedFileAstIdKind::Variant),
        SyntaxKind::CONST => Some(ErasedFileAstIdKind::Const),
        SyntaxKind::FN => Some(ErasedFileAstIdKind::Fn),
        SyntaxKind::TYPE_ALIAS => Some(ErasedFileAstIdKind::TypeAlias),
        SyntaxKind::MACRO_CALL => Some(ErasedFileAstIdKind::MacroCall),
        _ => None,
    }
}

/// The nodes that always get an id, and its kind.
pub open spec fn spec_should_alloc(kind: SyntaxKind) -> Option<ErasedFileAstIdKind> {
    match spec_has_name_kind(kind) {
        Some((k, _)) => Some(k),
        None => match spec_assoc_item_kind(kind) {
            Some(k) => Some(k),
            None => match kind {
                SyntaxKind::EXTERN_BLOCK => Some(ErasedFileAstIdKind::ExternBlock),
                SyntaxKind::USE => Some(ErasedFileAstIdKind::Use),
                SyntaxKind::IMPL => Some(ErasedFileAstIdKind::Impl),
                SyntaxKind::ASM_EXPR => Some(ErasedFileAstIdKind::AsmExpr),
                _ => None,
            },
        },
    }
}

impl ErasedFileAstId {
    /// The kind of the id that a node gets, if it gets one.
    pub fn should_alloc(kind: SyntaxKind) -> (r: Option<ErasedFileAstIdKind>)
        ensures
            r == spec_should_alloc(kind),
    {
        if let Some((k, _)) = has_name_kind(kind) {
            return Some(k);
        }
        if let Some(k) = assoc_item_kind(kind) {
            return Some(k);
        }
        match kind {
            SyntaxKind::EXTERN_BLOCK => Some(ErasedFileAstIdKind::ExternBlock),
            SyntaxKind::USE => Some(ErasedFileAstIdKind::Use),
            SyntaxKind::IMPL => Some(ErasedFileAstIdKind::Impl),
            SyntaxKind::ASM_EXPR => Some(ErasedFileAstIdKind::AsmExpr),
            _ => None,
        }
    }
}

} // verus!
