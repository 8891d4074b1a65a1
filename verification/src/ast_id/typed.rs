//! Ids and pointers that know the type of their node.

use super::erased::ErasedFileAstId;
use super::ast_id_map::AstIdMap;
use crate::ast;
use crate::ast::{AstIdNode, AstNode};
use crate::syntax_ptr::SyntaxNodePtr;
use std::marker::PhantomData;
use vstd::prelude::*;

verus! {

/// A pointer to a node of the type `N`.
#[derive(Debug, Hash)]
#[verifier::reject_recursive_types(N)]
pub struct AstPtr<N> {
    pub raw: SyntaxNodePtr,
    pub marker: PhantomData<N>,
}

impl<N: AstNode> AstPtr<N> {
    pub fn new(node: &N) -> (r: AstPtr<N>)
        ensures
            r.raw == node.spec_syntax(),
    {
        AstPtr { raw: node.syntax(), marker: PhantomData }
    }

    pub fn syntax_node_ptr(&self) -> (r: SyntaxNodePtr)
        ensures
            r == self.raw,
    {
        self.raw
    }

    /// The pointer with the type `N`, if it points to a node of that type.
    pub fn try_from_raw(raw: SyntaxNodePtr) -> (r: Option<AstPtr<N>>)
        ensures
            r is Some <==> N::castable(raw.kind),
            r matches Some(ptr) ==> ptr.raw == raw,
    {
        if N::can_cast(raw.kind) {
            Some(AstPtr { raw, marker: PhantomData })
        } else {
            None
        }
    }
}

/// The id of a node of the type `N`.
#[derive(Debug, Hash)]
#[verifier::reject_recursive_types(N)]
pub struct FileAstId<N> {
    pub raw: ErasedFileAstId,
    pub marker: PhantomData<N>,
}

impl<N> Clone for FileAstId<N> {
    fn clone(&self) -> (r: FileAstId<N>)
        ensures
            r.raw == self.raw,
    {
        FileAstId { raw: self.raw, marker: PhantomData }
    }
}

impl<N> Copy for FileAstId<N> {

}

impl<N> PartialEq for FileAstId<N> {
    fn eq(&self, other: &Self) -> (r: bool) {
        self.raw == other.raw
    }
}

impl<N> vstd::std_specs::cmp::PartialEqSpecImpl for FileAstId<N> {
    open spec fn obeys_eq_spec() -> bool {
        true
    }

    open spec fn eq_spec(&self, other: &Self) -> bool {
        self.raw == other.raw
    }
}

impl<N> Eq for FileAstId<N> {

}

impl<N> FileAstId<N> {
    /// The same id, for a type that every node of the type `N` has too.
    pub fn upcast<M: AstIdNode>(self) -> (r: FileAstId<M>) where N: Into<M>
        ensures
            r.raw == self.raw,
    {
        FileAstId { raw: self.raw, marker: PhantomData }
    }

    pub fn erase(self) -> (r: ErasedFileAstId)
        ensures
            r == self.raw,
    {
        self.raw
    }
}

impl AstIdMap {
    /// The id of an item.
    pub fn ast_id<N: AstIdNode>(&self, item: &N) -> (r: FileAstId<N>)
        requires
            self.wf(),
            self.has_ptr(item.spec_syntax()),
        ensures
            self@.contains((item.spec_syntax(), r.raw)),
    {
        self.ast_id_for_ptr(AstPtr::new(item))
    }

    /// The id of a block. A block without items has none.
    pub fn ast_id_for_block(&self, block: &ast::BlockExpr) -> (r: Option<FileAstId<ast::BlockExpr>>)
        requires
            self.wf(),
        ensures
            r is Some <==> self.has_ptr(block.ptr),
            r matches Some(id) ==> self@.contains((block.ptr, id.raw)),
    {
        self.ast_id_for_ptr_for_block(AstPtr::new(block))
    }

    pub fn ast_id_for_ptr<N: AstIdNode>(&self, ptr: AstPtr<N>) -> (r: FileAstId<N>)
        requires
            self.wf(),
            self.has_ptr(ptr.raw),
        ensures
            self@.contains((ptr.raw, r.raw)),
    {
        FileAstId { raw: self.erased_ast_id(ptr.syntax_node_ptr()), marker: PhantomData }
    }

    /// The id of a block. A block without items has none.
    pub fn ast_id_for_ptr_for_block(&self, ptr: AstPtr<ast::BlockExpr>) -> (r: Option<
        FileAstId<ast::BlockExpr>,
    >)
        requires
            self.wf(),
        ensures
            r is Some <==> self.has_ptr(ptr.raw),
            r matches Some(id) ==> self@.contains((ptr.raw, id.raw)),
    {
        match self.try_erased_ast_id(ptr.syntax_node_ptr()) {
            Some(raw) => Some(FileAstId { raw, marker: PhantomData }),
            None => None,
        }
    }

    /// The node with the given id, which has to be of the id's type.
    pub fn get<N: AstNode>(&self, id: FileAstId<N>) -> (r: AstPtr<N>)
        requires
            self.wf(),
            self.has_id(id.raw),
            forall|ptr: SyntaxNodePtr| #[trigger]
                self@.contains((ptr, id.raw)) ==> N::castable(ptr.kind),
        ensures
            self@.contains((r.raw, id.raw)),
    {
        let ptr = self.get_erased(id.raw);
        AstPtr::try_from_raw(ptr).unwrap()
    }
}

} // verus!
