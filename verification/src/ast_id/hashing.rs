//! What the ids in the map of a file are hashed from.

use super::assign;
use super::ast_id_map;
use super::ast_id_map::AstIdMap;
use super::identity;
use super::identity::{
    ErasedAssocItemFileAstId, ErasedHasNameFileAstId, Identity, ImplFileAstId, SpecIdentity,
};
use super::index_map;
use super::laws;
use super::naming;
use super::placing;
use super::stability;
use super::walk;
use super::walk::Entry;
use crate::green::{GreenNode, GreenToken};
use vstd::prelude::*;

verus! {

/// Whether the hash is what the outside hasher returned for exactly this identity: for the name, for
/// the name with the parent, or for the names of an impl. Without a name the hash is fixed.
pub open spec fn comes_from(hash: u64, named: SpecIdentity) -> bool {
    match named {
        SpecIdentity::HasName(name) => exists|d: ErasedHasNameFileAstId| #[trigger]
            index_map::is_hash(&d, hash) && d.name@ == name,
        SpecIdentity::AssocItem(parent, name) => exists|d: ErasedAssocItemFileAstId| #[trigger]
            index_map::is_hash(&d, hash) && d.parent == parent && d.properties.name@ == name,
        SpecIdentity::Impl(self_ty, trait_) => exists|d: ImplFileAstId| #[trigger]
            index_map::is_hash(&d, hash) && (d.self_ty_name is Some <==> self_ty is Some) && (
            d.trait_name is Some <==> trait_ is Some) && (self_ty is Some ==> d.self_ty_name->0@
                == self_ty->0) && (trait_ is Some ==> d.trait_name->0@ == trait_->0),
        SpecIdentity::BlockExpr(_) => identity::textless_hash(named) == Some(hash),
        SpecIdentity::Nameless => hash == 0,
    }
}

/// The hashes of the nodes come from their identities.
pub proof fn hashes_come_from_identities(e: Seq<Entry>, hashes: Seq<u64>, i: int)
    requires
        assign::hashed_with(identity::hash_identity, e, hashes),
        1 <= i < e.len(),
    ensures
        comes_from(hashes[i], stability::identity_at(e, hashes, i)),
{
    let named = stability::identity_at(e, hashes, i);
    assert(assign::hashes_to(identity::hash_identity, named, hashes[i]));
    let data = choose|data: Identity|
        data@ == named && #[trigger] call_ensures(identity::hash_identity, (&data,), hashes[i]);
    placing::names_are_hashed_with_their_parents(data, hashes[i]);
    match data {
        Identity::HasName(d) => {
            assert(index_map::is_hash(&d, hashes[i]));
        },
        Identity::AssocItem(d) => {
            assert(index_map::is_hash(&d, hashes[i]));
        },
        Identity::Impl(d) => {
            assert(index_map::is_hash(&d, hashes[i]));
        },
        _ => {},
    }
}

/// In the map of a file every struct, enum, union, module, trait, static and macro has an id that was
/// made from its kind and from the hash of exactly the name that is written.
pub proof fn maps_have_ids_made_from_names(
    root: GreenNode,
    map: AstIdMap,
    n: GreenNode,
    at: nat,
    i: int,
    name: GreenNode,
    t: GreenToken,
)
    requires
        call_ensures(AstIdMap::from_source, (&root,), map),
        assign::enough_ids(walk::entries(root)),
        laws::occurs_below(n, at, root.children@, 0),
        naming::is_known_by_name(n.kind),
        naming::is_named(n, i, name, t),
    ensures
        exists|hashes: Seq<u64>, k: int|
            #![trigger ast_id_map::with_ids(walk::entries(root), hashes)[k]]
            {
                let e = walk::entries(root);
                &&& map@ == ast_id_map::with_ids(e, hashes)
                &&& 1 <= k < map@.len()
                &&& map@[k].0 == laws::ptr_at(n, at)
                &&& map@[k].1 == assign::ids(e, hashes)[k]
                &&& naming::gets(n.kind, e[k].kind)
                &&& comes_from(hashes[k], SpecIdentity::HasName(t.text@))
            },
{
    let e = walk::entries(root);
    let hashes = choose|hashes: Seq<u64>|
        hashes.len() == e.len() && map@ == #[trigger] ast_id_map::with_ids(e, hashes)
            && assign::hashed_with(identity::hash_identity, e, hashes);
    placing::named_items_have_ids_made_from_their_names(root, hashes, n, at, i, name, t);
    let k = choose|k: int|
        1 <= k < e.len() && (#[trigger] e[k]).ptr == laws::ptr_at(n, at) && naming::gets(
            n.kind,
            e[k].kind,
        ) && stability::identity_at(e, hashes, k) == SpecIdentity::HasName(t.text@);
    hashes_come_from_identities(e, hashes, k);
    assert(ast_id_map::with_ids(e, hashes)[k] == (e[k].ptr, assign::ids(e, hashes)[k]));
}

/// In the map of a file every function, constant, type alias and variant has an id that was made from
/// its kind and from the hash of exactly the name that is written, with the id of what it lies in.
pub proof fn maps_have_ids_made_from_names_and_parents(
    root: GreenNode,
    map: AstIdMap,
    n: GreenNode,
    at: nat,
    i: int,
    name: GreenNode,
    t: GreenToken,
)
    requires
        call_ensures(AstIdMap::from_source, (&root,), map),
        assign::enough_ids(walk::entries(root)),
        laws::occurs_below(n, at, root.children@, 0),
        naming::is_known_by_place(n.kind),
        naming::is_named(n, i, name, t),
    ensures
        exists|hashes: Seq<u64>, k: int|
            #![trigger ast_id_map::with_ids(walk::entries(root), hashes)[k]]
            {
                let e = walk::entries(root);
                &&& map@ == ast_id_map::with_ids(e, hashes)
                &&& 1 <= k < map@.len()
                &&& map@[k].0 == laws::ptr_at(n, at)
                &&& map@[k].1 == assign::ids(e, hashes)[k]
                &&& naming::gets(n.kind, e[k].kind)
                &&& placing::is_placed(e, root, k)
                &&& comes_from(
                    hashes[k],
                    SpecIdentity::AssocItem(placing::parent_in(e, hashes, k), t.text@),
                )
            },
{
    let e = walk::entries(root);
    let hashes = choose|hashes: Seq<u64>|
        hashes.len() == e.len() && map@ == #[trigger] ast_id_map::with_ids(e, hashes)
            && assign::hashed_with(identity::hash_identity, e, hashes);
    placing::nested_items_have_ids_made_from_name_and_parent(root, hashes, n, at, i, name, t);
    let k = choose|k: int|
        1 <= k < e.len() && (#[trigger] e[k]).ptr == laws::ptr_at(n, at) && naming::gets(
            n.kind,
            e[k].kind,
        ) && placing::is_placed(e, root, k) && stability::identity_at(e, hashes, k)
            == SpecIdentity::AssocItem(placing::parent_in(e, hashes, k), t.text@);
    hashes_come_from_identities(e, hashes, k);
    assert(ast_id_map::with_ids(e, hashes)[k] == (e[k].ptr, assign::ids(e, hashes)[k]));
}

/// In the map of a file every macro call has an id that was made from the hash of the name of the
/// macro, with the id of what it lies in, and every impl one that was made from the hash of the names
/// of its type and its trait.
pub proof fn maps_have_ids_of_calls_and_impls(
    root: GreenNode,
    map: AstIdMap,
    n: GreenNode,
    at: nat,
    p: naming::PathName,
)
    requires
        call_ensures(AstIdMap::from_source, (&root,), map),
        assign::enough_ids(walk::entries(root)),
        laws::occurs_below(n, at, root.children@, 0),
        placing::has_own_id(n.kind),
    ensures
        exists|hashes: Seq<u64>, k: int|
            #![trigger ast_id_map::with_ids(walk::entries(root), hashes)[k]]
            {
                let e = walk::entries(root);
                let parent = placing::parent_in(e, hashes, k);
                &&& map@ == ast_id_map::with_ids(e, hashes)
                &&& 1 <= k < map@.len()
                &&& map@[k].0 == laws::ptr_at(n, at)
                &&& map@[k].1 == assign::ids(e, hashes)[k]
                &&& naming::gets(n.kind, e[k].kind)
                &&& placing::is_placed(e, root, k)
                &&& comes_from(hashes[k], identity::spec_identity(n, parent))
                &&& n.kind == crate::syntax_kind::SyntaxKind::MACRO_CALL && p.is_in(n)
                    ==> comes_from(hashes[k], SpecIdentity::AssocItem(parent, p.token.text@))
            },
{
    let e = walk::entries(root);
    let hashes = choose|hashes: Seq<u64>|
        hashes.len() == e.len() && map@ == #[trigger] ast_id_map::with_ids(e, hashes)
            && assign::hashed_with(identity::hash_identity, e, hashes);
    laws::all_candidates_are_found(root, n, at);
    let k = choose|k: int|
        1 <= k < e.len() && (#[trigger] e[k]).ptr == laws::ptr_at(n, at) && e[k].green == Some(n);
    placing::ids_are_made_from_node_and_parent(root, hashes, k);
    placing::owners_are_the_nearest_nodes_around(root, k);
    hashes_come_from_identities(e, hashes, k);
    if n.kind == crate::syntax_kind::SyntaxKind::MACRO_CALL && p.is_in(n) {
        naming::macro_calls_are_known_by_the_macro(n, placing::parent_in(e, hashes, k), p);
    }
    assert(ast_id_map::with_ids(e, hashes)[k] == (e[k].ptr, assign::ids(e, hashes)[k]));
}

} // verus!
