//! The types that are known everywhere.

use super::names;
use super::names::NameMap;
use crate::ids::{BuiltinType, ModuleDefId, Visibility};
use crate::per_ns::{Item, PerNs};
use vstd::prelude::*;

verus! {

/// Whether a built-in type or a module of the same name is meant.
#[derive(Clone, Copy, PartialEq, Eq, Structural, Debug)]
pub enum BuiltinShadowMode {
    /// Prefer a module, or another type, over the built-in type.
    Module,
    /// Prefer the built-in type over a module, but not over another type.
    Other,
}

/// The built-in types with their names.
pub open spec fn builtin_types() -> Seq<(Seq<char>, BuiltinType)> {
    seq![
        ("char"@, BuiltinType::Char),
        ("bool"@, BuiltinType::Bool),
        ("str"@, BuiltinType::Str),
        ("isize"@, BuiltinType::Isize),
        ("i8"@, BuiltinType::I8),
        ("i16"@, BuiltinType::I16),
        ("i32"@, BuiltinType::I32),
        ("i64"@, BuiltinType::I64),
        ("i128"@, BuiltinType::I128),
        ("usize"@, BuiltinType::Usize),
        ("u8"@, BuiltinType::U8),
        ("u16"@, BuiltinType::U16),
        ("u32"@, BuiltinType::U32),
        ("u64"@, BuiltinType::U64),
        ("u128"@, BuiltinType::U128),
        ("f16"@, BuiltinType::F16),
        ("f32"@, BuiltinType::F32),
        ("f64"@, BuiltinType::F64),
        ("f128"@, BuiltinType::F128),
    ]
}

pub open spec fn builtin_item(ty: BuiltinType) -> PerNs {
    PerNs {
        types: Some(
            Item { def: ModuleDefId::BuiltinType(ty), vis: Visibility::Public, import: None },
        ),
        values: None,
        macros: None,
    }
}

/// No two built-in types have the same name.
pub proof fn builtin_names_are_distinct(i: int, j: int)
    requires
        0 <= i < j < builtin_types().len(),
    ensures
        builtin_types()[i].0 != builtin_types()[j].0,
{
    reveal_strlit("char");
    reveal_strlit("bool");
    reveal_strlit("str");
    reveal_strlit("isize");
    reveal_strlit("i8");
    reveal_strlit("i16");
    reveal_strlit("i32");
    reveal_strlit("i64");
    reveal_strlit("i128");
    reveal_strlit("usize");
    reveal_strlit("u8");
    reveal_strlit("u16");
    reveal_strlit("u32");
    reveal_strlit("u64");
    reveal_strlit("u128");
    reveal_strlit("f16");
    reveal_strlit("f32");
    reveal_strlit("f64");
    reveal_strlit("f128");
    let (a, b) = (builtin_types()[i].0, builtin_types()[j].0);
    if a == b {
        assert(a.len() == b.len());
        assert(a[0] == b[0] && a[1] == b[1]);
        if a.len() > 2 {
            assert(a[2] == b[2]);
        }
    }
}

/// The scope that holds the built-in types.
pub fn builtin_scope() -> (r: NameMap<PerNs>)
    ensures
        names::entries(r).len() == builtin_types().len(),
        forall|i: int|
            0 <= i < builtin_types().len() ==> (#[trigger] names::entries(r)[i]).0@
                == builtin_types()[i].0 && names::entries(r)[i].1 == builtin_item(
                builtin_types()[i].1,
            ),
{
    let ghost all = builtin_types();
    let mut types: Vec<(&'static str, BuiltinType)> = Vec::new();
    types.push(("char", BuiltinType::Char));
    types.push(("bool", BuiltinType::Bool));
    types.push(("str", BuiltinType::Str));
    types.push(("isize", BuiltinType::Isize));
    types.push(("i8", BuiltinType::I8));
    types.push(("i16", BuiltinType::I16));
    types.push(("i32", BuiltinType::I32));
    types.push(("i64", BuiltinType::I64));
    types.push(("i128", BuiltinType::I128));
    types.push(("usize", BuiltinType::Usize));
    types.push(("u8", BuiltinType::U8));
    types.push(("u16", BuiltinType::U16));
    types.push(("u32", BuiltinType::U32));
    types.push(("u64", BuiltinType::U64));
    types.push(("u128", BuiltinType::U128));
    types.push(("f16", BuiltinType::F16));
    types.push(("f32", BuiltinType::F32));
    types.push(("f64", BuiltinType::F64));
    types.push(("f128", BuiltinType::F128));
    let mut r: NameMap<PerNs> = names::name_map_new();
    let mut i: usize = 0;
    while i < types.len()
        invariant
            i <= types@.len(),
            all == builtin_types(),
            types@.len() == all.len(),
            forall|j: int|
                0 <= j < all.len() ==> (#[trigger] types@[j]).0@ == all[j].0 && types@[j].1
                    == all[j].1,
            names::entries(r).len() == i,
            forall|j: int|
                0 <= j < i ==> (#[trigger] names::entries(r)[j]).0@ == all[j].0 && names::entries(
                    r,
                )[j].1 == builtin_item(all[j].1),
        decreases types@.len() - i,
    {
        let (name, ty) = types[i];
        proof {
            names::lemma_find_name(names::entries(r), name@, 0);
            if let Some(k) = names::find_name(names::entries(r), name@, 0) {
                builtin_names_are_distinct(k as int, i as int);
            }
        }
        let item = PerNs::types(ModuleDefId::BuiltinType(ty), Visibility::Public, None);
        names::name_map_insert(&mut r, name.to_owned(), item);
        i = i + 1;
    }
    r
}

/// What a name stands for in the scope of the built-in types.
pub fn builtin_get(scope: &NameMap<PerNs>, name: &str) -> (r: Option<PerNs>)
    ensures
        r == (match names::find_name(names::entries(*scope), name@, 0) {
            Some(i) => Some(names::entries(*scope)[i as int].1),
            None => None,
        }),
{
    proof {
        names::lemma_find_name(names::entries(*scope), name@, 0);
    }
    match names::name_map_find(scope, name) {
        Some(i) => Some(*names::name_map_at(scope, i).1),
        None => None,
    }
}

} // verus!
