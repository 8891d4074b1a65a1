//! The generic parameters of items.

use crate::arena;
use crate::arena::ItemArena;
use crate::ids::{
    AdtId, ConstId, FunctionId, ImplId, StaticId, TraitId, TypeAliasId,
};
use crate::text;
use thin_vec::ThinVec;
use vstd::prelude::*;
use vstd::std_specs::convert::FromSpecImpl;

verus! {

/// A type in the store of expressions.
#[derive(Clone, Copy, PartialEq, Eq, Structural, Debug, Hash)]
pub struct TypeRefId(pub u32);

/// A lifetime in the store of expressions.
#[derive(Clone, Copy, PartialEq, Eq, Structural, Debug, Hash)]
pub struct LifetimeRefId(pub u32);

/// A constant in the store of expressions.
#[derive(Clone, Copy, PartialEq, Eq, Structural, Debug, Hash)]
pub struct ConstRef(pub u32);

/// A bound in the store of expressions.
#[derive(Clone, Copy, PartialEq, Eq, Structural, Debug, Hash)]
pub struct TypeBound(pub u32);

/// The place of a type or const parameter among those of an item.
#[derive(Clone, Copy, PartialEq, Eq, Structural, Debug, Hash, PartialOrd, Ord)]
pub struct LocalTypeOrConstParamId(pub u32);

/// The place of a lifetime parameter among those of an item.
#[derive(Clone, Copy, PartialEq, Eq, Structural, Debug, Hash, PartialOrd, Ord)]
pub struct LocalLifetimeParamId(pub u32);

/// An item with generic parameters.
#[derive(Clone, Copy, PartialEq, Eq, Structural, Debug, Hash)]
pub enum GenericDefId {
    AdtId(AdtId),
    ConstId(ConstId),
    FunctionId(FunctionId),
    ImplId(ImplId),
    StaticId(StaticId),
    TraitId(TraitId),
    TypeAliasId(TypeAliasId),
}

#[derive(Clone, Copy, PartialEq, Eq, Structural, Debug, Hash)]
pub struct TypeOrConstParamId {
    pub parent: GenericDefId,
    pub local_id: LocalTypeOrConstParamId,
}

#[derive(Clone, Copy, PartialEq, Eq, Structural, Debug, Hash)]
pub struct TypeParamId(pub TypeOrConstParamId);

#[derive(Clone, Copy, PartialEq, Eq, Structural, Debug, Hash)]
pub struct ConstParamId(pub TypeOrConstParamId);

#[derive(Clone, Copy, PartialEq, Eq, Structural, Debug, Hash)]
pub struct LifetimeParamId {
    pub parent: GenericDefId,
    pub local_id: LocalLifetimeParamId,
}

/// Where a type parameter comes from.
#[derive(Clone, Copy, PartialEq, Eq, Structural, Debug, Hash)]
pub enum TypeParamProvenance {
    TypeParamList,
    TraitSelf,
    ArgumentImplTrait,
}

/// A type parameter.
#[derive(Clone, PartialEq, Eq, Debug, Hash)]
pub struct TypeParamData {
    /// Empty only for an `impl Trait`.
    pub name: Option<String>,
    pub default: Option<TypeRefId>,
    pub provenance: TypeParamProvenance,
}

#[derive(Clone, Copy, PartialEq, Eq, Structural, Debug, Hash)]
pub enum LifetimeBoundType {
    EarlyBound,
    LateBound,
}

/// A lifetime parameter.
#[derive(Clone, PartialEq, Eq, Debug, Hash)]
pub struct LifetimeParamData {
    pub name: String,
    pub bound_type: LifetimeBoundType,
}

impl LifetimeParamData {
    pub open spec fn spec_is_late_bound(self) -> bool {
        self.bound_type == LifetimeBoundType::LateBound
    }

    pub fn is_late_bound(&self) -> (r: bool)
        ensures
            r == self.spec_is_late_bound(),
    {
        self.bound_type == LifetimeBoundType::LateBound
    }
}

/// A const parameter.
#[derive(Clone, PartialEq, Eq, Debug, Hash)]
pub struct ConstParamData {
    pub name: String,
    pub ty: TypeRefId,
    pub default: Option<ConstRef>,
}

#[derive(Clone, PartialEq, Eq, Debug, Hash)]
pub enum TypeOrConstParamData {
    TypeParamData(TypeParamData),
    ConstParamData(ConstParamData),
}

impl TypeOrConstParamData {
    pub open spec fn spec_name(self) -> Option<Seq<char>> {
        match self {
            TypeOrConstParamData::TypeParamData(it) => match it.name {
                Some(name) => Some(name@),
                None => None,
            },
            TypeOrConstParamData::ConstParamData(it) => Some(it.name@),
        }
    }

    pub fn name(&self) -> (r: Option<&String>)
        ensures
            self.spec_name() == (match r {
                Some(name) => Some(name@),
                None => None,
            }),
    {
        match self {
            TypeOrConstParamData::TypeParamData(it) => it.name.as_ref(),
            TypeOrConstParamData::ConstParamData(it) => Some(&it.name),
        }
    }

    pub fn has_default(&self) -> (r: bool)
        ensures
            r == (match self {
                TypeOrConstParamData::TypeParamData(it) => it.default is Some,
                TypeOrConstParamData::ConstParamData(it) => it.default is Some,
            }),
    {
        match self {
            TypeOrConstParamData::TypeParamData(it) => it.default.is_some(),
            TypeOrConstParamData::ConstParamData(it) => it.default.is_some(),
        }
    }

    pub fn type_param(&self) -> (r: Option<&TypeParamData>)
        ensures
            r is Some <==> *self is TypeParamData,
            r matches Some(it) ==> *self == TypeOrConstParamData::TypeParamData(*it),
    {
        match self {
            TypeOrConstParamData::TypeParamData(it) => Some(it),
            TypeOrConstParamData::ConstParamData(_) => None,
        }
    }

    pub fn const_param(&self) -> (r: Option<&ConstParamData>)
        ensures
            r is Some <==> *self is ConstParamData,
            r matches Some(it) ==> *self == TypeOrConstParamData::ConstParamData(*it),
    {
        match self {
            TypeOrConstParamData::TypeParamData(_) => None,
            TypeOrConstParamData::ConstParamData(it) => Some(it),
        }
    }

    pub open spec fn spec_is_trait_self(self) -> bool {
        self matches TypeOrConstParamData::TypeParamData(it) && it.provenance
            == TypeParamProvenance::TraitSelf
    }

    pub fn is_trait_self(&self) -> (r: bool)
        ensures
            r == self.spec_is_trait_self(),
    {
        match self {
            TypeOrConstParamData::TypeParamData(it) => it.provenance
                == TypeParamProvenance::TraitSelf,
            TypeOrConstParamData::ConstParamData(_) => false,
        }
    }
}

/// Any generic parameter.
#[derive(Clone, PartialEq, Eq, Debug, Hash)]
pub enum GenericParamData {
    TypeParamData(TypeParamData),
    ConstParamData(ConstParamData),
    LifetimeParamData(LifetimeParamData),
}

impl GenericParamData {
    pub open spec fn spec_name(self) -> Option<Seq<char>> {
        match self {
            GenericParamData::TypeParamData(it) => match it.name {
                Some(name) => Some(name@),
                None => None,
            },
            GenericParamData::ConstParamData(it) => Some(it.name@),
            GenericParamData::LifetimeParamData(it) => Some(it.name@),
        }
    }

    pub fn name(&self) -> (r: Option<&String>)
        ensures
            self.spec_name() == (match r {
                Some(name) => Some(name@),
                None => None,
            }),
    {
        match self {
            GenericParamData::TypeParamData(it) => it.name.as_ref(),
            GenericParamData::ConstParamData(it) => Some(&it.name),
            GenericParamData::LifetimeParamData(it) => Some(&it.name),
        }
    }

    pub fn type_param(&self) -> (r: Option<&TypeParamData>)
        ensures
            r is Some <==> *self is TypeParamData,
            r matches Some(it) ==> *self == GenericParamData::TypeParamData(*it),
    {
        match self {
            GenericParamData::TypeParamData(it) => Some(it),
            _ => None,
        }
    }

    pub fn const_param(&self) -> (r: Option<&ConstParamData>)
        ensures
            r is Some <==> *self is ConstParamData,
            r matches Some(it) ==> *self == GenericParamData::ConstParamData(*it),
    {
        match self {
            GenericParamData::ConstParamData(it) => Some(it),
            _ => None,
        }
    }

    pub fn lifetime_param(&self) -> (r: Option<&LifetimeParamData>)
        ensures
            r is Some <==> *self is LifetimeParamData,
            r matches Some(it) ==> *self == GenericParamData::LifetimeParamData(*it),
    {
        match self {
            GenericParamData::LifetimeParamData(it) => Some(it),
            _ => None,
        }
    }
}

/// A reference to any generic parameter.
#[derive(Debug, Clone, Copy)]
pub enum GenericParamDataRef<'a> {
    TypeParamData(&'a TypeParamData),
    ConstParamData(&'a ConstParamData),
    LifetimeParamData(&'a LifetimeParamData),
}

impl From<TypeParamData> for TypeOrConstParamData {
    fn from(it: TypeParamData) -> (r: TypeOrConstParamData) {
        TypeOrConstParamData::TypeParamData(it)
    }
}

impl FromSpecImpl<TypeParamData> for TypeOrConstParamData {
    open spec fn obeys_from_spec() -> bool {
        true
    }

    open spec fn from_spec(it: TypeParamData) -> TypeOrConstParamData {
        TypeOrConstParamData::TypeParamData(it)
    }
}

impl From<ConstParamData> for TypeOrConstParamData {
    fn from(it: ConstParamData) -> (r: TypeOrConstParamData) {
        TypeOrConstParamData::ConstParamData(it)
    }
}

impl FromSpecImpl<ConstParamData> for TypeOrConstParamData {
    open spec fn obeys_from_spec() -> bool {
        true
    }

    open spec fn from_spec(it: ConstParamData) -> TypeOrConstParamData {
        TypeOrConstParamData::ConstParamData(it)
    }
}

impl From<TypeParamData> for GenericParamData {
    fn from(it: TypeParamData) -> (r: GenericParamData) {
        GenericParamData::TypeParamData(it)
    }
}

impl FromSpecImpl<TypeParamData> for GenericParamData {
    open spec fn obeys_from_spec() -> bool {
        true
    }

    open spec fn from_spec(it: TypeParamData) -> GenericParamData {
        GenericParamData::TypeParamData(it)
    }
}

impl From<ConstParamData> for GenericParamData {
    fn from(it: ConstParamData) -> (r: GenericParamData) {
        GenericParamData::ConstParamData(it)
    }
}

impl FromSpecImpl<ConstParamData> for GenericParamData {
    open spec fn obeys_from_spec() -> bool {
        true
    }

    open spec fn from_spec(it: ConstParamData) -> GenericParamData {
        GenericParamData::ConstParamData(it)
    }
}

impl From<LifetimeParamData> for GenericParamData {
    fn from(it: LifetimeParamData) -> (r: GenericParamData) {
        GenericParamData::LifetimeParamData(it)
    }
}

impl FromSpecImpl<LifetimeParamData> for GenericParamData {
    open spec fn obeys_from_spec() -> bool {
        true
    }

    open spec fn from_spec(it: LifetimeParamData) -> GenericParamData {
        GenericParamData::LifetimeParamData(it)
    }
}

/// A predicate of a where clause. Several bounds on one type are several predicates.
#[derive(Clone, PartialEq, Eq, Debug, Hash)]
pub enum WherePredicate {
    TypeBound { lifetimes: Option<ThinVec<String>>, target: TypeRefId, bound: TypeBound },
    Lifetime { target: LifetimeRefId, bound: LifetimeRefId },
}

/// The generic parameters of an item while they are collected.
pub struct GenericParamsCollector {
    pub type_or_consts: ItemArena<TypeOrConstParamData>,
    pub lifetimes: ItemArena<LifetimeParamData>,
}

impl GenericParamsCollector {
    pub fn new() -> (r: GenericParamsCollector)
        ensures
            arena::items(r.type_or_consts).len() == 0,
            arena::items(r.lifetimes).len() == 0,
    {
        GenericParamsCollector {
            type_or_consts: arena::arena_new(),
            lifetimes: arena::arena_new(),
        }
    }

    /// Adds a type or const parameter and returns its place.
    pub fn alloc_type_or_const(&mut self, item: TypeOrConstParamData) -> (r:
        LocalTypeOrConstParamId)
        requires
            arena::items(old(self).type_or_consts).len() < u32::MAX,
        ensures
            arena::items(final(self).type_or_consts) == arena::items(old(self).type_or_consts).push(
                item,
            ),
            final(self).lifetimes == old(self).lifetimes,
            r.0 == arena::items(old(self).type_or_consts).len(),
    {
        LocalTypeOrConstParamId(arena::arena_alloc(&mut self.type_or_consts, item))
    }

    /// Adds a lifetime parameter and returns its place.
    pub fn alloc_lifetime(&mut self, item: LifetimeParamData) -> (r: LocalLifetimeParamId)
        requires
            arena::items(old(self).lifetimes).len() < u32::MAX,
        ensures
            arena::items(final(self).lifetimes) == arena::items(old(self).lifetimes).push(item),
            final(self).type_or_consts == old(self).type_or_consts,
            r.0 == arena::items(old(self).lifetimes).len(),
    {
        LocalLifetimeParamId(arena::arena_alloc(&mut self.lifetimes, item))
    }
}

/// The generic parameters of an item that has some.
#[derive(PartialEq, Eq, Debug, Hash)]
pub struct GenericParamsData {
    pub type_or_consts: ItemArena<TypeOrConstParamData>,
    pub lifetimes: ItemArena<LifetimeParamData>,
    pub where_predicates: Vec<WherePredicate>,
}

/// The generic parameters of an item. Most items have none, so that is one empty pointer. The derived
/// hash agrees with the equality, which is by contents, as long as there is no storage for nothing.
#[derive(Debug, Hash)]
pub struct GenericParams(pub Option<Box<GenericParamsData>>);

/// How many of the first `n` lifetimes are bound late.
pub open spec fn late_before(s: Seq<LifetimeParamData>, n: nat) -> nat
    decreases n,
{
    if n == 0 {
        0
    } else {
        late_before(s, (n - 1) as nat) + if s[n - 1].spec_is_late_bound() {
            1nat
        } else {
            0
        }
    }
}

/// The places of those of the first `n` lifetimes that are bound late, or of the others.
pub open spec fn bound_lifetimes(s: Seq<LifetimeParamData>, late: bool, n: nat) -> Seq<nat>
    decreases n,
{
    if n == 0 {
        Seq::empty()
    } else {
        let before = bound_lifetimes(s, late, (n - 1) as nat);
        if s[n - 1].spec_is_late_bound() == late {
            before.push((n - 1) as nat)
        } else {
            before
        }
    }
}

proof fn lemma_late_before(s: Seq<LifetimeParamData>, n: nat)
    ensures
        late_before(s, n) <= n,
        bound_lifetimes(s, true, n).len() == late_before(s, n),
        bound_lifetimes(s, false, n).len() == n - late_before(s, n),
    decreases n,
{
    if n > 0 {
        lemma_late_before(s, (n - 1) as nat);
    }
}

/// The place of a type or a const parameter with the given name, from `i` on.
pub open spec fn find_param(
    s: Seq<TypeOrConstParamData>,
    name: Seq<char>,
    is_type: bool,
    i: nat,
) -> Option<nat>
    decreases s.len() - i,
{
    if i >= s.len() {
        None
    } else if s[i as int].spec_name() == Some(name) && (s[i as int] is TypeParamData) == is_type {
        Some(i)
    } else {
        find_param(s, name, is_type, i + 1)
    }
}

/// The place of a lifetime with the given name, from `i` on.
pub open spec fn find_lifetime(s: Seq<LifetimeParamData>, name: Seq<char>, i: nat) -> Option<nat>
    decreases s.len() - i,
{
    if i >= s.len() {
        None
    } else if s[i as int].name@ == name {
        Some(i)
    } else {
        find_lifetime(s, name, i + 1)
    }
}

impl Default for GenericParams {
    fn default() -> (r: GenericParams)
        ensures
            r.wf(),
            r.types_view().len() == 0,
            r.lifetimes_view().len() == 0,
            r.predicates_view().len() == 0,
    {
        GenericParams(None)
    }
}

impl GenericParams {
    /// The type and const parameters.
    pub open spec fn types_view(self) -> Seq<TypeOrConstParamData> {
        match self.0 {
            Some(data) => arena::items(data.type_or_consts),
            None => Seq::empty(),
        }
    }

    /// The lifetime parameters.
    pub open spec fn lifetimes_view(self) -> Seq<LifetimeParamData> {
        match self.0 {
            Some(data) => arena::items(data.lifetimes),
            None => Seq::empty(),
        }
    }

    /// The predicates of the where clause.
    pub open spec fn predicates_view(self) -> Seq<WherePredicate> {
        match self.0 {
            Some(data) => data.where_predicates@,
            None => Seq::empty(),
        }
    }

    /// There is no storage for nothing, and every parameter has an index.
    pub open spec fn wf(self) -> bool {
        &&& self.0 is Some ==> self.types_view().len() + self.lifetimes_view().len()
            + self.predicates_view().len() > 0
        &&& self.types_view().len() <= u32::MAX
        &&& self.lifetimes_view().len() <= u32::MAX
    }

    /// The place of the `Self` parameter of a trait.
    pub const SELF_PARAM_ID_IN_SELF: u32 = 0;

    /// No parameters.
    pub fn empty() -> (r: GenericParams)
        ensures
            r.wf(),
            r.0 is None,
    {
        GenericParams(None)
    }

    /// The given parameters.
    pub fn new(
        type_or_consts: ItemArena<TypeOrConstParamData>,
        lifetimes: ItemArena<LifetimeParamData>,
        where_predicates: Vec<WherePredicate>,
    ) -> (r: GenericParams)
        requires
            arena::items(type_or_consts).len() <= u32::MAX,
            arena::items(lifetimes).len() <= u32::MAX,
        ensures
            r.wf(),
            r.types_view() == arena::items(type_or_consts),
            r.lifetimes_view() == arena::items(lifetimes),
            r.predicates_view() == where_predicates@,
            r.0 is None <==> arena::items(type_or_consts).len() == 0 && arena::items(
                lifetimes,
            ).len() == 0 && where_predicates@.len() == 0,
    {
        if arena::arena_len(&type_or_consts) == 0 && arena::arena_len(&lifetimes) == 0
            && where_predicates.len() == 0 {
            let r = GenericParams(None);
            proof {
                assert(r.types_view() =~= arena::items(type_or_consts));
                assert(r.lifetimes_view() =~= arena::items(lifetimes));
                assert(r.predicates_view() =~= where_predicates@);
            }
            r
        } else {
            GenericParams(
                Some(Box::new(GenericParamsData { type_or_consts, lifetimes, where_predicates })),
            )
        }
    }

    /// The type or const parameter at a place.
    pub fn type_or_const(&self, id: LocalTypeOrConstParamId) -> (r: &TypeOrConstParamData)
        requires
            id.0 < self.types_view().len(),
        ensures
            *r == self.types_view()[id.0 as int],
    {
        match &self.0 {
            Some(data) => arena::arena_get(&data.type_or_consts, id.0),
            None => vstd::pervasive::unreached(),
        }
    }

    /// The lifetime parameter at a place.
    pub fn lifetime(&self, id: LocalLifetimeParamId) -> (r: &LifetimeParamData)
        requires
            id.0 < self.lifetimes_view().len(),
        ensures
            *r == self.lifetimes_view()[id.0 as int],
    {
        match &self.0 {
            Some(data) => arena::arena_get(&data.lifetimes, id.0),
            None => vstd::pervasive::unreached(),
        }
    }

    /// How many lifetime parameters there are of both sorts.
    pub(crate) fn len_all_lifetimes(&self) -> (r: usize)
        ensures
            r == self.lifetimes_view().len(),
    {
        match &self.0 {
            Some(data) => arena::arena_len(&data.lifetimes),
            None => 0,
        }
    }

    /// How many type and const parameters there are.
    pub fn len_type_or_consts(&self) -> (r: usize)
        ensures
            r == self.types_view().len(),
    {
        match &self.0 {
            Some(data) => arena::arena_len(&data.type_or_consts),
            None => 0,
        }
    }

    /// How many parameters there are.
    pub fn len(&self) -> (r: usize)
        requires
            self.types_view().len() + self.lifetimes_view().len() <= usize::MAX,
        ensures
            r == self.types_view().len() + self.lifetimes_view().len(),
    {
        self.len_type_or_consts() + self.len_all_lifetimes()
    }

    /// How many lifetimes are bound late.
    pub fn len_late_bound_lifetimes(&self) -> (r: usize)
        requires
            self.wf(),
        ensures
            r == late_before(self.lifetimes_view(), self.lifetimes_view().len()),
            r <= self.lifetimes_view().len(),
    {
        let ghost s = self.lifetimes_view();
        let len: usize = self.len_all_lifetimes();
        let mut late: usize = 0;
        let mut i: usize = 0;
        while i < len
            invariant
                self.wf(),
                s == self.lifetimes_view(),
                len == s.len(),
                i <= len,
                late <= i,
                late == late_before(s, i as nat),
            decreases len - i,
        {
            if self.lifetime(LocalLifetimeParamId(i as u32)).is_late_bound() {
                late = late + 1;
            }
            i = i + 1;
        }
        late
    }

    /// How many lifetimes are not bound late.
    pub fn len_lifetimes(&self) -> (r: usize)
        requires
            self.wf(),
        ensures
            r == self.lifetimes_view().len() - late_before(
                self.lifetimes_view(),
                self.lifetimes_view().len(),
            ),
    {
        self.len_all_lifetimes() - self.len_late_bound_lifetimes()
    }

    pub fn is_empty(&self) -> (r: bool)
        ensures
            r == (self.types_view().len() == 0 && self.lifetimes_view().len() == 0),
    {
        self.len_type_or_consts() == 0 && self.len_all_lifetimes() == 0
    }

    pub fn has_no_predicates(&self) -> (r: bool)
        ensures
            r == (self.predicates_view().len() == 0),
    {
        match &self.0 {
            Some(data) => data.where_predicates.len() == 0,
            None => true,
        }
    }

    /// The predicates of the where clause.
    pub fn where_predicates(&self) -> (r: Vec<&WherePredicate>)
        ensures
            r@.len() == self.predicates_view().len(),
            forall|i: int| 0 <= i < r@.len() ==> *(#[trigger] r@[i]) == self.predicates_view()[i],
    {
        let mut r: Vec<&WherePredicate> = Vec::new();
        if let Some(data) = &self.0 {
            let mut i: usize = 0;
            while i < data.where_predicates.len()
                invariant
                    i <= data.where_predicates@.len(),
                    r@.len() == i,
                    forall|j: int|
                        0 <= j < i ==> *(#[trigger] r@[j]) == data.where_predicates@[j],
                decreases data.where_predicates@.len() - i,
            {
                r.push(&data.where_predicates[i]);
                i = i + 1;
            }
        }
        r
    }

    /// The type and const parameters with their places.
    pub fn iter_type_or_consts(&self) -> (r: Vec<(LocalTypeOrConstParamId, &TypeOrConstParamData)>)
        requires
            self.wf(),
        ensures
            r@.len() == self.types_view().len(),
            forall|i: int|
                0 <= i < r@.len() ==> (#[trigger] r@[i]).0.0 == i && *r@[i].1
                    == self.types_view()[i],
    {
        let len: usize = self.len_type_or_consts();
        let mut r: Vec<(LocalTypeOrConstParamId, &TypeOrConstParamData)> = Vec::new();
        let mut i: usize = 0;
        while i < len
            invariant
                self.wf(),
                len == self.types_view().len(),
                i <= len,
                r@.len() == i,
                forall|j: int|
                    0 <= j < i ==> (#[trigger] r@[j]).0.0 == j && *r@[j].1 == self.types_view()[j],
            decreases len - i,
        {
            let id = LocalTypeOrConstParamId(i as u32);
            r.push((id, self.type_or_const(id)));
            i = i + 1;
        }
        r
    }

    /// The lifetime parameters with their places.
    pub fn iter_lt(&self) -> (r: Vec<(LocalLifetimeParamId, &LifetimeParamData)>)
        requires
            self.wf(),
        ensures
            r@.len() == self.lifetimes_view().len(),
            forall|i: int|
                0 <= i < r@.len() ==> (#[trigger] r@[i]).0.0 == i && *r@[i].1
                    == self.lifetimes_view()[i],
    {
        let len: usize = self.len_all_lifetimes();
        let mut r: Vec<(LocalLifetimeParamId, &LifetimeParamData)> = Vec::new();
        let mut i: usize = 0;
        while i < len
            invariant
                self.wf(),
                len == self.lifetimes_view().len(),
                i <= len,
                r@.len() == i,
                forall|j: int|
                    0 <= j < i ==> (#[trigger] r@[j]).0.0 == j && *r@[j].1
                        == self.lifetimes_view()[j],
            decreases len - i,
        {
            let id = LocalLifetimeParamId(i as u32);
            r.push((id, self.lifetime(id)));
            i = i + 1;
        }
        r
    }

    /// The lifetime parameters that are bound late, or the others.
    fn iter_bound_lt(&self, late: bool) -> (r: Vec<(LocalLifetimeParamId, &LifetimeParamData)>)
        requires
            self.wf(),
        ensures
            bound_listed(r@, self.lifetimes_view(), late),
    {
        let ghost s = self.lifetimes_view();
        let len: usize = self.len_all_lifetimes();
        let mut r: Vec<(LocalLifetimeParamId, &LifetimeParamData)> = Vec::new();
        let mut i: usize = 0;
        while i < len
            invariant
                self.wf(),
                s == self.lifetimes_view(),
                len == s.len(),
                i <= len,
                r@.len() == bound_lifetimes(s, late, i as nat).len(),
                forall|j: int|
                    0 <= j < r@.len() ==> {
                        let place = bound_lifetimes(s, late, i as nat)[j];
                        &&& (#[trigger] r@[j]).0.0 == place
                        &&& *r@[j].1 == s[place as int]
                    },
            decreases len - i,
        {
            let id = LocalLifetimeParamId(i as u32);
            let param = self.lifetime(id);
            if param.is_late_bound() == late {
                r.push((id, param));
            }
            i = i + 1;
        }
        r
    }

    /// The lifetime parameters that are bound early, with their places.
    pub fn iter_early_bound_lt(&self) -> (r: Vec<(LocalLifetimeParamId, &LifetimeParamData)>)
        requires
            self.wf(),
        ensures
            bound_listed(r@, self.lifetimes_view(), false),
    {
        self.iter_bound_lt(false)
    }

    /// The lifetime parameters that are bound late, with their places.
    pub fn iter_late_bound_lt(&self) -> (r: Vec<(LocalLifetimeParamId, &LifetimeParamData)>)
        requires
            self.wf(),
        ensures
            bound_listed(r@, self.lifetimes_view(), true),
    {
        self.iter_bound_lt(true)
    }

    fn find_place(&self, name: &str, is_type: bool) -> (r: Option<LocalTypeOrConstParamId>)
        requires
            self.wf(),
        ensures
            find_param(self.types_view(), name@, is_type, 0) == (match r {
                Some(id) => Some(id.0 as nat),
                None => None,
            }),
    {
        let ghost s = self.types_view();
        let len: usize = self.len_type_or_consts();
        let mut i: usize = 0;
        while i < len
            invariant
                self.wf(),
                s == self.types_view(),
                len == s.len(),
                i <= len,
                find_param(s, name@, is_type, 0) == find_param(s, name@, is_type, i as nat),
            decreases len - i,
        {
            let id = LocalTypeOrConstParamId(i as u32);
            let param = self.type_or_const(id);
            if let Some(n) = param.name() {
                if text::same_text(n.as_str(), name) && param.type_param().is_some() == is_type {
                    return Some(id);
                }
            }
            i = i + 1;
        }
        None
    }

    /// The type parameter with the given name.
    pub fn find_type_by_name(&self, name: &str, parent: GenericDefId) -> (r: Option<TypeParamId>)
        requires
            self.wf(),
        ensures
            r is Some <==> find_param(self.types_view(), name@, true, 0) is Some,
            r matches Some(id) ==> id.0.parent == parent && find_param(
                self.types_view(),
                name@,
                true,
                0,
            ) == Some(id.0.local_id.0 as nat),
    {
        match self.find_place(name, true) {
            Some(local_id) => Some(TypeParamId(TypeOrConstParamId { parent, local_id })),
            None => None,
        }
    }

    /// The const parameter with the given name.
    pub fn find_const_by_name(&self, name: &str, parent: GenericDefId) -> (r: Option<ConstParamId>)
        requires
            self.wf(),
        ensures
            r is Some <==> find_param(self.types_view(), name@, false, 0) is Some,
            r matches Some(id) ==> id.0.parent == parent && find_param(
                self.types_view(),
                name@,
                false,
                0,
            ) == Some(id.0.local_id.0 as nat),
    {
        match self.find_place(name, false) {
            Some(local_id) => Some(ConstParamId(TypeOrConstParamId { parent, local_id })),
            None => None,
        }
    }

    /// The `Self` parameter of a trait, which is the first.
    pub fn trait_self_param(&self) -> (r: Option<LocalTypeOrConstParamId>)
        ensures
            r == (if self.types_view().len() > 0 && self.types_view()[0].spec_is_trait_self() {
                Some(LocalTypeOrConstParamId(0))
            } else {
                None
            }),
    {
        if self.len_type_or_consts() == 0 {
            return None;
        }
        let id = LocalTypeOrConstParamId(GenericParams::SELF_PARAM_ID_IN_SELF);
        if self.type_or_const(id).is_trait_self() {
            Some(id)
        } else {
            None
        }
    }

    /// The lifetime parameter with the given name.
    pub fn find_lifetime_by_name(&self, name: &str, parent: GenericDefId) -> (r: Option<
        LifetimeParamId,
    >)
        requires
            self.wf(),
        ensures
            r is Some <==> find_lifetime(self.lifetimes_view(), name@, 0) is Some,
            r matches Some(id) ==> id.parent == parent && find_lifetime(
                self.lifetimes_view(),
                name@,
                0,
            ) == Some(id.local_id.0 as nat),
    {
        let ghost s = self.lifetimes_view();
        let len: usize = self.len_all_lifetimes();
        let mut i: usize = 0;
        while i < len
            invariant
                self.wf(),
                s == self.lifetimes_view(),
                len == s.len(),
                i <= len,
                find_lifetime(s, name@, 0) == find_lifetime(s, name@, i as nat),
            decreases len - i,
        {
            let local_id = LocalLifetimeParamId(i as u32);
            if text::same_text(self.lifetime(local_id).name.as_str(), name) {
                return Some(LifetimeParamId { parent, local_id });
            }
            i = i + 1;
        }
        None
    }

    /// The number of a lifetime among those that are bound as it is, and whether it is bound late.
    pub fn lifetime_param_idx(&self, lifetime_param_id: &LocalLifetimeParamId) -> (r: Option<
        (usize, bool),
    >)
        requires
            self.wf(),
        ensures
            r is Some <==> lifetime_param_id.0 < self.lifetimes_view().len(),
            r matches Some((idx, late)) ==> {
                let k = lifetime_param_id.0 as nat;
                let s = self.lifetimes_view();
                &&& late == s[k as int].spec_is_late_bound()
                &&& idx == if late {
                    late_before(s, k) as int
                } else {
                    k - late_before(s, k)
                }
            },
    {
        let ghost s = self.lifetimes_view();
        let len: usize = self.len_all_lifetimes();
        let mut late_bound_idx: usize = 0;
        let mut i: usize = 0;
        while i < len
            invariant
                self.wf(),
                s == self.lifetimes_view(),
                len == s.len(),
                i <= len,
                late_bound_idx <= i,
                late_bound_idx == late_before(s, i as nat),
                i <= lifetime_param_id.0,
            decreases len - i,
        {
            let late = self.lifetime(LocalLifetimeParamId(i as u32)).is_late_bound();
            if i as u32 == lifetime_param_id.0 {
                let idx: usize = if late {
                    late_bound_idx
                } else {
                    i - late_bound_idx
                };
                return Some((idx, late));
            }
            if late {
                late_bound_idx = late_bound_idx + 1;
            }
            i = i + 1;
        }
        None
    }
}

/// Whether these are the lifetimes that are bound late, or the others, in order with their places.
pub open spec fn bound_listed(
    r: Seq<(LocalLifetimeParamId, &LifetimeParamData)>,
    s: Seq<LifetimeParamData>,
    late: bool,
) -> bool {
    &&& r.len() == bound_lifetimes(s, late, s.len()).len()
    &&& forall|i: int|
        0 <= i < r.len() ==> {
            let place = bound_lifetimes(s, late, s.len())[i];
            &&& (#[trigger] r[i]).0.0 == place
            &&& *r[i].1 == s[place as int]
        }
}

/// Every lifetime is either bound late or not.
pub proof fn lifetimes_are_bound_early_or_late(s: Seq<LifetimeParamData>)
    ensures
        bound_lifetimes(s, true, s.len()).len() == late_before(s, s.len()),
        bound_lifetimes(s, false, s.len()).len() == s.len() - late_before(s, s.len()),
        late_before(s, s.len()) <= s.len(),
{
    lemma_late_before(s, s.len());
}

/// Every parameter is counted once: among the types and constants, among the lifetimes that are bound
/// early or among those that are bound late.
pub proof fn params_are_counted_once(params: GenericParams)
    ensures
        params.types_view().len() + params.lifetimes_view().len() == params.types_view().len()
            + bound_lifetimes(
            params.lifetimes_view(),
            false,
            params.lifetimes_view().len(),
        ).len() + bound_lifetimes(
            params.lifetimes_view(),
            true,
            params.lifetimes_view().len(),
        ).len(),
{
    lifetimes_are_bound_early_or_late(params.lifetimes_view());
}

/// The number of a lifetime is its place in the list of those that are bound as it is.
pub proof fn lifetime_numbers_are_places(s: Seq<LifetimeParamData>, k: nat, n: nat)
    requires
        k < n <= s.len(),
    ensures
        ({
            let late = s[k as int].spec_is_late_bound();
            let idx = if late {
                late_before(s, k) as int
            } else {
                k - late_before(s, k)
            };
            &&& 0 <= idx < bound_lifetimes(s, late, n).len()
            &&& bound_lifetimes(s, late, n)[idx] == k
        }),
    decreases n,
{
    lemma_late_before(s, k);
    lemma_late_before(s, n);
    if k < n - 1 {
        lifetime_numbers_are_places(s, k, (n - 1) as nat);
    }
}

// The parameters of an item.

/// What is known of an item: its parameters, and where its expressions are stored.
pub struct Signature {
    pub generic_params: GenericParams,
    pub store: u32,
    pub source_map: u32,
}

/// The signatures of items.
pub struct Signatures {
    pub known: Vec<(GenericDefId, Signature)>,
    /// The parameters of constants and statics.
    pub none: GenericParams,
}

impl Signatures {
    pub open spec fn wf(self) -> bool {
        self.none.0 is None
    }

    /// The given signatures.
    pub fn new(known: Vec<(GenericDefId, Signature)>) -> (r: Signatures)
        ensures
            r.wf(),
            r.known@ == known@,
    {
        Signatures { known, none: GenericParams::empty() }
    }

    /// The place of an item, from `i` on.
    pub open spec fn find(self, def: GenericDefId, i: nat) -> Option<nat>
        decreases self.known@.len() - i,
    {
        if i >= self.known@.len() {
            None
        } else if self.known@[i as int].0 == def {
            Some(i)
        } else {
            self.find(def, i + 1)
        }
    }

    /// The signature of a known item.
    pub open spec fn of(self, def: GenericDefId) -> Signature {
        self.known@[self.find(def, 0)->0 as int].1
    }

    /// The parameters of a known item. Constants and statics have none.
    pub open spec fn params_of(self, def: GenericDefId) -> GenericParams {
        match def {
            GenericDefId::ConstId(_) => self.none,
            GenericDefId::StaticId(_) => self.none,
            _ => self.of(def).generic_params,
        }
    }

    fn get(&self, def: GenericDefId) -> (r: &Signature)
        requires
            self.find(def, 0) is Some,
        ensures
            *r == self.of(def),
    {
        let mut i: usize = 0;
        while i < self.known.len()
            invariant
                i <= self.known@.len(),
                self.find(def, 0) == self.find(def, i as nat),
                self.find(def, 0) is Some,
            decreases self.known@.len() - i,
        {
            if self.known[i].0 == def {
                return &self.known[i].1;
            }
            i = i + 1;
        }
        vstd::pervasive::unreached()
    }
}

impl GenericParams {
    /// The parameters of an item.
    pub fn of(signatures: &Signatures, def: GenericDefId) -> (r: &GenericParams)
        requires
            signatures.wf(),
            signatures.find(def, 0) is Some,
        ensures
            *r == signatures.params_of(def),
            def is ConstId || def is StaticId ==> r.0 is None,
    {
        GenericParams::with_store(signatures, def).0
    }

    /// The parameters of an item, and where its expressions are stored.
    pub fn with_store(signatures: &Signatures, def: GenericDefId) -> (r: (&GenericParams, u32))
        requires
            signatures.wf(),
            signatures.find(def, 0) is Some,
        ensures
            *r.0 == signatures.params_of(def),
            def is ConstId || def is StaticId ==> r.0.0 is None,
            r.1 == signatures.of(def).store,
    {
        let (params, store, _) = GenericParams::with_source_map(signatures, def);
        (params, store)
    }

    /// The parameters of an item, where its expressions are stored, and where in the text they are.
    pub fn with_source_map(signatures: &Signatures, def: GenericDefId) -> (r: (
        &GenericParams,
        u32,
        u32,
    ))
        requires
            signatures.wf(),
            signatures.find(def, 0) is Some,
        ensures
            *r.0 == signatures.params_of(def),
            def is ConstId || def is StaticId ==> r.0.0 is None,
            r.1 == signatures.of(def).store,
            r.2 == signatures.of(def).source_map,
    {
        let sig = signatures.get(def);
        match def {
            GenericDefId::ConstId(_) => (&signatures.none, sig.store, sig.source_map),
            GenericDefId::StaticId(_) => (&signatures.none, sig.store, sig.source_map),
            GenericDefId::AdtId(_) => (&sig.generic_params, sig.store, sig.source_map),
            GenericDefId::FunctionId(_) => (&sig.generic_params, sig.store, sig.source_map),
            GenericDefId::ImplId(_) => (&sig.generic_params, sig.store, sig.source_map),
            GenericDefId::TraitId(_) => (&sig.generic_params, sig.store, sig.source_map),
            GenericDefId::TypeAliasId(_) => (&sig.generic_params, sig.store, sig.source_map),
        }
    }
}

} // verus!
