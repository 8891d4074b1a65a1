use ra_core::generics::{
    ConstParamData, ConstRef, GenericDefId, GenericParamData, GenericParams,
    GenericParamsCollector, GenericParamsData, LifetimeBoundType, LifetimeParamData,
    LifetimeParamId, LifetimeRefId, LocalLifetimeParamId, LocalTypeOrConstParamId, Signature,
    Signatures, TypeBound, TypeOrConstParamData, TypeOrConstParamId, TypeParamData,
    TypeParamProvenance, TypeRefId, WherePredicate,
};
use ra_core::ids::{ConstId, FunctionId, Id, StaticId, TraitId};

fn type_param(name: &str, provenance: TypeParamProvenance) -> TypeOrConstParamData {
    TypeParamData { name: Some(name.to_owned()), default: None, provenance }.into()
}

fn const_param(name: &str) -> TypeOrConstParamData {
    ConstParamData { name: name.to_owned(), ty: TypeRefId(1), default: Some(ConstRef(2)) }.into()
}

fn lifetime(name: &str, bound_type: LifetimeBoundType) -> LifetimeParamData {
    LifetimeParamData { name: name.to_owned(), bound_type }
}

fn finish(collector: GenericParamsCollector) -> GenericParams {
    GenericParams::new(collector.type_or_consts, collector.lifetimes, vec![])
}

fn function() -> GenericDefId {
    GenericDefId::FunctionId(FunctionId(Id::from_bits(7)))
}

#[test]
fn generic_params_are_one_pointer_when_empty() {
    assert_eq!(std::mem::size_of::<GenericParams>(), 8);
    assert!(GenericParams::default().is_empty());
    assert!(GenericParams::default().has_no_predicates());
}

#[test]
fn nonempty_generic_params_preserve_ids_and_iteration() {
    let name_of_type = "Type".to_owned();
    let lifetime_name = "lifetime".to_owned();
    let mut collector = GenericParamsCollector::new();
    let type_id = collector.alloc_type_or_const(
        TypeParamData {
            name: Some(name_of_type.clone()),
            default: None,
            provenance: TypeParamProvenance::TypeParamList,
        }
        .into(),
    );
    let lifetime_id = collector.alloc_lifetime(LifetimeParamData {
        name: lifetime_name.clone(),
        bound_type: LifetimeBoundType::EarlyBound,
    });

    let params = GenericParams::new(collector.type_or_consts, collector.lifetimes, vec![]);

    assert_eq!(params.len(), 2);
    assert_eq!(params.type_or_const(type_id).name(), Some(&name_of_type));
    assert_eq!(params.lifetime(lifetime_id).name, lifetime_name);
    assert_eq!(
        params.iter_type_or_consts().into_iter().map(|(id, _)| id).collect::<Vec<_>>(),
        [type_id]
    );
    assert_eq!(params.iter_lt().into_iter().map(|(id, _)| id).collect::<Vec<_>>(), [lifetime_id]);
}

#[test]
fn params_without_content_are_stored_as_nothing() {
    let empty = finish(GenericParamsCollector::new());
    assert!(empty.0.is_none());
    assert_eq!(empty, GenericParams::empty());
    assert_eq!((empty.len(), empty.len_lifetimes(), empty.len_type_or_consts()), (0, 0, 0));
    let predicates =
        vec![WherePredicate::Lifetime { target: LifetimeRefId(0), bound: LifetimeRefId(1) }];
    let none = GenericParamsCollector::new();
    let bounded = GenericParams::new(none.type_or_consts, none.lifetimes, predicates);
    assert!(bounded.0.is_some());
    assert!(bounded.is_empty());
    assert!(!bounded.has_no_predicates());
    assert_eq!(
        bounded.where_predicates(),
        [&WherePredicate::Lifetime { target: LifetimeRefId(0), bound: LifetimeRefId(1) }]
    );
}

fn many() -> GenericParams {
    let mut collector = GenericParamsCollector::new();
    collector.alloc_type_or_const(type_param("Self", TypeParamProvenance::TraitSelf));
    collector.alloc_type_or_const(type_param("T", TypeParamProvenance::TypeParamList));
    collector.alloc_type_or_const(const_param("N"));
    collector.alloc_type_or_const(type_param("N", TypeParamProvenance::TypeParamList));
    collector.alloc_lifetime(lifetime("'a", LifetimeBoundType::EarlyBound));
    collector.alloc_lifetime(lifetime("'b", LifetimeBoundType::LateBound));
    collector.alloc_lifetime(lifetime("'c", LifetimeBoundType::EarlyBound));
    collector.alloc_lifetime(lifetime("'d", LifetimeBoundType::LateBound));
    finish(collector)
}

#[test]
fn params_are_found_by_name() {
    let params = many();
    let id = |n| TypeOrConstParamId { parent: function(), local_id: LocalTypeOrConstParamId(n) };
    assert_eq!(params.find_type_by_name("T", function()).unwrap().0, id(1));
    assert_eq!(params.find_type_by_name("N", function()).unwrap().0, id(3));
    assert_eq!(params.find_const_by_name("N", function()).unwrap().0, id(2));
    assert!(params.find_const_by_name("T", function()).is_none());
    assert_eq!(
        params.find_lifetime_by_name("'c", function()),
        Some(LifetimeParamId { parent: function(), local_id: LocalLifetimeParamId(2) })
    );
    assert_eq!(params.find_lifetime_by_name("'e", function()), None);
}

#[test]
fn self_is_the_first_param_of_a_trait() {
    assert_eq!(many().trait_self_param(), Some(LocalTypeOrConstParamId(0)));
    assert_eq!(GenericParams::default().trait_self_param(), None);
    let mut collector = GenericParamsCollector::new();
    collector.alloc_type_or_const(type_param("T", TypeParamProvenance::TypeParamList));
    assert_eq!(finish(collector).trait_self_param(), None);
    let mut collector = GenericParamsCollector::new();
    collector.alloc_type_or_const(const_param("N"));
    assert_eq!(finish(collector).trait_self_param(), None);
}

#[test]
fn lifetimes_are_counted_by_how_they_are_bound() {
    let params = many();
    assert_eq!(params.len_lifetimes(), 2);
    assert_eq!(params.len_late_bound_lifetimes(), 2);
    assert_eq!(params.len_type_or_consts(), 4);
    assert_eq!(params.len(), 8);
    let early: Vec<u32> = params.iter_early_bound_lt().iter().map(|(id, _)| id.0).collect();
    let late: Vec<u32> = params.iter_late_bound_lt().iter().map(|(id, _)| id.0).collect();
    assert_eq!((early, late), (vec![0, 2], vec![1, 3]));
    let idx: Vec<Option<(usize, bool)>> =
        (0..5).map(|i| params.lifetime_param_idx(&LocalLifetimeParamId(i))).collect();
    assert_eq!(
        idx,
        [Some((0, false)), Some((0, true)), Some((1, false)), Some((1, true)), None]
    );
}

#[test]
fn params_say_what_they_are() {
    let t = type_param("T", TypeParamProvenance::TypeParamList);
    let n = const_param("N");
    assert_eq!(t.name().unwrap(), "T");
    assert_eq!(n.name().unwrap(), "N");
    assert!(t.type_param().is_some() && t.const_param().is_none());
    assert!(n.type_param().is_none() && n.const_param().is_some());
    assert!(!t.has_default() && n.has_default());
    assert!(!t.is_trait_self() && !n.is_trait_self());
    assert!(type_param("Self", TypeParamProvenance::TraitSelf).is_trait_self());
    let unnamed: TypeOrConstParamData = TypeParamData {
        name: None,
        default: Some(TypeRefId(0)),
        provenance: TypeParamProvenance::ArgumentImplTrait,
    }
    .into();
    assert_eq!(unnamed.name(), None);
    assert!(unnamed.has_default());
    let lt: GenericParamData = lifetime("'a", LifetimeBoundType::LateBound).into();
    assert_eq!(lt.name().unwrap(), "'a");
    assert!(lt.lifetime_param().unwrap().is_late_bound());
    assert!(lt.type_param().is_none() && lt.const_param().is_none());
}

#[test]
fn params_of_items() {
    let trait_ = GenericDefId::TraitId(TraitId(Id::from_bits(1)));
    let konst = GenericDefId::ConstId(ConstId(Id::from_bits(2)));
    let statik = GenericDefId::StaticId(StaticId(Id::from_bits(3)));
    let sig = |n| Signature { generic_params: many(), store: n, source_map: n + 10 };
    let signatures =
        Signatures::new(vec![(trait_, sig(0)), (konst, sig(1)), (statik, sig(2))]);
    assert_eq!(GenericParams::of(&signatures, trait_), &many());
    assert!(GenericParams::of(&signatures, konst).is_empty());
    assert_eq!(GenericParams::with_store(&signatures, trait_), (&many(), 0));
    assert_eq!(
        GenericParams::with_source_map(&signatures, statik),
        (&GenericParams::empty(), 2, 12)
    );
}

#[test]
fn predicates_are_kept() {
    let predicate = || WherePredicate::TypeBound {
        lifetimes: None,
        target: TypeRefId(3),
        bound: TypeBound(4),
    };
    let none = GenericParamsCollector::new();
    let params =
        GenericParams::new(none.type_or_consts, none.lifetimes, vec![predicate(), predicate()]);
    assert_eq!(params.where_predicates(), [&predicate(), &predicate()]);
}

#[test]
fn predicates_are_copied_with_their_lifetimes() {
    let lifetimes = [String::from("'a"), String::from("'b")];
    let predicate = WherePredicate::TypeBound {
        lifetimes: Some(lifetimes.into_iter().collect()),
        target: TypeRefId(3),
        bound: TypeBound(4),
    };
    assert_eq!(predicate.clone(), predicate);
}

#[test]
fn every_param_is_counted_once() {
    let params = many();
    assert_eq!(params.len(), params.iter_type_or_consts().len() + params.iter_lt().len());
    assert_eq!(params.len_lifetimes(), params.iter_early_bound_lt().len());
    assert_eq!(
        params.len(),
        params.len_type_or_consts() + params.len_lifetimes() + params.len_late_bound_lifetimes()
    );
}

#[test]
fn params_are_equal_by_contents() {
    let none = GenericParamsCollector::new();
    let stored = GenericParams(Some(Box::new(GenericParamsData {
        type_or_consts: none.type_or_consts,
        lifetimes: none.lifetimes,
        where_predicates: vec![],
    })));
    assert_eq!(stored, GenericParams::empty());
    assert_eq!(GenericParams::empty(), stored);
    assert_eq!(many(), many());
    assert_ne!(many(), stored);

    let lifetime = |name: &str, bound_type| {
        let mut collector = GenericParamsCollector::new();
        collector.alloc_lifetime(LifetimeParamData { name: name.to_string(), bound_type });
        finish(collector)
    };
    let early = LifetimeBoundType::EarlyBound;
    assert_eq!(lifetime("'a", early), lifetime("'a", early));
    assert_ne!(lifetime("'a", early), lifetime("'b", early));
    assert_ne!(lifetime("'a", early), lifetime("'a", LifetimeBoundType::LateBound));

    let konst = |name: &str, ty: u32, default: Option<u32>| {
        let mut collector = GenericParamsCollector::new();
        collector.alloc_type_or_const(
            ConstParamData {
                name: name.to_string(),
                ty: TypeRefId(ty),
                default: default.map(ConstRef),
            }
            .into(),
        );
        finish(collector)
    };
    assert_eq!(konst("N", 1, Some(2)), konst("N", 1, Some(2)));
    assert_ne!(konst("N", 1, Some(2)), konst("M", 1, Some(2)));
    assert_ne!(konst("N", 1, Some(2)), konst("N", 2, Some(2)));
    assert_ne!(konst("N", 1, Some(2)), konst("N", 1, None));

    let bounded = |names: Option<&[&str]>, target: u32| {
        let none = GenericParamsCollector::new();
        let lifetimes = names.map(|names| names.iter().map(|name| name.to_string()).collect());
        let predicate =
            WherePredicate::TypeBound { lifetimes, target: TypeRefId(target), bound: TypeBound(0) };
        GenericParams::new(none.type_or_consts, none.lifetimes, vec![predicate])
    };
    assert_eq!(bounded(Some(&["'a", "'b"]), 0), bounded(Some(&["'a", "'b"]), 0));
    assert_ne!(bounded(Some(&["'a", "'b"]), 0), bounded(Some(&["'b", "'a"]), 0));
    assert_ne!(bounded(Some(&["'a", "'b"]), 0), bounded(Some(&["'a"]), 0));
    assert_ne!(bounded(Some(&[]), 0), bounded(None, 0));
    assert_ne!(bounded(None, 0), bounded(None, 1));
}
