use ra_core::ast_id::erased::ErasedFileAstId;
use ra_core::ids::{
    AdtId, AttrId, BuiltinDeriveImplId, BuiltinType, ConstId, Crate, EnumId, EnumVariantId,
    ExternBlockId, ExternCrateId, FunctionId, Id, ImplId, Macro2Id, MacroCallId, MacroId,
    MacroRulesId, ModuleDefId, ModuleId, ProcMacroId, StaticId, StructId, TraitId, TypeAliasId,
    UnionId, UseId, UseTreeIdx, Visibility, VisibilityExplicitness,
};
use ra_core::item_scope::builtin::{builtin_get, builtin_scope};
use ra_core::item_scope::derives::{DeriveCall, DeriveCallIds};
use ra_core::item_scope::dump::{DumpInfo, MacroCallStyles};
use ra_core::item_scope::imports::{
    GlobId, ImportId, ImportOrDef, ImportOrExternCrate, ImportOrGlob,
};
use ra_core::item_scope::keys::AstId;
use ra_core::item_scope::push::PerNsGlobImports;
use ra_core::item_scope::resolve::UseScopes;
use ra_core::item_scope::scope::ItemScope;
use ra_core::per_ns::{
    DefModules, Item, ItemInNs, MacrosItem, PerNs, TypesItem, ValuesItem,
};

fn id(n: u64) -> Id {
    Id::from_bits(n)
}

fn module(n: u64) -> ModuleId {
    ModuleId(id(n))
}

fn function(n: u64) -> ModuleDefId {
    ModuleDefId::FunctionId(FunctionId(id(n)))
}

fn strukt(n: u64) -> ModuleDefId {
    ModuleDefId::AdtId(AdtId::StructId(StructId(id(n))))
}

fn rules(n: u64) -> MacroId {
    MacroId::MacroRulesId(MacroRulesId(id(n)))
}

fn import_id(n: u64) -> ImportId {
    ImportId { use_: UseId(id(n)), idx: UseTreeIdx(0) }
}

fn import(n: u64) -> ImportOrExternCrate {
    ImportOrExternCrate::Import(import_id(n))
}

fn glob(n: u64) -> ImportOrExternCrate {
    ImportOrExternCrate::Glob(GlobId { use_: UseId(id(n)), idx: UseTreeIdx(0) })
}

fn node(n: u32) -> AstId {
    AstId { file_id: 1, value: ErasedFileAstId(n) }
}

fn call(n: u64) -> MacroCallId {
    MacroCallId(id(n))
}

struct Pushes {
    scope: ItemScope,
    globs: PerNsGlobImports,
}

impl Pushes {
    fn new() -> Pushes {
        Pushes { scope: ItemScope::default(), globs: PerNsGlobImports::default() }
    }

    fn push(&mut self, name: &str, def: PerNs, import: Option<ImportOrExternCrate>) -> bool {
        self.scope.push_res_with_import(&mut self.globs, (module(1), name.to_owned()), def, import)
    }
}

#[test]
fn names_are_found_where_they_were_pushed() {
    let mut p = Pushes::new();
    assert!(p.push("f", PerNs::values(function(2), Visibility::Public, None), None));
    assert!(p.push("S", PerNs::types(strukt(3), Visibility::Public, None), Some(import(4))));
    assert!(p.push("m", PerNs::macros(rules(5), Visibility::Public, None), Some(glob(6))));
    let scope = &p.scope;
    assert_eq!(
        scope.get("f"),
        PerNs::values(function(2), Visibility::Public, None)
    );
    assert_eq!(scope.get("S"), PerNs::types(strukt(3), Visibility::Public, Some(import(4))));
    assert_eq!(scope.get("m"), PerNs::macros(rules(5), Visibility::Public, Some(glob(6))));
    assert!(scope.get("x").is_none());
    assert_eq!(scope.type_("S"), Some((strukt(3), Visibility::Public)));
    assert_eq!(scope.type_("f"), None);
    assert_eq!(scope.makro("m"), Some(rules(5)));
    assert_eq!(scope.makro("S"), None);
    assert!(p.globs.contains_macro(module(1), "m".to_owned()));
    assert!(!p.globs.contains_macro(module(2), "m".to_owned()));
    assert!(!p.globs.contains_type(module(1), "S".to_owned()));
    assert!(!p.globs.contains_value(module(1), "f".to_owned()));
}

#[test]
fn pushing_again_changes_nothing() {
    let mut p = Pushes::new();
    let def = PerNs::types(strukt(3), Visibility::Public, None);
    assert!(p.push("S", def, Some(import(4))));
    assert!(!p.push("S", def, Some(import(4))));
    assert!(p.push("S", PerNs::types(strukt(9), Visibility::Public, None), Some(import(4))));
    assert_eq!(p.scope.type_("S"), Some((strukt(9), Visibility::Public)));
    assert!(!p.push("S", PerNs::types(strukt(8), Visibility::Public, None), Some(import(5))));
}

#[test]
fn globs_are_shadowed_by_names() {
    let mut p = Pushes::new();
    assert!(p.push("f", PerNs::values(function(2), Visibility::Public, None), Some(glob(4))));
    assert!(p.globs.contains_value(module(1), "f".to_owned()));
    assert!(!p.push("f", PerNs::values(function(3), Visibility::Public, None), Some(glob(5))));
    assert!(p.push("f", PerNs::values(function(3), Visibility::Public, None), Some(import(6))));
    assert!(!p.globs.contains_value(module(1), "f".to_owned()));
    assert_eq!(
        p.scope.get("f").values.unwrap(),
        ValuesItem {
            def: function(3),
            vis: Visibility::Public,
            import: Some(ImportOrGlob::Import(import_id(6)))
        }
    );
    assert!(!p.push("f", PerNs::values(function(7), Visibility::Public, None), None));
}

#[test]
fn unresolved_names_are_recorded_once() {
    let mut p = Pushes::new();
    assert!(p.push("x", PerNs::none(), None));
    assert!(!p.push("x", PerNs::none(), None));
    assert!(p.scope.get("x").is_none());
    let entries = p.scope.entries();
    assert_eq!(entries.len(), 1);
    assert_eq!(entries[0].0, "x");
    assert!(entries[0].1.is_none());
}

#[test]
fn values_are_not_imported_by_extern_crates() {
    let mut p = Pushes::new();
    let extern_crate = ImportOrExternCrate::ExternCrate(ExternCrateId(id(9)));
    let def = PerNs {
        types: Some(Item { def: strukt(2), vis: Visibility::Public, import: None }),
        values: Some(Item { def: strukt(2), vis: Visibility::Public, import: None }),
        macros: None,
    };
    assert!(p.push("S", def, Some(extern_crate)));
    let got = p.scope.get("S");
    assert_eq!(got.types.unwrap().import, Some(extern_crate));
    assert_eq!(got.values.unwrap().import, None);
}

#[test]
fn imports_lead_to_what_they_import() {
    let mut p = Pushes::new();
    p.push("S", PerNs::types(strukt(3), Visibility::Public, None), Some(import(4)));
    p.push("T", PerNs::types(strukt(3), Visibility::Public, Some(import(4))), Some(import(5)));
    p.push("U", PerNs::types(strukt(6), Visibility::Public, None), Some(glob(7)));
    assert_eq!(p.scope.use_imports_types.get(import(4)), Some(ImportOrDef::Def(strukt(3))));
    assert_eq!(p.scope.use_imports_types.get(import(5)), Some(ImportOrDef::Import(import_id(4))));
    assert_eq!(p.scope.use_imports_types.get(import(6)), None);
    let mut found = p.scope.imports();
    found.sort();
    assert_eq!(found, [import_id(4), import_id(5)]);

    let scopes = UseScopes { scopes: vec![(UseId(id(4)), &p.scope), (UseId(id(5)), &p.scope)] };
    let resolved = p.scope.fully_resolve_import(&scopes, import_id(5));
    assert_eq!(
        resolved.types.unwrap(),
        TypesItem { def: strukt(3), vis: Visibility::Public, import: None }
    );
    assert!(resolved.values.is_none() && resolved.macros.is_none());
    assert!(p.scope.fully_resolve_import(&scopes, import_id(8)).is_none());
}

#[test]
fn resolving_follows_imports_into_other_scopes() {
    let mut inner = Pushes::new();
    inner.push("f", PerNs::values(function(3), Visibility::Public, None), Some(import(4)));
    inner.push("m", PerNs::macros(rules(8), Visibility::Public, None), Some(import(6)));
    let mut outer = Pushes::new();
    let through = Some(ImportOrGlob::Import(import_id(4)));
    let f = PerNs::values(function(3), Visibility::Public, through);
    outer.push("g", f, Some(import(5)));
    let m = PerNs::macros(rules(8), Visibility::Public, Some(import(6)));
    outer.push("n", m, Some(import(7)));
    let scopes =
        UseScopes { scopes: vec![(UseId(id(6)), &inner.scope), (UseId(id(4)), &inner.scope)] };
    assert_eq!(
        outer.scope.fully_resolve_import(&scopes, import_id(5)),
        PerNs::values(function(3), Visibility::Public, None)
    );
    assert_eq!(
        outer.scope.fully_resolve_import(&scopes, import_id(7)),
        PerNs::macros(rules(8), Visibility::Public, None)
    );
}

#[test]
fn declarations_are_listed() {
    let mut scope = ItemScope::default();
    scope.declare(function(1));
    scope.declare(strukt(2));
    scope.define_extern_crate_decl(ExternCrateId(id(3)));
    scope.define_extern_block(ExternBlockId(id(4)));
    scope.define_unnamed_const(ConstId(id(5)));
    scope.define_builtin_derive_impl(BuiltinDeriveImplId(id(6)));
    scope.define_impl(ImplId(id(7)), true);
    scope.define_impl(ImplId(id(8)), false);
    assert_eq!(scope.declarations(), [function(1), strukt(2)]);
    assert_eq!(scope.extern_crate_decls(), [ExternCrateId(id(3))]);
    assert_eq!(scope.extern_blocks(), [ExternBlockId(id(4))]);
    assert_eq!(scope.unnamed_consts(), [ConstId(id(5))]);
    assert_eq!(scope.builtin_derive_impls(), [BuiltinDeriveImplId(id(6))]);
    assert_eq!(scope.impls(), [ImplId(id(7)), ImplId(id(8))]);
    assert_eq!(scope.trait_impls(), [ImplId(id(7))]);
    assert_eq!(scope.inherent_impls(), [ImplId(id(8))]);
    assert_eq!(scope.use_decls(), []);
}

#[test]
fn traits_are_found_with_and_without_names() {
    let mut p = Pushes::new();
    let tr = |n| TraitId(id(n));
    p.push("T", PerNs::types(ModuleDefId::TraitId(tr(2)), Visibility::Public, None), None);
    p.push("S", PerNs::types(strukt(3), Visibility::Public, None), None);
    p.scope.push_unnamed_trait(tr(4), Visibility::PubCrate(Crate(id(9))), Some(import_id(5)));
    assert_eq!(p.scope.traits(), [tr(2), tr(4)]);
    assert_eq!(p.scope.unnamed_trait_vis(tr(4)), Some(Visibility::PubCrate(Crate(id(9)))));
    assert_eq!(p.scope.unnamed_trait_vis(tr(2)), None);
    let resolutions = p.scope.resolutions();
    assert_eq!(resolutions.len(), 3);
    assert!(resolutions[2].0.is_none());
    assert_eq!(resolutions[2].1.types.unwrap().def, ModuleDefId::TraitId(tr(4)));
    assert_eq!(resolutions[2].1.types.unwrap().import, Some(import(5)));
}

#[test]
fn entries_are_sorted_and_listed_once() {
    let mut p = Pushes::new();
    p.push("b", PerNs::values(function(2), Visibility::Public, None), None);
    p.push("a", PerNs::types(strukt(3), Visibility::Public, None), None);
    p.push("a", PerNs::macros(rules(4), Visibility::Public, None), None);
    p.push("c", PerNs::none(), None);
    let names: Vec<&str> = p.scope.entries().iter().map(|(name, _)| name.as_str()).collect();
    assert_eq!(names, ["a", "b", "c"]);
    let types: Vec<&str> = p.scope.types().iter().map(|(name, _)| name.as_str()).collect();
    let values: Vec<&str> = p.scope.values().iter().map(|(name, _)| name.as_str()).collect();
    let macros: Vec<&str> = p.scope.macros().iter().map(|(name, _)| name.as_str()).collect();
    assert_eq!((types, values, macros), (vec!["a"], vec!["b"], vec!["a"]));
}

#[test]
fn items_are_found_by_what_they_are() {
    let mut p = Pushes::new();
    let public = Visibility::Public;
    p.push("f", PerNs::values(function(2), public, None), None);
    p.push("g", PerNs::values(function(2), public, None), Some(import(3)));
    p.push("S", PerNs::types(strukt(4), public, None), None);
    p.push("m", PerNs::macros(rules(5), public, None), Some(import(6)));
    let item = ItemInNs::Values(function(2));
    assert_eq!(p.scope.name_of(item), Some((&"f".to_owned(), public, true)));
    assert_eq!(
        p.scope.all_names_of(item),
        [(&"f".to_owned(), public, true), (&"g".to_owned(), public, false)]
    );
    let first = p.scope.names_of(item, |name: &String, _, declared| {
        if declared { None } else { Some(name.clone()) }
    });
    assert_eq!(first, Some("g".to_owned()));
    assert_eq!(p.scope.name_of(ItemInNs::Types(strukt(4))).unwrap().0, "S");
    let (name, _, declared) = p.scope.name_of(ItemInNs::Macros(rules(5))).unwrap();
    assert_eq!((name.as_str(), declared), ("m", false));
    assert_eq!(p.scope.name_of(ItemInNs::Types(strukt(9))), None);
    assert_eq!(p.scope.name_of(ItemInNs::Types(function(2))), None);
}

#[test]
fn modules_are_found_among_the_types() {
    let mut p = Pushes::new();
    let vis = Visibility::Module(module(1), VisibilityExplicitness::Explicit);
    p.push("m", PerNs::types(ModuleDefId::ModuleId(module(5)), vis, None), None);
    p.push("S", PerNs::types(strukt(4), Visibility::Public, None), None);
    assert_eq!(p.scope.modules_in_scope(), [(module(5), vis)]);
}

#[test]
fn legacy_macros_are_kept_in_order() {
    let mut scope = ItemScope::default();
    scope.define_legacy_macro("m".to_owned(), rules(2));
    scope.define_legacy_macro("m".to_owned(), rules(3));
    scope.define_legacy_macro("n".to_owned(), rules(4));
    assert_eq!(scope.get_legacy_macro("m"), Some(&[rules(2), rules(3)][..]));
    assert_eq!(scope.get_legacy_macro("x"), None);
    let mut all: Vec<(&String, &[MacroId])> = scope.legacy_macros();
    all.sort();
    assert_eq!(all.len(), 2);
    assert_eq!(all[1], (&"n".to_owned(), &[rules(4)][..]));
}

#[test]
fn calls_are_found_by_their_nodes() {
    let mut scope = ItemScope::default();
    scope.add_macro_invoc(node(1), call(2));
    scope.add_macro_invoc(node(1), call(3));
    scope.add_attr_macro_invoc(node(1), call(4));
    assert_eq!(scope.macro_invoc(node(1)), Some(call(3)));
    assert_eq!(scope.macro_invoc(node(2)), None);
    assert_eq!(scope.iter_macro_invoc(), [&(node(1), call(3))]);
    assert_eq!(scope.attr_macro_invocs(), [&(node(1), call(4))]);
}

#[test]
fn derives_are_recorded_in_any_order() {
    let mut scope = ItemScope::default();
    let calls = DeriveCallIds::from_slice(&[None, None]);
    scope.init_derive_attribute(node(1), AttrId(0), call(2), calls);
    scope.init_derive_attribute(node(1), AttrId(1), call(3), DeriveCallIds::from_slice(&[None]));
    scope.set_derive_macro_invoc(node(1), DeriveCall::Macro(call(5)), AttrId(0), 1);
    let builtin = DeriveCall::Builtin(BuiltinDeriveImplId(id(6)));
    scope.set_derive_macro_invoc(node(1), builtin, AttrId(1), 0);
    scope.set_derive_macro_invoc(node(2), builtin, AttrId(1), 0);
    scope.set_derive_macro_invoc(node(1), builtin, AttrId(7), 0);
    assert_eq!(scope.derive_macro_invoc(node(1), AttrId(1)), Some(call(3)));
    assert_eq!(scope.derive_macro_invoc(node(1), AttrId(2)), None);
    assert_eq!(scope.derive_macro_invoc(node(2), AttrId(0)), None);
    let invocs = scope.derive_macro_invocs();
    assert_eq!(invocs.len(), 1);
    let (adt, attrs) = invocs[0];
    assert_eq!(adt, node(1));
    assert_eq!(attrs.len(), 2);
    assert_eq!((attrs[0].attr_id, attrs[0].attr_call_id), (AttrId(0), call(2)));
    assert_eq!(attrs[0].derive_call_ids.as_slice(), [None, Some(DeriveCall::Macro(call(5)))]);
    assert_eq!(attrs[1].derive_call_ids.as_slice(), [Some(builtin)]);
}

#[test]
fn all_calls_come_together() {
    let mut scope = ItemScope::default();
    scope.add_macro_invoc(node(1), call(2));
    scope.add_attr_macro_invoc(node(2), call(3));
    let calls = DeriveCallIds::from_slice(&[
        Some(DeriveCall::Macro(call(5))),
        None,
        Some(DeriveCall::Builtin(BuiltinDeriveImplId(id(6)))),
    ]);
    scope.init_derive_attribute(node(3), AttrId(0), call(4), calls);
    assert_eq!(scope.all_macro_calls(), [call(2), call(3), call(5)]);
}

#[test]
fn values_are_removed_only_for_the_same_definition() {
    let mut p = Pushes::new();
    p.push("f", PerNs::values(function(2), Visibility::Public, None), None);
    p.push("g", PerNs::values(function(3), Visibility::Public, None), None);
    p.scope.remove_from_value_ns("f", function(9));
    p.scope.remove_from_value_ns("x", function(2));
    assert_eq!(p.scope.values().len(), 2);
    p.scope.remove_from_value_ns("f", function(2));
    assert!(p.scope.get("f").is_none());
    assert_eq!(p.scope.get("g").values.unwrap().def, function(3));
}

#[test]
fn visibilities_and_definitions_are_updated() {
    let mut p = Pushes::new();
    let private = Visibility::Module(module(1), VisibilityExplicitness::Implicit);
    p.push("t", PerNs::types(strukt(2), Visibility::Public, None), Some(import(7)));
    p.push("v", PerNs::values(function(3), Visibility::Public, None), None);
    p.push("m", PerNs::macros(rules(4), Visibility::Public, None), None);
    p.scope.update_visibility_types("t", private);
    p.scope.update_visibility_values("v", private);
    p.scope.update_visibility_macros("m", private);
    assert_eq!(p.scope.get("t"), PerNs::types(strukt(2), private, Some(import(7))));
    assert_eq!(p.scope.get("v"), PerNs::values(function(3), private, None));
    assert_eq!(p.scope.get("m"), PerNs::macros(rules(4), private, None));
    p.scope.update_def_types("t", strukt(5), Visibility::Public);
    p.scope.update_def_values("v", function(6), Visibility::Public);
    p.scope.update_def_macros("m", rules(7), Visibility::Public);
    assert_eq!(p.scope.type_("t"), Some((strukt(5), Visibility::Public)));
    assert_eq!(p.scope.get("v").values.unwrap().def, function(6));
    assert_eq!(p.scope.makro("m"), Some(rules(7)));
}

#[test]
fn only_procedural_macros_stay_public() {
    let mut p = Pushes::new();
    let krate = Visibility::PubCrate(Crate(id(8)));
    let proc_macro = MacroId::ProcMacroId(ProcMacroId(id(4)));
    p.push("t", PerNs::types(strukt(2), Visibility::Public, None), None);
    p.push("v", PerNs::values(function(3), Visibility::Public, None), None);
    p.push("p", PerNs::macros(proc_macro, Visibility::Public, None), None);
    p.push("q", PerNs::macros(proc_macro, Visibility::Public, None), Some(import(5)));
    p.push("m", PerNs::macros(rules(6), Visibility::Public, None), None);
    p.scope.push_unnamed_trait(TraitId(id(7)), Visibility::Public, None);
    p.scope.censor_non_proc_macros(Crate(id(8)));
    assert_eq!(p.scope.get("t").types.unwrap().vis, krate);
    assert_eq!(p.scope.get("v").values.unwrap().vis, krate);
    assert_eq!(p.scope.get("p").macros.unwrap().vis, Visibility::Public);
    assert_eq!(p.scope.get("q").macros.unwrap().vis, krate);
    assert_eq!(p.scope.get("m").macros.unwrap().vis, krate);
    assert_eq!(p.scope.unnamed_trait_vis(TraitId(id(7))), Some(krate));
}

#[test]
fn scopes_are_printed_by_name() {
    let mut p = Pushes::new();
    let proc_macro = MacroId::ProcMacroId(ProcMacroId(id(4)));
    p.push("b", PerNs::types(strukt(2), Visibility::Public, None), Some(glob(3)));
    p.push("b", PerNs::values(function(2), Visibility::Public, None), Some(import(5)));
    p.push("a", PerNs::macros(proc_macro, Visibility::Public, None), None);
    p.push("type", PerNs::macros(rules(6), Visibility::Public, None), None);
    p.push("x", PerNs::none(), None);
    p.push(
        "e",
        PerNs::types(strukt(9), Visibility::Public, None),
        Some(ImportOrExternCrate::ExternCrate(ExternCrateId(id(7)))),
    );
    p.scope.push_unnamed_trait(TraitId(id(7)), Visibility::Public, Some(import_id(8)));
    let info = DumpInfo {
        styles: vec![
            (proc_macro, MacroCallStyles { fn_like: false, attr: true, derive: false }),
            (rules(6), MacroCallStyles { fn_like: true, attr: false, derive: true }),
        ],
        raw_names: vec!["type".to_owned()],
    };
    p.scope.define_legacy_macro("n".to_owned(), rules(6));
    p.scope.define_legacy_macro("n".to_owned(), rules(1));
    p.scope.define_legacy_macro("crate".to_owned(), proc_macro);
    let mut buf = "scope\n".to_owned();
    p.scope.dump(&info, &mut buf);
    assert_eq!(
        buf,
        "scope\n\
         - _ : type (import)\n\
         - a : macro#\n\
         - b : type (glob) value (import)\n\
         - e : type (extern)\n\
         - r#type : macro!#\n\
         - x : _\n\
         - (legacy) crate : macro#\n\
         - (legacy) n : macro!# macro\n"
    );
}

#[test]
fn shrinking_keeps_what_a_scope_shows() {
    let mut p = Pushes::new();
    let private = Visibility::Module(module(1), VisibilityExplicitness::Explicit);
    p.push("a", PerNs::types(strukt(2), private, None), Some(import(3)));
    p.push("a", PerNs::types(strukt(4), Visibility::Public, None), Some(import(3)));
    p.push("b", PerNs::values(function(5), Visibility::PubCrate(Crate(id(9))), None), Some(glob(6)));
    let (a, b) = (p.scope.get("a"), p.scope.get("b"));
    p.scope.shrink_to_fit();
    assert_eq!((p.scope.get("a"), p.scope.get("b")), (a, b));
    assert_eq!(p.scope.visibilities.len(), 1);
    assert_eq!(p.scope.imports.len(), 2);
}

#[test]
fn builtin_types_are_in_scope_everywhere() {
    let scope = builtin_scope();
    let named = |name: &str| builtin_get(&scope, name).unwrap().types.unwrap().def;
    assert_eq!(named("char"), ModuleDefId::BuiltinType(BuiltinType::Char));
    assert_eq!(named("u128"), ModuleDefId::BuiltinType(BuiltinType::U128));
    assert_eq!(named("f16"), ModuleDefId::BuiltinType(BuiltinType::F16));
    assert!(builtin_get(&scope, "i256").is_none());
    assert!(builtin_get(&scope, "bool").unwrap().values.is_none());
}

#[test]
fn definitions_go_where_they_can_be_named() {
    let vis = Visibility::Public;
    let spaces = |def: ModuleDefId, ctor: Option<Visibility>| {
        let ns = PerNs::from_def(def, vis, ctor, Some(import(3)));
        (ns.types.is_some(), ns.values.is_some(), ns.macros.is_some())
    };
    assert_eq!(spaces(ModuleDefId::ModuleId(module(1)), None), (true, false, false));
    assert_eq!(spaces(function(1), None), (false, true, false));
    assert_eq!(spaces(strukt(1), Some(vis)), (true, true, false));
    assert_eq!(spaces(strukt(1), None), (true, false, false));
    let union = ModuleDefId::AdtId(AdtId::UnionId(UnionId(id(1))));
    assert_eq!(spaces(union, None), (true, false, false));
    let enum_ = ModuleDefId::AdtId(AdtId::EnumId(EnumId(id(1))));
    assert_eq!(spaces(enum_, None), (true, false, false));
    let variant = ModuleDefId::EnumVariantId(EnumVariantId(id(1)));
    assert_eq!(spaces(variant, Some(vis)), (true, true, false));
    assert_eq!(spaces(ModuleDefId::ConstId(ConstId(id(1))), None), (false, true, false));
    assert_eq!(spaces(ModuleDefId::StaticId(StaticId(id(1))), None), (false, true, false));
    assert_eq!(spaces(ModuleDefId::TraitId(TraitId(id(1))), None), (true, false, false));
    assert_eq!(spaces(ModuleDefId::TypeAliasId(TypeAliasId(id(1))), None), (true, false, false));
    assert_eq!(spaces(ModuleDefId::BuiltinType(BuiltinType::Str), None), (true, false, false));
    assert_eq!(spaces(ModuleDefId::MacroId(rules(1)), None), (false, false, true));
    let private = Visibility::PubCrate(Crate(id(4)));
    let ns = PerNs::from_def(strukt(1), vis, Some(private), None);
    assert_eq!(ns.values.unwrap().vis, private);
}

#[test]
fn items_know_their_modules_and_crates() {
    let macro_def = MacroId::Macro2Id(Macro2Id(id(6)));
    let table = DefModules {
        modules: vec![
            (strukt(2), module(3)),
            (ModuleDefId::MacroId(macro_def), module(4)),
        ],
        crates: vec![(module(3), Crate(id(5))), (module(4), Crate(id(7)))],
    };
    assert_eq!(ItemInNs::Types(strukt(2)).module(&table), Some(module(3)));
    assert_eq!(ItemInNs::Values(strukt(2)).krate(&table), Some(Crate(id(5))));
    assert_eq!(ItemInNs::Macros(macro_def).module(&table), Some(module(4)));
    assert_eq!(ItemInNs::Macros(macro_def).krate(&table), Some(Crate(id(7))));
    let builtin = ItemInNs::Types(ModuleDefId::BuiltinType(BuiltinType::Char));
    assert_eq!((builtin.module(&table), builtin.krate(&table)), (None, None));
    assert_eq!(ItemInNs::Types(strukt(2)).as_module_def_id(), Some(strukt(2)));
    assert_eq!(ItemInNs::Macros(macro_def).as_module_def_id(), None);
}

#[test]
fn imports_are_taken_apart() {
    assert_eq!(import(3).import(), Some(import_id(3)));
    assert_eq!(import(3).glob(), None);
    assert_eq!(glob(4).import(), None);
    assert_eq!(glob(4).use_(), Some(UseId(id(4))));
    let extern_crate = ImportOrExternCrate::ExternCrate(ExternCrateId(id(9)));
    assert_eq!(extern_crate.use_(), None);
    assert_eq!(extern_crate.import_or_glob(), None);
    assert_eq!(import(3).import_or_glob(), Some(ImportOrGlob::Import(import_id(3))));
    assert_eq!(ImportOrGlob::Import(import_id(3)).into_import(), Some(import_id(3)));
    let star = GlobId { use_: UseId(id(4)), idx: UseTreeIdx(0) };
    assert_eq!(ImportOrGlob::Glob(star).into_import(), None);
}

#[test]
fn rereading_an_import_replaces_its_definition() {
    let item = TypesItem { def: strukt(2), vis: Visibility::Public, import: Some(import(3)) };
    assert!(item.is_reresolved_by(&strukt(4), Some(import(3))));
    assert!(!item.is_reresolved_by(&strukt(2), Some(import(3))));
    assert!(!item.is_reresolved_by(&strukt(4), Some(import(5))));
    let declared = MacrosItem { def: rules(2), vis: Visibility::Public, import: None };
    assert!(!declared.is_reresolved_by(&rules(3), None));
}

#[test]
fn ids_are_numbers_with_generations() {
    let it = Id::from_bits(0x5_0000_0007);
    assert_eq!((it.index(), it.generation()), (6, 5));
    assert_eq!(it.as_bits(), 0x5_0000_0007);
    assert_eq!(it.index(), salsa::Id::from_bits(0x5_0000_0007).index());
}

#[test]
fn calls_come_as_often_as_they_are_recorded() {
    let mut scope = ItemScope::default();
    scope.add_macro_invoc(node(1), call(2));
    scope.add_macro_invoc(node(2), call(2));
    scope.add_attr_macro_invoc(node(1), call(2));
    let derive = Some(DeriveCall::Macro(call(2)));
    let calls = DeriveCallIds::from_slice(&[derive, None, derive]);
    scope.init_derive_attribute(node(3), AttrId(0), call(4), calls);
    assert_eq!(scope.all_macro_calls(), [call(2); 5]);
    assert_eq!(scope.iter_macro_invoc().len(), 2);
    assert_eq!(scope.attr_macro_invocs().len(), 1);
    assert_eq!(scope.derive_macro_invocs().len(), 1);
}

#[test]
fn unchanged_scopes_show_the_same() {
    let mut p = Pushes::new();
    p.push("f", PerNs::values(function(2), Visibility::Public, None), Some(import(3)));
    p.push("x", PerNs::none(), None);
    let shown = |scope: &ItemScope| {
        let entries: Vec<(String, PerNs)> =
            scope.entries().into_iter().map(|(name, def)| (name.clone(), def)).collect();
        (entries, scope.imports())
    };
    let before = shown(&p.scope);
    let other = PerNs::values(function(9), Visibility::PubCrate(Crate(id(4))), None);
    assert!(!p.push("f", other, Some(glob(5))));
    assert!(!p.push("f", other, Some(import(6))));
    assert!(!p.push("x", PerNs::none(), Some(import(7))));
    assert_eq!(shown(&p.scope), before);
    assert!(!p.globs.contains_value(module(1), "f".to_owned()));
}

#[test]
fn visibilities_are_put_into_the_table_once() {
    let mut scope = ItemScope::default();
    let krate = Visibility::PubCrate(Crate(id(1)));
    scope.intern_visibility(Visibility::Public);
    assert_eq!(scope.visibilities.len(), 0);
    let first = scope.intern_visibility(krate);
    assert_eq!(scope.intern_visibility(krate), first);
    assert_eq!(&scope.visibilities[..], [krate]);
}
