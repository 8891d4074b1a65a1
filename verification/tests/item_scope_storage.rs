use ra_core::ids::{
    Crate, ExternCrateId, Id, ModuleDefId, ModuleId, UseId, UseTreeIdx, Visibility,
    VisibilityExplicitness,
};
use ra_core::item_scope::imports::{
    GlobId, ImportId, ImportOrExternCrate, ImportOrGlob, ScopeImportId, ScopeVisibility,
};
use ra_core::item_scope::scope::{ItemScope, ScopeTypesItem, ScopeValuesItem};
use ra_core::per_ns::{TypesItem, ValuesItem};
use thin_vec::ThinVec;

#[test]
fn values_scope_entry_is_compact() {
    assert_eq!(std::mem::size_of::<ScopeValuesItem>(), 24);
}

#[test]
fn type_scope_entry_is_compact() {
    assert_eq!(std::mem::size_of::<ScopeTypesItem>(), 24);
}

#[test]
fn scope_visibilities_roundtrip_and_deduplicate() {
    let krate = Crate(Id::from_bits(1));
    let module = ModuleId(Id::from_bits(2));
    let visibilities = [
        Visibility::Public,
        Visibility::PubCrate(krate),
        Visibility::Module(module, VisibilityExplicitness::Implicit),
        Visibility::Module(module, VisibilityExplicitness::Explicit),
    ];
    let mut stored = ThinVec::new();

    for visibility in visibilities {
        let first = ScopeVisibility::new(visibility, &mut stored);
        let second = ScopeVisibility::new(visibility, &mut stored);
        assert_eq!(first, second);
        assert_eq!(first.get(&stored), visibility);
    }
    assert_eq!(stored.len(), 3, "public visibility should not need an arena entry");
}

#[test]
fn shrinking_scope_normalizes_visibility_storage() {
    let krate = Crate(Id::from_bits(1));
    let module = ModuleId(Id::from_bits(2));
    let type_vis = Visibility::PubCrate(krate);
    let value_vis = Visibility::Module(module, VisibilityExplicitness::Explicit);
    let type_import =
        ImportOrExternCrate::Glob(GlobId { use_: UseId(Id::from_bits(3)), idx: UseTreeIdx(4) });
    let value_import =
        ImportOrGlob::Import(ImportId { use_: UseId(Id::from_bits(5)), idx: UseTreeIdx(6) });
    let mut first = ItemScope::default();
    let mut second = ItemScope::default();

    for (scope, reverse_intern_order) in [(&mut first, false), (&mut second, true)] {
        if reverse_intern_order {
            scope.intern_visibility(value_vis);
            ScopeImportId::new(Some(value_import.into()), &mut scope.imports);
        }
        let type_id = scope.intern_visibility(type_vis);
        let value_id = scope.intern_visibility(value_vis);
        let def = ModuleDefId::ModuleId(module);
        scope.types.inner.insert(
            "[missing name]".to_owned(),
            ScopeTypesItem::new(
                TypesItem { def, vis: type_vis, import: Some(type_import) },
                type_id,
                &mut scope.imports,
            ),
        );
        scope.values.inner.insert(
            "[missing name]".to_owned(),
            ScopeValuesItem::new(
                ValuesItem { def, vis: value_vis, import: Some(value_import) },
                value_id,
                &mut scope.imports,
            ),
        );
    }

    assert_ne!(first, second);
    first.shrink_to_fit();
    second.shrink_to_fit();
    assert_eq!(first, second);
}

#[test]
fn scope_imports_roundtrip_and_deduplicate() {
    let imports = [
        ImportOrExternCrate::Import(ImportId {
            use_: UseId(Id::from_bits(1)),
            idx: UseTreeIdx(2),
        }),
        ImportOrExternCrate::Glob(GlobId { use_: UseId(Id::from_bits(3)), idx: UseTreeIdx(4) }),
        ImportOrExternCrate::ExternCrate(ExternCrateId(Id::from_bits(5))),
    ];
    let mut stored = ThinVec::new();

    assert_eq!(ScopeImportId::none().get(&stored), None);
    for import in imports {
        let first = ScopeImportId::new(Some(import), &mut stored);
        let second = ScopeImportId::new(Some(import), &mut stored);
        assert_eq!(first, second);
        assert_eq!(first.get(&stored), Some(import));
    }
    assert_eq!(stored.len(), imports.len());

    let shared = ImportId { use_: UseId(Id::from_bits(7)), idx: UseTreeIdx(8) };
    let def = ModuleDefId::ModuleId(ModuleId(Id::from_bits(9)));
    let type_item = TypesItem {
        def,
        vis: Visibility::Public,
        import: Some(ImportOrExternCrate::Import(shared)),
    };
    let value_item =
        ValuesItem { def, vis: Visibility::Public, import: Some(ImportOrGlob::Import(shared)) };
    let public = ScopeVisibility::new(Visibility::Public, &mut ThinVec::new());
    let compact_type = ScopeTypesItem::new(type_item, public, &mut stored);
    let compact_value = ScopeValuesItem::new(value_item, public, &mut stored);

    assert_eq!(stored.len(), imports.len() + 1);
    assert_eq!(compact_type.get(&[], &stored), type_item);
    assert_eq!(compact_value.get(&[], &stored), value_item);
}
