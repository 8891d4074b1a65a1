use ra_core::anchors::{file_anchors, real_span_map, top_level_item_ptrs};
use ra_core::ast;
use ra_core::ast::AstNode;
use ra_core::ast_id::ast_id_map::AstIdMap;
use ra_core::ast_id::assign::{assign_ids, impl_ast_id, parent_of};
use ra_core::ast_id::collect::collect;
use ra_core::ast_id::erased::{
    pack_hash_index_and_kind, u16_hash, ErasedFileAstId, ErasedFileAstIdKind,
    FIXUP_ERASED_FILE_AST_ID_MARKER, NO_DOWNMAP_ERASED_FILE_AST_ID_MARKER,
    ROOT_ERASED_FILE_AST_ID,
};
use ra_core::ast_id::identity::{
    direct_child_text, hash_identity, identity_of, impl_identity, macro_call_name, path_type_name,
    BlockExprFileAstId, ErasedHasNameFileAstId, Identity, ImplFileAstId,
};
use ra_core::ast_id::index_map::ErasedAstIdNextIndexMap;
use ra_core::ast_id::typed::{AstPtr, FileAstId};
use ra_core::green::{GreenElement, GreenNode, GreenToken};
use ra_core::span::{EditionedFileId, FileId};
use ra_core::syntax_kind::SyntaxKind;
use ra_core::syntax_ptr::SyntaxNodePtr;
use ra_core::text::{TextRange, TextSize};
use std::hash::BuildHasher;

/// The kind of a node, by its name.
fn node_kind(name: &str) -> SyntaxKind {
    match name {
        "SOURCE_FILE" => SyntaxKind::SOURCE_FILE,
        "ENUM" => SyntaxKind::ENUM,
        "STRUCT" => SyntaxKind::STRUCT,
        "UNION" => SyntaxKind::UNION,
        "EXTERN_CRATE" => SyntaxKind::EXTERN_CRATE,
        "MACRO_DEF" => SyntaxKind::MACRO_DEF,
        "MACRO_RULES" => SyntaxKind::MACRO_RULES,
        "MODULE" => SyntaxKind::MODULE,
        "STATIC" => SyntaxKind::STATIC,
        "TRAIT" => SyntaxKind::TRAIT,
        "VARIANT" => SyntaxKind::VARIANT,
        "CONST" => SyntaxKind::CONST,
        "FN" => SyntaxKind::FN,
        "MACRO_CALL" => SyntaxKind::MACRO_CALL,
        "TYPE_ALIAS" => SyntaxKind::TYPE_ALIAS,
        "EXTERN_BLOCK" => SyntaxKind::EXTERN_BLOCK,
        "USE" => SyntaxKind::USE,
        "IMPL" => SyntaxKind::IMPL,
        "BLOCK_EXPR" => SyntaxKind::BLOCK_EXPR,
        "ASM_EXPR" => SyntaxKind::ASM_EXPR,
        "MACRO_TYPE" => SyntaxKind::MACRO_TYPE,
        "PATH_TYPE" => SyntaxKind::PATH_TYPE,
        "TUPLE_TYPE" => SyntaxKind::TUPLE_TYPE,
        "NAME" => SyntaxKind::NAME,
        "NAME_REF" => SyntaxKind::NAME_REF,
        "PATH" => SyntaxKind::PATH,
        "PATH_SEGMENT" => SyntaxKind::PATH_SEGMENT,
        "ATTR" => SyntaxKind::ATTR,
        "EXTERN_ITEM_LIST" => SyntaxKind::EXTERN_ITEM_LIST,
        "ASSOC_ITEM_LIST" => SyntaxKind::ASSOC_ITEM_LIST,
        "ITEM_LIST" => SyntaxKind::ITEM_LIST,
        "VARIANT_LIST" => SyntaxKind::VARIANT_LIST,
        "STMT_LIST" => SyntaxKind::STMT_LIST,
        "EXPR_STMT" => SyntaxKind::EXPR_STMT,
        "MACRO_EXPR" => SyntaxKind::MACRO_EXPR,
        "OTHER" => SyntaxKind::Other(100),
        _ => panic!("no such kind: {}", name),
    }
}

fn token(text: &str) -> GreenElement {
    let kind = if text.trim().is_empty() {
        SyntaxKind::WHITESPACE
    } else if text == "for" {
        SyntaxKind::FOR_KW
    } else {
        SyntaxKind::Other(101)
    };
    GreenElement::Token(GreenToken { kind, text: text.to_owned() })
}

/// Reads a tree: a node is written as its kind and its children in brackets, a name as such, and
/// any other token in quotes.
fn read(text: &mut std::iter::Peekable<std::str::Chars<'_>>) -> GreenNode {
    assert_eq!(text.next(), Some('('));
    let mut kind = String::new();
    while let Some(c) = text.next_if(|c| c.is_ascii_uppercase() || *c == '_') {
        kind.push(c);
    }
    let mut children = Vec::new();
    loop {
        match *text.peek().unwrap() {
            '(' => children.push(GreenElement::Node(read(text))),
            ')' => {
                text.next();
                return GreenNode::new(node_kind(&kind), children);
            }
            '\'' => {
                text.next();
                let mut quoted = String::new();
                while let Some(c) = text.next_if(|c| *c != '\'') {
                    quoted.push(c);
                }
                text.next();
                children.push(token(&quoted));
            }
            ' ' | '\n' => {
                text.next();
            }
            _ => {
                let mut name = String::new();
                while let Some(c) = text.next_if(|c| c.is_alphanumeric()) {
                    name.push(c);
                }
                children.push(GreenElement::Token(GreenToken {
                    kind: SyntaxKind::IDENT,
                    text: name,
                }));
            }
        }
    }
}

fn tree(text: &str) -> GreenNode {
    read(&mut text.chars().peekable())
}

/// The nodes of a tree with their pointers, in document order.
fn nodes<'a>(node: &'a GreenNode, start: u32, out: &mut Vec<(&'a GreenNode, SyntaxNodePtr)>) {
    let range = TextRange::at(TextSize(start), TextSize(node.text_len));
    out.push((node, SyntaxNodePtr::from_kind_and_range(node.kind, range)));
    let mut at = start;
    for child in &node.children {
        if let GreenElement::Node(n) = child {
            nodes(n, at, out);
        }
        at += child.text_len();
    }
}

fn ptrs(root: &GreenNode, kind: SyntaxKind) -> Vec<SyntaxNodePtr> {
    let mut all = Vec::new();
    nodes(root, 0, &mut all);
    all.into_iter().map(|(_, ptr)| ptr).filter(|ptr| ptr.kind == kind).collect()
}

fn all_items() -> GreenNode {
    tree(
        "(SOURCE_FILE '\n'
        (EXTERN_CRATE 'extern' ' ' 'crate' ' ' (NAME_REF foo) ';') '\n'
        (FN 'fn' ' ' (NAME foo) (OTHER '(' ')') ' '
            (BLOCK_EXPR (STMT_LIST '{' '\n    '
                (UNION 'union' ' ' (NAME U) ' ' (OTHER '{' '}')) '\n' '}'))) '\n'
        (STRUCT 'struct' ' ' (NAME S) ';') '\n'
        (MACRO_RULES 'macro_rules' '!' ' ' (NAME m) ' ' (OTHER '{' '}')) '\n'
        (MACRO_DEF 'macro' ' ' (NAME m2) (OTHER '(' ')') ' ' (OTHER '{' '}')) '\n'
        (TRAIT 'trait' ' ' (NAME Trait) ' ' (ASSOC_ITEM_LIST '{' '}')) '\n'
        (IMPL 'impl' ' ' (PATH_TYPE (PATH (PATH_SEGMENT (NAME_REF Trait)))) ' ' 'for' ' '
            (PATH_TYPE (PATH (PATH_SEGMENT (NAME_REF S)))) ' ' (ASSOC_ITEM_LIST '{' '}')) '\n'
        (IMPL 'impl' ' ' (PATH_TYPE (PATH (PATH_SEGMENT (NAME_REF S)))) ' '
            (ASSOC_ITEM_LIST '{' '}')) '\n'
        (IMPL 'impl' ' '
            (MACRO_TYPE (MACRO_CALL (PATH (PATH_SEGMENT (NAME_REF m))) '!' (OTHER '(' ')'))) ' '
            (ASSOC_ITEM_LIST '{' '}')) '\n'
        (IMPL 'impl' ' '
            (MACRO_TYPE (MACRO_CALL (PATH (PATH_SEGMENT (NAME_REF m2))) '!' (OTHER '(' ')'))) ' '
            'for' ' '
            (MACRO_TYPE (MACRO_CALL (PATH (PATH_SEGMENT (NAME_REF m))) '!' (OTHER '(' ')'))) ' '
            (ASSOC_ITEM_LIST '{' '}')) '\n'
        (TYPE_ALIAS 'type' ' ' (NAME T) ' ' '=' ' '
            (PATH_TYPE (PATH (PATH_SEGMENT (NAME_REF i32)))) ';') '\n'
        (ENUM 'enum' ' ' (NAME E) ' ' (VARIANT_LIST '{' '\n    '
            (VARIANT (NAME V1) (OTHER '(' ')')) ',' '\n    '
            (VARIANT (NAME V2) ' ' (OTHER '{' '}')) ',' '\n    '
            (VARIANT (NAME V3)) ',' '\n' '}')) '\n'
        (STRUCT 'struct' ' ' (NAME S) ';') ' ' '// duplicate' '\n'
        (EXTERN_BLOCK 'extern' ' ' '\"C\"' ' ' (EXTERN_ITEM_LIST '{' '\n    '
            (STATIC 'static' ' ' (NAME S) ':' ' '
                (PATH_TYPE (PATH (PATH_SEGMENT (NAME_REF i32)))) ';') '\n' '}')) '\n'
        (STATIC 'static' ' ' 'mut' ' ' (NAME S) ':' ' '
            (PATH_TYPE (PATH (PATH_SEGMENT (NAME_REF i32)))) ' ' '=' ' ' '0' ';') '\n'
        (CONST 'const' ' ' (NAME FOO) ':' ' '
            (PATH_TYPE (PATH (PATH_SEGMENT (NAME_REF i32)))) ' ' '=' ' ' '0' ';') '\n        ')",
    )
}

#[test]
fn check_all_nodes() {
    let syntax = all_items();
    let ast_id_map = AstIdMap::from_source(&syntax);
    let mut all = Vec::new();
    nodes(&syntax, 0, &mut all);
    let mut checked = 0;
    for (node, ptr) in all {
        if !matches!(
            node.kind,
            SyntaxKind::EXTERN_CRATE
                | SyntaxKind::FN
                | SyntaxKind::UNION
                | SyntaxKind::STRUCT
                | SyntaxKind::MACRO_RULES
                | SyntaxKind::MACRO_DEF
                | SyntaxKind::MACRO_CALL
                | SyntaxKind::TRAIT
                | SyntaxKind::IMPL
                | SyntaxKind::TYPE_ALIAS
                | SyntaxKind::ENUM
                | SyntaxKind::VARIANT
                | SyntaxKind::EXTERN_BLOCK
                | SyntaxKind::STATIC
                | SyntaxKind::CONST
        ) {
            continue;
        }
        let ast_id = ast_id_map.erased_ast_id(ptr);
        let turn_back = ast_id_map.get_erased(ast_id);
        assert_eq!(ptr, turn_back);
        checked += 1;
    }
    assert_eq!(checked, 24);
    // The root, the nodes above and the block around the union.
    assert_eq!(ast_id_map.len(), 26);
}

#[test]
fn different_names_get_different_hashes() {
    let syntax = tree(
        "(SOURCE_FILE '\n'
        (FN 'fn' ' ' (NAME foo) (OTHER '(' ')') ' ' (BLOCK_EXPR (STMT_LIST '{' '}'))) '\n'
        (FN 'fn' ' ' (NAME bar) (OTHER '(' ')') ' ' (BLOCK_EXPR (STMT_LIST '{' '}'))) '\n        ')",
    );
    let ast_id_map = AstIdMap::from_source(&syntax);
    let fns: Vec<ast::Fn> =
        ptrs(&syntax, SyntaxKind::FN).into_iter().filter_map(ast::Fn::cast).collect();
    let [foo_fn, bar_fn] = fns.as_slice() else {
        panic!("not exactly 2 functions");
    };
    let foo_fn_id = ast_id_map.ast_id(foo_fn);
    let bar_fn_id = ast_id_map.ast_id(bar_fn);
    assert_ne!(foo_fn_id.raw.hash_value(), bar_fn_id.raw.hash_value(), "hashes are equal");
}

fn function_with_call(name: &str) -> String {
    format!(
        "(FN 'fn' ' ' (NAME {}) (OTHER '(' ')') ' ' (BLOCK_EXPR (STMT_LIST '{{' '\n    '
            (EXPR_STMT (MACRO_EXPR (MACRO_CALL (PATH (PATH_SEGMENT (NAME_REF m))) '!'
                (OTHER '(' ')'))) ';') '\n' '}}'))) '\n'",
        name
    )
}

#[test]
fn different_parents_get_different_hashes() {
    let syntax = tree(&format!(
        "(SOURCE_FILE '\n' {} {} '        ')",
        function_with_call("foo"),
        function_with_call("bar")
    ));
    let ast_id_map = AstIdMap::from_source(&syntax);
    let macro_calls: Vec<ast::MacroCall> =
        ptrs(&syntax, SyntaxKind::MACRO_CALL).into_iter().filter_map(ast::MacroCall::cast).collect();
    let [macro_call_foo, macro_call_bar] = macro_calls.as_slice() else {
        panic!("not exactly 2 macro calls");
    };
    let macro_call_foo_id = ast_id_map.ast_id(macro_call_foo);
    let macro_call_bar_id = ast_id_map.ast_id(macro_call_bar);
    assert_ne!(
        macro_call_foo_id.raw.hash_value(),
        macro_call_bar_id.raw.hash_value(),
        "hashes are equal"
    );
}

#[test]
fn green_identity_data_matches_typed_ast() {
    let syntax = tree(
        "(SOURCE_FILE '\n'
        (IMPL 'impl' ' ' (PATH_TYPE (PATH (PATH_SEGMENT (NAME_REF Trait)))) ' ' 'for' ' '
            (PATH_TYPE (PATH (PATH_SEGMENT (NAME_REF Type)))) ' ' (ASSOC_ITEM_LIST '{' '}')) '\n'
        (IMPL 'impl' ' '
            (PATH_TYPE (PATH (PATH (PATH_SEGMENT (NAME_REF qualified))) '::'
                (PATH_SEGMENT (NAME_REF Trait)))) ' ' 'for' ' '
            (PATH_TYPE (PATH (PATH (PATH_SEGMENT (NAME_REF qualified))) '::'
                (PATH_SEGMENT (NAME_REF Type)))) ' ' (ASSOC_ITEM_LIST '{' '}')) '\n'
        (IMPL 'impl' ' '
            (TUPLE_TYPE '(' (PATH_TYPE (PATH (PATH_SEGMENT (NAME_REF Type)))) ',' ')') ' '
            (ASSOC_ITEM_LIST '{' '}')) '\n'
        (MACRO_CALL (PATH (PATH_SEGMENT (NAME_REF plain))) '!' (OTHER '(' ')') ';') '\n'
        (MACRO_CALL (PATH (PATH (PATH_SEGMENT (NAME_REF qualified))) '::'
            (PATH_SEGMENT (NAME_REF nested))) '!' (OTHER '(' ')') ';') '\n        ')",
    );
    let mut all = Vec::new();
    nodes(&syntax, 0, &mut all);

    let mut expected = vec![
        (Some("Type"), Some("Trait")),
        (Some("Type"), Some("Trait")),
        (None, None),
    ]
    .into_iter();
    for (green, _) in all.iter().filter(|(n, _)| n.kind == SyntaxKind::IMPL) {
        let actual = impl_ast_id(green, &mut ErasedAstIdNextIndexMap::new());
        let (self_ty_name, trait_name) = expected.next().unwrap();
        let expected = ErasedAstIdNextIndexMap::new()
            .new_id(ErasedFileAstIdKind::Impl, &ImplFileAstId { self_ty_name, trait_name });
        assert_eq!(actual, expected);
    }
    assert!(expected.next().is_none());

    let names: Vec<&str> = all
        .iter()
        .filter(|(n, _)| n.kind == SyntaxKind::MACRO_CALL)
        .map(|(green, _)| macro_call_name(green))
        .collect();
    assert_eq!(names, ["plain", "nested"]);
}

fn function_without_items() -> GreenNode {
    tree(
        "(SOURCE_FILE '\n'
        (FN 'fn' ' ' (NAME foo) (OTHER '(' ')') ' ' (BLOCK_EXPR (STMT_LIST '{' '\n    '
            (OTHER 'let' ' ' (OTHER (NAME foo)) ' ' '=' ' ' '1' ';') '\n    '
            (EXPR_STMT (OTHER (OTHER (PATH (PATH_SEGMENT (NAME_REF bar))))
                (OTHER '(' (OTHER (PATH (PATH_SEGMENT (NAME_REF foo)))) ')')) ';')
            '\n' '}'))) '\n        ')",
    )
}

#[test]
fn blocks_with_no_items_have_no_id() {
    let syntax = function_without_items();
    let ast_id_map = AstIdMap::from_source(&syntax);
    let block = ptrs(&syntax, SyntaxKind::BLOCK_EXPR)
        .into_iter()
        .find_map(ast::BlockExpr::cast)
        .expect("no block");
    assert!(ast_id_map.ast_id_for_block(&block).is_none());
}

#[test]
fn blocks_with_items_have_ids() {
    let syntax = all_items();
    let ast_id_map = AstIdMap::from_source(&syntax);
    let block = ptrs(&syntax, SyntaxKind::BLOCK_EXPR)
        .into_iter()
        .find_map(ast::BlockExpr::cast)
        .expect("no block");
    let id = ast_id_map.ast_id_for_block(&block).expect("the block has an item");
    assert_eq!(id.erase().kind(), ErasedFileAstIdKind::BlockExpr.as_u32());
    assert_eq!(ast_id_map.get(id).syntax_node_ptr(), block.syntax());
}

#[test]
fn only_macro_calls_in_place_of_statements_give_blocks_ids() {
    let statement = tree(&format!("(SOURCE_FILE {})", function_with_call("foo")));
    let block = ptrs(&statement, SyntaxKind::BLOCK_EXPR)[0];
    assert!(AstIdMap::from_source(&statement).try_erased_ast_id(block).is_some());

    let argument = tree(
        "(SOURCE_FILE (FN 'fn' ' ' (NAME foo) (BLOCK_EXPR (STMT_LIST '{' (EXPR_STMT (OTHER
            (MACRO_EXPR (MACRO_CALL (PATH (PATH_SEGMENT (NAME_REF m))) '!' (OTHER '(' ')'))))
            ';') '}'))))",
    );
    let block = ptrs(&argument, SyntaxKind::BLOCK_EXPR)[0];
    let map = AstIdMap::from_source(&argument);
    assert!(map.try_erased_ast_id(block).is_none());
    assert!(map.try_erased_ast_id(ptrs(&argument, SyntaxKind::MACRO_CALL)[0]).is_some());
}

#[test]
fn roots_come_first() {
    let syntax = all_items();
    let map = AstIdMap::from_source(&syntax);
    let root = SyntaxNodePtr::from_kind_and_range(
        SyntaxKind::SOURCE_FILE,
        TextRange::at(TextSize(0), TextSize(syntax.text_len)),
    );
    assert_eq!(map.root(), root);
    assert_eq!(map.erased_ast_id(root), ROOT_ERASED_FILE_AST_ID());
    assert_eq!(map.get_erased(ROOT_ERASED_FILE_AST_ID()), root);
}

#[test]
fn parents_are_found_before_children() {
    let syntax = all_items();
    let found = collect(&syntax);
    assert_eq!(found.len(), 26);
    assert_eq!(found[0].kind, ErasedFileAstIdKind::Root);
    for (i, candidate) in found.iter().enumerate() {
        assert!(candidate.owner.map_or(true, |owner| owner < i));
    }
    let union = found.iter().position(|c| c.kind == ErasedFileAstIdKind::Union).unwrap();
    let block = found.iter().position(|c| c.kind == ErasedFileAstIdKind::BlockExpr).unwrap();
    assert_eq!(block + 1, union);
    assert_eq!(found[union].owner, found[block].owner);
    assert_eq!(found[found[union].owner.unwrap()].kind, ErasedFileAstIdKind::Fn);
}

#[test]
fn ids_are_made_from_the_given_hashes() {
    let syntax = tree(
        "(SOURCE_FILE (STRUCT 'struct' ' ' (NAME S) ';')
            (ENUM 'enum' ' ' (NAME E) ' ' (VARIANT_LIST '{' (VARIANT (NAME V)) '}'))
            (STRUCT 'struct' ' ' (NAME T) ';'))",
    );
    let hash = |data: &Identity| -> u64 {
        match data {
            Identity::HasName(it) if it.name == "E" => 1,
            Identity::AssocItem(it) => {
                assert_eq!(it.properties.name, "V");
                assert_eq!(it.parent.unwrap().kind(), ErasedFileAstIdKind::Enum.as_u32());
                2
            }
            _ => 3,
        }
    };
    let ids = assign_ids(&collect(&syntax), hash);
    let parts: Vec<(u32, u16, u32)> =
        ids.iter().map(|id| (id.kind(), id.hash_value(), id.index())).collect();
    let k = 0xecc5u16;
    let cube = k.wrapping_mul(k).wrapping_mul(k);
    assert_eq!(
        parts,
        [
            (ErasedFileAstIdKind::Root.as_u32(), 0, 0),
            (ErasedFileAstIdKind::Struct.as_u32(), cube.wrapping_mul(3), 0),
            (ErasedFileAstIdKind::Enum.as_u32(), cube, 0),
            (ErasedFileAstIdKind::Struct.as_u32(), cube.wrapping_mul(3), 1),
            (ErasedFileAstIdKind::Variant.as_u32(), cube.wrapping_mul(2), 0),
        ]
    );
}

#[test]
fn new_children_do_not_change_ids_around_them() {
    let file = |before: &str, inside: &str| {
        tree(&format!(
            "(SOURCE_FILE {} (TRAIT 'trait' ' ' (NAME T) (ASSOC_ITEM_LIST '{{' {} '}}'))
                (FN 'fn' ' ' (NAME f)))",
            before, inside
        ))
    };
    let id_of = |file: &GreenNode, kind| {
        AstIdMap::from_source(file).erased_ast_id(ptrs(file, kind)[0])
    };
    let empty = file("", "");
    let method = file("'    '", "(CONST 'const' ' ' (NAME C)) (CONST 'const' ' ' (NAME D))");
    assert_eq!(id_of(&empty, SyntaxKind::TRAIT), id_of(&method, SyntaxKind::TRAIT));
    assert_eq!(id_of(&empty, SyntaxKind::FN), id_of(&method, SyntaxKind::FN));
}

#[test]
fn equal_files_have_equal_maps() {
    let a = AstIdMap::from_source(&all_items());
    let b = AstIdMap::from_source(&all_items());
    assert!(a == b);
    assert!(a != AstIdMap::from_source(&function_without_items()));
    let mut empty = AstIdMap::default();
    assert_eq!(empty.len(), 0);
    assert!(empty != a);
    empty = AstIdMap::from_source(&all_items());
    assert!(empty == a);
}

#[test]
fn items_of_extern_blocks_have_no_parent() {
    let block = ErasedFileAstId(pack_hash_index_and_kind(7, 0, 15));
    let module = ErasedFileAstId(pack_hash_index_and_kind(7, 0, 7));
    let ids = vec![block, module];
    assert_eq!(parent_of(Some(0), &ids), None);
    assert_eq!(parent_of(Some(1), &ids), Some(module));
    assert_eq!(parent_of(None, &ids), None);
}

#[test]
fn ids_count_up_and_spill_into_the_next_hash() {
    let mut map = ErasedAstIdNextIndexMap::new();
    let kind = ErasedFileAstIdKind::Use;
    for index in 0..2048 {
        let id = map.new_id_for_hash(kind, 0);
        assert_eq!((id.hash_value(), id.index(), id.kind()), (0, index, kind.as_u32()));
    }
    let spilled = map.new_id_for_hash(kind, 0);
    assert_eq!((spilled.hash_value(), spilled.index()), (1, 0));
    let other = map.new_id_for_hash(ErasedFileAstIdKind::Impl, 0);
    assert_eq!((other.hash_value(), other.index()), (0, 0));
    assert_eq!(map.new_id_for_hash(kind, 0).index(), 1);
}

#[test]
fn hashes_are_folded() {
    assert_eq!(u16_hash(0), 0);
    let k = 0xecc5u16;
    assert_eq!(u16_hash(1), k.wrapping_mul(k).wrapping_mul(k));
    assert_eq!(u16_hash(0x1_0000), u16_hash(1));
    assert_eq!(u16_hash(0x1_0000_0000), k.wrapping_mul(k));
    assert_eq!(u16_hash(0x1_0000_0000_0000), k);
    assert_eq!(
        u16_hash(0x1234_5678_9abc_def0),
        (0xdef0u16.wrapping_add(0x9abc))
            .wrapping_mul(k)
            .wrapping_add(0x5678)
            .wrapping_mul(k)
            .wrapping_add(0x1234)
            .wrapping_mul(k)
    );
}

#[test]
fn ids_are_packed() {
    let id = ErasedFileAstId::from_raw(pack_hash_index_and_kind(0xbeef, 2047, 12));
    assert_eq!((id.hash_value(), id.index(), id.kind()), (0xbeef, 2047, 12));
    assert_eq!(id.into_raw(), 0xbeef | 2047 << 16 | 12 << 27);
    assert!(!id.is_root());
    assert!(ROOT_ERASED_FILE_AST_ID().is_root());
    assert_eq!(ROOT_ERASED_FILE_AST_ID().into_raw(), 0xa800_0000);
    assert_eq!(FIXUP_ERASED_FILE_AST_ID_MARKER().into_raw(), 0);
    assert_eq!(NO_DOWNMAP_ERASED_FILE_AST_ID_MARKER().into_raw(), 0xa000_0000);
}

#[test]
fn ids_are_printed() {
    let id = ErasedFileAstId(pack_hash_index_and_kind(0x0a0b, 5, 12));
    assert_eq!(id.fmt(true), "Fn[0A0B, 5]");
    assert_eq!(id.fmt(false), "ErasedFileAstId { kind: Fn, index: 5, hash: 0A0B }");
    assert_eq!(ErasedFileAstId(31 << 27).fmt(true), "Unknown[0000, 0]");
}

#[test]
fn ids_of_a_node_are_those_of_its_supertypes() {
    let id: FileAstId<ast::Struct> =
        AstIdMap::from_source(&all_items()).ast_id(&ast::Struct::cast(ptrs(&all_items(), SyntaxKind::STRUCT)[0]).unwrap());
    let adt: FileAstId<ast::Adt> = id.upcast();
    assert_eq!(adt.erase(), id.erase());
}

#[test]
fn pointers_have_types() {
    let ptr = ptrs(&all_items(), SyntaxKind::FN)[0];
    assert!(AstPtr::<ast::Fn>::try_from_raw(ptr).is_some());
    assert!(AstPtr::<ast::AssocItem>::try_from_raw(ptr).is_some());
    assert!(AstPtr::<ast::Struct>::try_from_raw(ptr).is_none());
    assert!(ast::Item::can_cast(SyntaxKind::EXTERN_BLOCK));
    assert!(!ast::Item::can_cast(SyntaxKind::VARIANT));
}

#[test]
fn identities_of_nodes() {
    let unnamed = tree("(STRUCT 'struct' ';')");
    assert_eq!(direct_child_text(&unnamed, SyntaxKind::NAME), "");
    let named = tree("(STRUCT (NAME (OTHER)) (NAME S))");
    assert_eq!(direct_child_text(&named, SyntaxKind::NAME), "S");
    assert_eq!(macro_call_name(&tree("(MACRO_CALL '!')")), "");
    assert_eq!(path_type_name(&tree("(TUPLE_TYPE '(' ')')")), None);
    let path = tree("(PATH_TYPE (PATH (PATH_SEGMENT (NAME_REF T))))");
    assert_eq!(path_type_name(&path), Some("T"));
    let without_for = tree(
        "(IMPL (PATH_TYPE (PATH (PATH_SEGMENT (NAME_REF A))))
            (PATH_TYPE (PATH (PATH_SEGMENT (NAME_REF B)))))",
    );
    let names = impl_identity(&without_for);
    assert_eq!((names.self_ty_name, names.trait_name), (Some("A"), None));
    let uses = tree("(USE 'use')");
    assert!(matches!(
        identity_of(&uses, None),
        Some((ErasedFileAstIdKind::Use, Identity::Nameless))
    ));
    assert!(identity_of(&tree("(BLOCK_EXPR)"), None).is_none());
    assert_eq!(ErasedFileAstId::should_alloc(SyntaxKind::BLOCK_EXPR), None);
    assert_eq!(
        ErasedFileAstId::should_alloc(SyntaxKind::ASM_EXPR),
        Some(ErasedFileAstIdKind::AsmExpr)
    );
}

#[test]
fn green_nodes_get_ids_of_their_own() {
    let mut map = ErasedAstIdNextIndexMap::new();
    let node = tree("(STRUCT 'struct' ' ' (NAME S) ';')");
    let first = ErasedFileAstId::ast_id_for_green(&node, &mut map, None).unwrap();
    let second = ErasedFileAstId::ast_id_for_green(&node, &mut map, None).unwrap();
    assert_eq!(first.hash_value(), second.hash_value());
    assert_eq!((first.index(), second.index()), (0, 1));
    let block = tree("(BLOCK_EXPR '{' '}')");
    assert_eq!(ErasedFileAstId::ast_id_for_green(&block, &mut map, None), None);
}

/// The nodes in a node that are items, by their kinds alone.
fn items_of(root: &GreenNode) -> Vec<TextRange> {
    let mut at = 0;
    let mut ranges = Vec::new();
    for child in &root.children {
        let len = child.text_len();
        if let GreenElement::Node(n) = child {
            if ast::Item::can_cast(n.kind) {
                ranges.push(TextRange::at(TextSize(at), TextSize(len)));
            }
        }
        at += len;
    }
    ranges
}

#[test]
fn green_item_pointers_resolve_like_red_items() {
    let tree = tree(
        "(SOURCE_FILE
        (FN 'fn' ' ' (NAME first) (OTHER '(' ')') ' ' (BLOCK_EXPR (STMT_LIST '{' '}'))) '\n\n'
        (STRUCT (ATTR '#' '[' (OTHER 'cfg' (OTHER '(' 'test' ')')) ']') '\n'
            'struct' ' ' (NAME Second) ';') '\n')",
    );
    let expected = items_of(&tree);
    let mut all = Vec::new();
    nodes(&tree, 0, &mut all);
    let actual = top_level_item_ptrs(&tree)
        .into_iter()
        .map(|ptr| all.iter().find(|(_, p)| *p == ptr).unwrap().1.text_range())
        .collect::<Vec<_>>();

    assert_eq!(actual, expected);
    assert_eq!(
        actual,
        [
            TextRange::new(TextSize(0), TextSize(13)),
            TextRange::new(TextSize(15), TextSize(42))
        ]
    );
}

fn nested_items() -> GreenNode {
    tree(
        "(SOURCE_FILE (FN 'fn' ' ' (NAME a)) '\n'
        (MODULE 'mod' ' ' (NAME m) (ITEM_LIST '{' (STRUCT 'struct' ' ' (NAME S)) '}')) '\n'
        (IMPL (ATTR '#' '[' ']') 'impl' (ASSOC_ITEM_LIST '{' (FN 'fn' ' ' (NAME b)) '}')) '\n'
        (TRAIT 'trait' ' ' (NAME T) (ASSOC_ITEM_LIST '{' (FN 'fn' ' ' (NAME c)) '}')) '\n'
        (EXTERN_BLOCK 'extern' (EXTERN_ITEM_LIST '{' (STATIC 'static' ' ' (NAME X)) '}')))",
    )
}

#[test]
fn items_without_attributes_hold_anchors() {
    let tree = nested_items();
    let kinds: Vec<SyntaxKind> = file_anchors(&tree).iter().map(|ptr| ptr.kind).collect();
    assert_eq!(
        kinds,
        [
            SyntaxKind::FN,
            SyntaxKind::MODULE,
            SyntaxKind::STRUCT,
            SyntaxKind::IMPL,
            SyntaxKind::TRAIT,
            SyntaxKind::FN,
            SyntaxKind::EXTERN_BLOCK,
            SyntaxKind::STATIC,
        ]
    );
}

#[test]
fn spans_of_a_file_are_relative_to_its_anchors() {
    let tree = nested_items();
    let file = EditionedFileId::current_edition(FileId::from_raw(0));
    let map = AstIdMap::from_source(&tree);
    let spans = real_span_map(file, &tree, &map);
    assert_eq!(spans.pairs.len(), 9);
    assert_eq!(spans.pairs[0], (TextSize(0), ROOT_ERASED_FILE_AST_ID()));
    assert_eq!(spans.end, TextSize(tree.text_len));
    let item = ptrs(&tree, SyntaxKind::STRUCT)[0];
    let span = spans.span_for_range(item.range);
    assert_eq!(span.anchor.ast_id, map.erased_ast_id(item));
    assert_eq!(span.range, TextRange::new(TextSize(0), TextSize(8)));
    let method = ptrs(&tree, SyntaxKind::FN)[1];
    let span = spans.span_for_range(method.range);
    assert_eq!(span.anchor.ast_id, map.erased_ast_id(ptrs(&tree, SyntaxKind::IMPL)[0]));
    assert_eq!(span.range.start, TextSize(8));
}

#[test]
fn lengths_of_trees_are_bounded() {
    let leaf = GreenElement::Token(GreenToken { kind: SyntaxKind::IDENT, text: "\u{e4}".into() });
    let node = GreenNode::try_new(SyntaxKind::NAME, vec![leaf]).unwrap();
    assert_eq!(node.text_len, 2);
    let huge = |len| {
        GreenElement::Node(GreenNode { kind: SyntaxKind::NAME, text_len: len, children: vec![] })
    };
    assert!(GreenNode::try_new(SyntaxKind::NAME, vec![huge(u32::MAX), huge(1)]).is_none());
    assert!(GreenNode::try_new(SyntaxKind::NAME, vec![huge(u32::MAX), huge(0)]).is_some());
}

#[test]
fn items_of_extern_blocks_have_the_ids_of_free_items() {
    let free = tree("(SOURCE_FILE (FN 'fn' ' ' (NAME f) '(' ')' ' ' (BLOCK_EXPR '{' '}')))");
    let foreign = tree(
        "(SOURCE_FILE (EXTERN_BLOCK 'extern' ' ' '\"C\"' ' '
            (EXTERN_ITEM_LIST '{' (FN 'fn' ' ' (NAME f) '(' ')' ';') '}')))",
    );
    let method = tree(
        "(SOURCE_FILE (TRAIT 'trait' ' ' (NAME T) ' '
            (ASSOC_ITEM_LIST '{' (FN 'fn' ' ' (NAME f) '(' ')' ';') '}')))",
    );
    let id_of = |file: &GreenNode| {
        AstIdMap::from_source(file).erased_ast_id(ptrs(file, SyntaxKind::FN)[0])
    };
    assert_eq!(id_of(&free), id_of(&foreign));
    assert_ne!(id_of(&free), id_of(&method));
}

#[test]
fn ids_of_data_are_those_of_their_hashes() {
    let kind = ErasedFileAstIdKind::Impl;
    let data = |name| ImplFileAstId { self_ty_name: Some(name), trait_name: None };
    let a = ErasedAstIdNextIndexMap::new().new_id(kind, &data("A"));
    let b = ErasedAstIdNextIndexMap::new().new_id(kind, &data("B"));
    assert_ne!(a, b);
    assert_eq!(ErasedAstIdNextIndexMap::new().new_id(kind, &data("A")), a);
}

#[test]
fn nodes_without_names_are_only_counted() {
    let syntax = tree(
        "(SOURCE_FILE (USE 'use' ' ' 'a' ';') (USE 'use' ' ' 'b' ';')
            (EXTERN_BLOCK 'extern' ' ' '\"C\"' ' ' (EXTERN_ITEM_LIST '{' '}')))",
    );
    let map = AstIdMap::from_source(&syntax);
    let parts = |ptr: SyntaxNodePtr| {
        let id = map.erased_ast_id(ptr);
        (id.hash_value(), id.index(), id.kind())
    };
    let uses: Vec<_> = ptrs(&syntax, SyntaxKind::USE).into_iter().map(parts).collect();
    assert_eq!(uses, [(0, 0, 16), (0, 1, 16)]);
    let blocks: Vec<_> = ptrs(&syntax, SyntaxKind::EXTERN_BLOCK).into_iter().map(parts).collect();
    assert_eq!(blocks, [(0, 0, 15)]);
}

#[test]
fn identities_are_hashed_by_what_they_are_made_of() {
    let hasher = rustc_hash::FxBuildHasher;
    assert_eq!(hash_identity(&Identity::Nameless), 0);
    assert_eq!(hasher.hash_one(()), 0);
    let parent = Some(ErasedFileAstId(0x1234_5678));
    let inner = hash_identity(&Identity::BlockExpr(BlockExprFileAstId { parent }));
    assert_eq!(inner, hasher.hash_one(&BlockExprFileAstId { parent }));
    assert_eq!(inner, hasher.hash_one(Some(0x1234_5678u32)));
    let outer = hash_identity(&Identity::BlockExpr(BlockExprFileAstId { parent: None }));
    assert_eq!(outer, hasher.hash_one(&BlockExprFileAstId { parent: None }));
    assert_ne!(inner, outer);
    let name = |name| ErasedHasNameFileAstId { name };
    assert_eq!(hash_identity(&Identity::HasName(name("S"))), hasher.hash_one(name("S")));
    assert_ne!(hasher.hash_one(name("S")), hasher.hash_one(name("T")));
}
