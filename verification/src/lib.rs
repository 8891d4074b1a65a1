//! Core data structures of a Rust language front end: stable syntax ids, span maps, item scopes,
//! generic parameters and macro templates.

pub mod anchored;
pub mod anchors;
pub mod arena;
pub mod ast;
pub mod ast_id;
pub mod editioned_file_id;
pub mod first_entries;
pub mod fx;
pub mod generics;
pub mod green;
pub mod hir_file;
pub mod ids;
pub mod input;
pub mod item_scope;
pub mod mbe;
pub mod memory_usage;
pub mod node_types;
pub mod param_places;
pub mod path_parts;
pub mod per_ns;
pub mod printing;
pub mod real_span_map;
pub mod small;
pub mod same_params;
pub mod selection;
pub mod sorting;
pub mod span;
pub mod span_map;
pub mod storage;
pub mod syntax_kind;
pub mod syntax_node;
pub mod syntax_ptr;
pub mod text;
pub mod thin;
pub mod tt;
pub mod vfs_path;
