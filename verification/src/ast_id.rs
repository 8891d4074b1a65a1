//! Stable ids for the "large" nodes of a file, such as items and macro calls.

pub mod erased;
pub mod identity;
pub mod walk;
pub mod collect;
pub mod index_map;
pub mod assign;
pub mod laws;
pub mod stability;
pub mod naming;
pub mod placing;
pub mod blocks;
pub mod numbering;
pub mod hashing;
pub mod tables;
pub mod ast_id_map;
pub mod typed;
