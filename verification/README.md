# ra_core

Core data structures of a Rust language front end, verified with Verus:

- stable ids for the large nodes of a file (`ast_id`), and the trees that they are made from
  (`green`, `syntax_node`, `syntax_kind`, `ast`, `syntax_ptr`);
- spans, and the maps between the text of files or macro expansions and spans (`span`, `span_map`,
  `real_span_map`, `anchors`, `hir_file`, `editioned_file_id`);
- the scopes of modules and blocks (`item_scope`, `per_ns`, `ids`) and generic parameters
  (`generics`, `same_params`);
- the patterns and templates of declarative macros (`mbe`, `tt`);
- the input of the parser (`input`), virtual paths (`vfs_path`) and the report on the memory of
  queries (`memory_usage`).

The functions of `src/` state what they return over mathematical models of their data. Public proof
functions state what holds of several functions together, for example that no two nodes of a file
have the same id, or that a new node does not change the ids of the nodes around it.

The collections of outside crates (`fx`, `small`, `thin`, `arena`, `ast_id::tables`,
`item_scope::names`, `sorting`, `mbe::op`) are reached through functions whose contracts are
believed. Each names the outside function that it calls.

`tests/` runs the library. `app/` holds what surrounds it: a query database, the tree API of `rowan`,
the threads that free large maps, and the traits of std that print and hash the types.
