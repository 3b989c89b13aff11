# tailwind_extract

Lowers a Tailwind stylesheet's `@utility`, `@custom-variant` and `@theme`
at-rules into a registry that a class sorter reads. The library is written in
Verus: each function states in its contract what it returns, and the proofs are
checked with it.

- `src/css.rs` holds the parts of a parsed stylesheet that the extraction reads.
- `src/walk.rs` walks them, in document order and breadth first.
- `src/values.rs` and `src/declarations.rs` read single declarations.
- `src/property_sort.rs` says where a static utility sorts.
- `src/extract.rs` registers what a stylesheet declares; `src/registry.rs` is
  what it registers into.
- `src/stylesheet.rs` and `src/imports.rs` follow the imports of a stylesheet.
- `src/laws.rs`, `src/lookup_laws.rs`, `src/block_laws.rs` and
  `src/import_laws.rs` state what holds of the library as a whole.

How an applied class is parsed and placed, and how a text is parsed with
Tailwind directives enabled, is up to the caller, who hands in a function for
each. `app/` connects the library to a CSS parser, a class sorter and
a module graph.
