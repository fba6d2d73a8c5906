# collider

A relational entity database whose bookkeeping is verified with Verus.

Entities hold components; entities with the same set of component types form a
family, and each family keeps a table whose columns store its components densely,
one row per entity. Adding a component moves an entity to the family with one
more component type, through cached transfer edges. Transformations that read and
write components are grouped by a conflict graph into subphases whose members may
run together.

The database keeps its tables, columns and column headers in std `HashMap`s,
which Verus specifies, and its operations take `&mut self`; the sets of families
indexed by component types are `dashmap::DashSet`s, used through trusted
wrappers.

## Layout

- `src/` — the verified library.
  - `database.rs` — the entity database: its invariant, creating and destroying
    entities, adding components, reading values, and the laws the invariant gives.
  - `mapping.rs`, `family_set.rs`, `transfer.rs` — the indexes between entities,
    families and component types.
  - `table.rs`, `column.rs`, `borrowed.rs` — rows of a family, dense columns, and
    run-time tracked borrows of columns.
  - `component.rs`, `id.rs`, `commutative.rs`, `tyid.rs` — component sets and the
    identifiers of types, entities, families and columns.
  - `conflict.rs`, `transform.rs` — the conflict graph, phases of
    transformations, and row iteration.
  - `selection.rs`, `select.rs` — the syntax of selection declarations.
  - `entity.rs`, `spatial.rs`, `family.rs`, `error.rs` — the entity allocator,
    spatial grid cells, families and errors.
- `tests/` — tests of the library.
- `app/` — glue that Verus does not see: component types named by Rust types, a
  database of values of any type, running transformations, readable errors, the
  floating point spatial index, and reading selections from Rust token streams.
