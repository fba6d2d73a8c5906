//! Tables: the row bookkeeping of one family.
//!
//! A table knows which entities of its family it holds and at which row, which
//! column holds each of its component types, and which rows were given up.

use vstd::prelude::*;
use std::collections::HashMap;
use crate::id::{EntityId, FamilyId, ColumnKey};
use crate::component::{ComponentType, ComponentTypeSet};
use crate::error::DbError;

verus! {

broadcast use vstd::std_specs::hash::group_hash_axioms;

pub struct Table {
    family: FamilyId,
    components: ComponentTypeSet,
    /// The key of the column of each component type, by raw type id.
    columns: HashMap<u64, ColumnKey>,
    /// The row of each entity, by raw entity id.
    entity_map: HashMap<u64, usize>,
    /// Rows given up by entities that left the table, most recent last.
    free: Vec<usize>,
}

impl Table {
    pub closed spec fn family_spec(self) -> FamilyId {
        self.family
    }

    pub closed spec fn components_spec(self) -> ComponentTypeSet {
        self.components
    }

    /// The row of each entity in the table, by raw entity id.
    pub closed spec fn rows(self) -> Map<u64, usize> {
        self.entity_map@
    }

    /// A table holds finitely many entities.
    pub proof fn lemma_rows_finite(self)
        ensures
            self.rows().dom().finite(),
            self.rows().len() <= usize::MAX,
    {
        assert(vstd::std_specs::hash::spec_hash_map_len(&self.entity_map) == self.entity_map@.len());
    }

    /// The column key of each component type of the table, by raw type id.
    pub closed spec fn columns_spec(self) -> Map<u64, ColumnKey> {
        self.columns@
    }

    /// The rows given up, most recent last.
    pub closed spec fn free_rows(self) -> Seq<usize> {
        self.free@
    }

    /// The rows of the entities and the free rows are, together, `0..n` each
    /// once.
    pub open spec fn dense(self) -> bool {
        dense_rows(self.rows(), self.free_rows())
    }

    /// The row the next inserted entity gets.
    pub open spec fn next_free_row_spec(self) -> usize {
        if self.free_rows().len() > 0 { self.free_rows().last() } else { self.rows().len() as usize }
    }

    /// Creates a new empty table for a family.
    pub fn new(family: FamilyId, components: ComponentTypeSet) -> (r: Table)
        ensures
            r.family_spec() == family,
            r.components_spec() == components,
            r.rows() == Map::<u64, usize>::empty(),
            r.columns_spec() == Map::<u64, ColumnKey>::empty(),
            r.free_rows() == Seq::<usize>::empty(),
            r.dense(),
    {
        let t = Table { family, components, columns: HashMap::new(), entity_map: HashMap::new(), free: Vec::new() };
        proof {
            assert(t.rows().len() == 0);
            assert forall|q: int| 0 <= q < 0 implies #[trigger] row_taken(t.rows(), t.free_rows(), q) by {}
        }
        t
    }

    /// The family id of this table.
    pub fn family_id(&self) -> (r: &FamilyId)
        ensures
            *r == self.family_spec(),
    {
        &self.family
    }

    /// The number of rows given up and not yet reused.
    pub fn free_count(&self) -> (r: usize)
        ensures
            r == self.free_rows().len(),
    {
        self.free.len()
    }

    /// The row of each entity, by raw entity id.
    pub fn entity_map(&self) -> (r: &HashMap<u64, usize>)
        ensures
            r@ == self.rows(),
    {
        &self.entity_map
    }

    /// The column key of each component type, by raw type id.
    pub fn column_map(&self) -> (r: &HashMap<u64, ColumnKey>)
        ensures
            r@ == self.columns_spec(),
    {
        &self.columns
    }

    /// The component types of this table.
    pub fn components(&self) -> (r: &ComponentTypeSet)
        ensures
            *r == self.components_spec(),
    {
        &self.components
    }

    /// The row of `entity`, if the table holds it.
    pub fn entity_index(&self, entity: &EntityId) -> (r: Option<usize>)
        ensures
            r == (if self.rows().contains_key(entity.raw()) { Some(self.rows()[entity.raw()]) } else { None::<usize> }),
    {
        match self.entity_map.get(&entity.0.aligned) {
            Some(index) => Some(*index),
            None => None,
        }
    }

    /// The key of the column of `component_type`, if the table has one.
    pub fn column_key(&self, component_type: &ComponentType) -> (r: Option<ColumnKey>)
        ensures
            r == (if self.columns_spec().contains_key(component_type.0.0) { Some(self.columns_spec()[component_type.0.0]) } else { None::<ColumnKey> }),
    {
        match self.columns.get(&component_type.0.0) {
            Some(key) => Some(*key),
            None => None,
        }
    }

    /// Takes `entity` out of the table, giving up its row.
    pub fn remove_entity(&mut self, entity: &EntityId) -> (r: Result<EntityId, DbError>)
        ensures
            old(self).rows().contains_key(entity.raw()) ==> {
                &&& r == Ok::<EntityId, DbError>(*entity)
                &&& final(self).rows() == old(self).rows().remove(entity.raw())
                &&& final(self).free_rows() == old(self).free_rows().push(old(self).rows()[entity.raw()])
            },
            !old(self).rows().contains_key(entity.raw()) ==> {
                &&& r == Err::<EntityId, DbError>(DbError::EntityNotInTable(*entity, old(self).family_spec()))
                &&& final(self).rows() == old(self).rows()
                &&& final(self).free_rows() == old(self).free_rows()
            },
            final(self).family_spec() == old(self).family_spec(),
            final(self).components_spec() == old(self).components_spec(),
            final(self).columns_spec() == old(self).columns_spec(),
            old(self).dense() ==> final(self).dense(),
    {
        proof {
            if old(self).dense() && old(self).rows().contains_key(entity.raw()) {
                lemma_remove_keeps_dense(old(self).rows(), old(self).free_rows(), entity.raw());
            }
        }
        let index = match self.entity_map.get(&entity.0.aligned) {
            Some(index) => *index,
            None => return Err(DbError::EntityNotInTable(*entity, self.family)),
        };
        self.free.push(index);
        self.entity_map.remove(&entity.0.aligned);
        Ok(*entity)
    }

    /// Takes the row for the next inserted entity: the most recently given up
    /// row, or else the row after those of the entities held.
    pub fn get_next_free_row(&mut self) -> (r: usize)
        ensures
            r == old(self).next_free_row_spec(),
            final(self).free_rows() == (if old(self).free_rows().len() > 0 { old(self).free_rows().drop_last() } else { old(self).free_rows() }),
            final(self).rows() == old(self).rows(),
            final(self).family_spec() == old(self).family_spec(),
            final(self).components_spec() == old(self).components_spec(),
            final(self).columns_spec() == old(self).columns_spec(),
    {
        match self.free.pop() {
            Some(free) => free,
            None => self.entity_map.len(),
        }
    }

    /// Inserts `entity` at the next free row and returns that row.
    pub fn insert_new_entity(&mut self, entity: &EntityId) -> (r: Result<usize, DbError>)
        ensures
            r == Ok::<usize, DbError>(old(self).next_free_row_spec()),
            final(self).rows() == old(self).rows().insert(entity.raw(), old(self).next_free_row_spec()),
            final(self).free_rows() == (if old(self).free_rows().len() > 0 { old(self).free_rows().drop_last() } else { old(self).free_rows() }),
            final(self).family_spec() == old(self).family_spec(),
            final(self).components_spec() == old(self).components_spec(),
            final(self).columns_spec() == old(self).columns_spec(),
            old(self).dense() && !old(self).rows().contains_key(entity.raw())
                && old(self).rows().len() + old(self).free_rows().len() < usize::MAX ==> final(self).dense(),
    {
        proof {
            if old(self).dense() && !old(self).rows().contains_key(entity.raw())
                && old(self).rows().len() + old(self).free_rows().len() < usize::MAX {
                lemma_insert_keeps_dense(old(self).rows(), old(self).free_rows(), entity.raw());
            }
        }
        let index = self.get_next_free_row();
        self.entity_map.insert(entity.0.aligned, index);
        Ok(index)
    }

    /// The row of `entity`, inserting it at the next free row when the table does not hold it.
    pub fn get_or_insert_entity(&mut self, entity: &EntityId) -> (r: Result<usize, DbError>)
        ensures
            old(self).rows().contains_key(entity.raw()) ==> {
                &&& r == Ok::<usize, DbError>(old(self).rows()[entity.raw()])
                &&& final(self).rows() == old(self).rows()
                &&& final(self).free_rows() == old(self).free_rows()
            },
            !old(self).rows().contains_key(entity.raw()) ==> {
                &&& r == Ok::<usize, DbError>(old(self).next_free_row_spec())
                &&& final(self).rows() == old(self).rows().insert(entity.raw(), old(self).next_free_row_spec())
                &&& final(self).free_rows() == (if old(self).free_rows().len() > 0 { old(self).free_rows().drop_last() } else { old(self).free_rows() })
            },
            final(self).family_spec() == old(self).family_spec(),
            final(self).components_spec() == old(self).components_spec(),
            final(self).columns_spec() == old(self).columns_spec(),
    {
        match self.entity_map.get(&entity.0.aligned) {
            Some(index) => Ok(*index),
            None => self.insert_new_entity(entity),
        }
    }

    /// Records `column_key` as the key of the column of `component_type`.
    pub fn update_column_map(&mut self, component_type: ComponentType, column_key: ColumnKey)
        ensures
            final(self).columns_spec() == old(self).columns_spec().insert(component_type.0.0, column_key),
            final(self).rows() == old(self).rows(),
            final(self).free_rows() == old(self).free_rows(),
            final(self).family_spec() == old(self).family_spec(),
            final(self).components_spec() == old(self).components_spec(),
    {
        self.columns.insert(component_type.0.0, column_key);
    }

    /// Records `index` as the row of `entity`.
    pub fn set_entity_index(&mut self, entity: &EntityId, index: usize)
        ensures
            final(self).rows() == old(self).rows().insert(entity.raw(), index),
            final(self).columns_spec() == old(self).columns_spec(),
            final(self).free_rows() == old(self).free_rows(),
            final(self).family_spec() == old(self).family_spec(),
            final(self).components_spec() == old(self).components_spec(),
    {
        self.entity_map.insert(entity.0.aligned, index);
    }

    /// Forgets the row of `entity`, without giving the row up.
    pub fn forget_entity(&mut self, entity: &EntityId)
        ensures
            final(self).rows() == old(self).rows().remove(entity.raw()),
            final(self).columns_spec() == old(self).columns_spec(),
            final(self).free_rows() == old(self).free_rows(),
            final(self).family_spec() == old(self).family_spec(),
            final(self).components_spec() == old(self).components_spec(),
    {
        self.entity_map.remove(&entity.0.aligned);
    }
}

/// The rows of a table's entities and its free rows are, together, the rows
/// `0..n` each once, where `n` counts both.
pub open spec fn dense_rows(rows: Map<u64, usize>, free: Seq<usize>) -> bool {
    let n = rows.len() + free.len();
    &&& rows.dom().finite()
    &&& forall|a: u64, b: u64| #[trigger] rows.contains_key(a) && #[trigger] rows.contains_key(b) && a != b ==> rows[a] != rows[b]
    &&& forall|a: u64| #[trigger] rows.contains_key(a) ==> rows[a] < n && !free.contains(rows[a])
    &&& free.no_duplicates()
    &&& forall|i: int| 0 <= i < free.len() ==> #[trigger] free[i] < n
    &&& forall|r: int| 0 <= r < n ==> #[trigger] row_taken(rows, free, r)
}

/// Row `r` is the row of some entity, or a free row.
pub open spec fn row_taken(rows: Map<u64, usize>, free: Seq<usize>, r: int) -> bool {
    (exists|a: u64| #[trigger] rows.contains_key(a) && rows[a] == r) || free.contains(r as usize)
}

/// Law: inserting an entity the table does not hold at the next free row keeps
/// the rows and free rows together exactly `0..n`, each once.
pub proof fn lemma_insert_keeps_dense(rows: Map<u64, usize>, free: Seq<usize>, e: u64)
    requires
        dense_rows(rows, free),
        !rows.contains_key(e),
        rows.len() + free.len() < usize::MAX,
    ensures
        ({
            let r = if free.len() > 0 { free.last() } else { rows.len() as usize };
            let free2 = if free.len() > 0 { free.drop_last() } else { free };
            dense_rows(rows.insert(e, r), free2)
        }),
{
    let r = if free.len() > 0 { free.last() } else { rows.len() as usize };
    let free2 = if free.len() > 0 { free.drop_last() } else { free };
    let rows2 = rows.insert(e, r);
    let n = rows.len() + free.len();
    assert(rows2.len() == rows.len() + 1);
    let n2 = rows2.len() + free2.len();
    if free.len() > 0 {
        assert(n2 == n);
        assert(free.contains(free.last()));
        assert forall|i: int| 0 <= i < free2.len() implies #[trigger] free2[i] != r by {
            assert(free[i] == free2[i]);
        }
    } else {
        assert(n2 == n + 1);
    }
    assert forall|a: u64| #[trigger] rows2.contains_key(a) implies rows2[a] < n2 && !free2.contains(rows2[a]) by {
        if a != e {
            if free2.contains(rows2[a]) {
                let i = free2.index_of(rows2[a]);
                assert(free[i] == free2[i]);
            }
        } else if free.len() > 0 {
            if free2.contains(r) {
                let i = free2.index_of(r);
                assert(free2[i] != r);
            }
        }
    }
    assert forall|a: u64, b: u64| #[trigger] rows2.contains_key(a) && #[trigger] rows2.contains_key(b) && a != b implies rows2[a] != rows2[b] by {
        if a == e && free.len() > 0 {
            assert(rows.contains_key(b));
            assert(!free.contains(rows[b]));
        }
        if b == e && free.len() > 0 {
            assert(rows.contains_key(a));
            assert(!free.contains(rows[a]));
        }
    }
    assert forall|i: int| 0 <= i < free2.len() implies #[trigger] free2[i] < n2 by {
        assert(free[i] == free2[i]);
    }
    assert forall|q: int| 0 <= q < n2 implies #[trigger] row_taken(rows2, free2, q) by {
        if q == r {
            assert(rows2.contains_key(e) && rows2[e] == q);
        } else {
            assert(row_taken(rows, free, q));
            if exists|a: u64| #[trigger] rows.contains_key(a) && rows[a] == q {
                let a = choose|a: u64| #[trigger] rows.contains_key(a) && rows[a] == q;
                assert(rows2.contains_key(a) && rows2[a] == q);
            } else {
                let i = free.index_of(q as usize);
                if free.len() > 0 {
                    assert(i != free.len() - 1);
                    assert(free2[i] == q as usize);
                }
            }
        }
    }
}

/// Law: taking an entity out of the table and giving up its row keeps the
/// rows and free rows together exactly `0..n`, each once.
pub proof fn lemma_remove_keeps_dense(rows: Map<u64, usize>, free: Seq<usize>, e: u64)
    requires
        dense_rows(rows, free),
        rows.contains_key(e),
    ensures
        dense_rows(rows.remove(e), free.push(rows[e])),
{
    let rows2 = rows.remove(e);
    let free2 = free.push(rows[e]);
    let n = rows.len() + free.len();
    assert(rows2.len() == rows.len() - 1);
    assert(rows2.len() + free2.len() == n);
    assert forall|a: u64| #[trigger] rows2.contains_key(a) implies rows2[a] < n && !free2.contains(rows2[a]) by {
        if free2.contains(rows2[a]) {
            let i = free2.index_of(rows2[a]);
            if i < free.len() {
                assert(free[i] == free2[i]);
            }
        }
    }
    assert(free2.no_duplicates()) by {
        assert forall|i: int, j: int| 0 <= i < free2.len() && 0 <= j < free2.len() && i != j implies free2[i] != free2[j] by {
            if i == free.len() {
                assert(free.contains(free2[j]) ==> true);
                assert(free[j] == free2[j]);
            } else if j == free.len() {
                assert(free[i] == free2[i]);
            } else {
                assert(free[i] == free2[i] && free[j] == free2[j]);
            }
        }
    }
    assert forall|i: int| 0 <= i < free2.len() implies #[trigger] free2[i] < n by {
        if i < free.len() {
            assert(free[i] == free2[i]);
        }
    }
    assert forall|q: int| 0 <= q < n implies #[trigger] row_taken(rows2, free2, q) by {
        assert(row_taken(rows, free, q));
        if q == rows[e] {
            assert(free2[free.len() as int] == q as usize);
        } else if exists|a: u64| #[trigger] rows.contains_key(a) && rows[a] == q {
            let a = choose|a: u64| #[trigger] rows.contains_key(a) && rows[a] == q;
            assert(rows2.contains_key(a) && rows2[a] == q);
        } else {
            let i = free.index_of(q as usize);
            assert(free2[i] == q as usize);
        }
    }
}

} // verus!
