//! Columns: the dense storage of one component type within one table.
//!
//! A column keeps its component values beside the ids of the entities they
//! belong to; both stay equally long, and row `i` of the column is the pair of
//! their `i`-th elements. Removing a row swaps the last row into its place,
//! which keeps the column dense.

use vstd::prelude::*;
use crate::id::EntityId;
use crate::error::DbError;
use crate::borrowed::{BorrowSentinel, BorrowRef, BorrowRefMut, BorrowError, shared_borrow_step, NOT_BORROWED, ONE_SHARED_BORROW};
use crate::tyid::StableTypeId;
use core::marker::PhantomData;

verus! {

/// The rows of a column: entity ids paired with component values.
pub open spec fn zip_rows<C>(entities: Seq<EntityId>, values: Seq<C>) -> Seq<(EntityId, C)> {
    Seq::new(entities.len(), |i: int| (entities[i], values[i]))
}

/// The rows after removing row `i` by moving the last row into its place.
pub open spec fn swap_removed<T>(s: Seq<T>, i: int) -> Seq<T> {
    s.update(i, s.last()).drop_last()
}

/// What [ColumnInner::swap_and_destroy] did: `removed` left the column, and
/// `moved` now sits at `new_moved_index`; when the removed row was the last
/// one, nothing moved and `moved` is the removed entity.
#[derive(Debug, Clone, Copy, PartialEq, Eq, Structural)]
pub struct ColumnSwapRemoveResult {
    pub moved: EntityId,
    pub removed: EntityId,
    pub new_moved_index: usize,
    pub new_column_len: usize,
}

/// What [ColumnInner::move_component_to] did.
#[derive(Debug, Clone, Copy, PartialEq, Eq, Structural)]
pub enum ColumnMoveResult {
    /// The row of `moved` went to the end of the destination, at `new_moved_index`.
    Moved {
        moved: EntityId,
        new_moved_index: usize,
    },
    /// As `Moved`, and the last row of the source, that of `swapped`, took the
    /// place of the moved row, at `new_swapped_index`.
    SwapMoved {
        moved: EntityId,
        new_moved_index: usize,
        swapped: EntityId,
        new_swapped_index: usize,
    },
    /// The source column was empty.
    NoMove,
}

/// The storage of one component type in one table.
pub struct ColumnInner<C> {
    pub borrow: BorrowSentinel,
    rows: RowStore<C>,
}

/// The two parallel vectors of a column.
struct RowStore<C> {
    values: Vec<C>,
    entity: Vec<EntityId>,
}

impl<C> RowStore<C> {
    fn empty() -> (r: RowStore<C>)
        ensures
            r.values@.len() == 0,
            r.entity@.len() == 0,
    {
        RowStore { values: Vec::new(), entity: Vec::new() }
    }
}

impl<C> ColumnInner<C> {
    #[verifier::type_invariant]
    closed spec fn rows_aligned(self) -> bool {
        self.rows.values@.len() == self.rows.entity@.len()
    }

    /// The component values, row by row.
    pub closed spec fn values(self) -> Seq<C> {
        self.rows.values@
    }

    /// The entity ids, row by row.
    pub closed spec fn entities(self) -> Seq<EntityId> {
        self.rows.entity@
    }

    /// The sentinel counting the borrows of this column.
    pub closed spec fn sentinel(self) -> BorrowSentinel {
        self.borrow
    }

    /// The rows: entity ids paired with their component values.
    pub open spec fn rows(self) -> Seq<(EntityId, C)> {
        zip_rows(self.entities(), self.values())
    }

    /// The number of rows.
    pub fn len(&self) -> (r: usize)
        ensures
            r == self.entities().len(),
            r == self.values().len(),
    {
        proof { use_type_invariant(self); }
        self.rows.entity.len()
    }

    /// The entity of row `index`.
    pub fn entity_at(&self, index: usize) -> (r: EntityId)
        requires
            index < self.entities().len(),
        ensures
            r == self.entities()[index as int],
    {
        self.rows.entity[index]
    }

    /// The component value of row `index`.
    pub fn value_at(&self, index: usize) -> (r: &C)
        requires
            index < self.values().len(),
        ensures
            *r == self.values()[index as int],
    {
        proof { use_type_invariant(self); }
        &self.rows.values[index]
    }

    /// The entity ids and component values, row by row.
    pub fn parts(&self) -> (r: (&Vec<C>, &Vec<EntityId>))
        ensures
            r.0@ == self.values(),
            r.1@ == self.entities(),
            r.0@.len() == r.1@.len(),
    {
        proof { use_type_invariant(self); }
        (&self.rows.values, &self.rows.entity)
    }

    /// Takes a shared borrow of the column.
    pub fn try_borrow(&self) -> (r: Result<ColumnRef<C>, BorrowError>)
        ensures
            r matches Ok(c) ==> c.borrow_spec().sentinel_spec() == self.sentinel()
                && shared_borrow_step(c.borrow_spec().replaced()) is Some,
            r matches Err(e) ==> e == BorrowError::AlreadyBorrowed,
    {
        match BorrowRef::new(self.borrow.share()) {
            Some(borrow) => Ok(ColumnRef::new(borrow)),
            None => Err(BorrowError::AlreadyBorrowed),
        }
    }

    /// Takes a shared borrow of the column; the error says it was exclusively borrowed.
    pub fn borrow_column(&self) -> (r: Result<ColumnRef<C>, BorrowError>)
        ensures
            r matches Ok(c) ==> c.borrow_spec().sentinel_spec() == self.sentinel()
                && shared_borrow_step(c.borrow_spec().replaced()) is Some,
            r matches Err(e) ==> e == BorrowError::AlreadyBorrowed,
    {
        self.try_borrow()
    }

    /// Takes an exclusive borrow of the column.
    pub fn try_borrow_mut(&self) -> (r: Result<ColumnRefMut<C>, BorrowError>)
        ensures
            r matches Ok(c) ==> c.borrow_spec().sentinel_spec() == self.sentinel()
                && c.borrow_spec().replaced() == NOT_BORROWED,
            r matches Err(e) ==> e == BorrowError::AlreadyBorrowed,
    {
        match BorrowRefMut::new(self.borrow.share()) {
            Some(borrow) => Ok(ColumnRefMut::new(borrow)),
            None => Err(BorrowError::AlreadyBorrowed),
        }
    }

    /// Takes an exclusive borrow of the column; the error says it was already borrowed.
    pub fn borrow_column_mut(&self) -> (r: Result<ColumnRefMut<C>, BorrowError>)
        ensures
            r matches Ok(c) ==> c.borrow_spec().sentinel_spec() == self.sentinel()
                && c.borrow_spec().replaced() == NOT_BORROWED,
            r matches Err(e) ==> e == BorrowError::AlreadyBorrowed,
    {
        self.try_borrow_mut()
    }

    /// An empty column.
    pub fn new() -> (r: ColumnInner<C>)
        ensures
            r.rows() == Seq::<(EntityId, C)>::empty(),
    {
        ColumnInner { borrow: BorrowSentinel::new(), rows: RowStore::empty() }
    }

    /// Moves row `index` of this column to the end of `dest`, keeping this column
    /// dense by moving its last row into the freed place.
    ///
    /// A column of one row gives up that row whatever `index` is, and an empty
    /// column moves nothing.
    pub fn move_component_to(&mut self, dest: &mut Self, index: usize) -> (r: Result<ColumnMoveResult, DbError>)
        requires
            old(self).rows().len() >= 2 ==> index < old(self).rows().len(),
        ensures
            final(self).rows().len() + final(dest).rows().len() == old(self).rows().len() + old(dest).rows().len(),
            old(self).rows().len() == 0 ==> {
                &&& r == Ok::<ColumnMoveResult, DbError>(ColumnMoveResult::NoMove)
                &&& final(self).rows() == old(self).rows()
                &&& final(dest).rows() == old(dest).rows()
            },
            old(self).rows().len() == 1 ==> {
                &&& r == Ok::<ColumnMoveResult, DbError>(ColumnMoveResult::Moved {
                    moved: old(self).entities()[0],
                    new_moved_index: old(dest).rows().len() as usize,
                })
                &&& final(self).rows() == Seq::<(EntityId, C)>::empty()
                &&& final(dest).rows() == old(dest).rows().push(old(self).rows()[0])
            },
            old(self).rows().len() >= 2 ==> {
                &&& final(self).rows() == swap_removed(old(self).rows(), index as int)
                &&& final(dest).rows() == old(dest).rows().push(old(self).rows()[index as int])
                &&& index + 1 == old(self).rows().len() ==> r == Ok::<ColumnMoveResult, DbError>(ColumnMoveResult::Moved {
                    moved: old(self).entities()[index as int],
                    new_moved_index: old(dest).rows().len() as usize,
                })
                &&& index + 1 < old(self).rows().len() ==> r == Ok::<ColumnMoveResult, DbError>(ColumnMoveResult::SwapMoved {
                    moved: old(self).entities()[index as int],
                    new_moved_index: old(dest).rows().len() as usize,
                    swapped: old(self).entities().last(),
                    new_swapped_index: index,
                })
            },
    {
        proof {
            use_type_invariant(&*self);
            use_type_invariant(&*dest);
        }
        let len = self.rows.entity.len();
        if len == 0 {
            return Ok(ColumnMoveResult::NoMove);
        }
        let ghost old_rows = self.rows();
        let ghost old_dest_rows = dest.rows();
        let mut from = RowStore::empty();
        std::mem::swap(&mut from, &mut self.rows);
        let mut to = RowStore::empty();
        std::mem::swap(&mut to, &mut dest.rows);
        let RowStore { values: mut from_values, entity: mut from_entities } = from;
        let RowStore { values: mut dest_values, entity: mut dest_entities } = to;
        let result;
        if len == 1 {
            let removed = from_values.pop().unwrap();
            let removed_id = from_entities.pop().unwrap();
            dest_values.push(removed);
            dest_entities.push(removed_id);
            result = ColumnMoveResult::Moved { moved: removed_id, new_moved_index: dest_entities.len() - 1 };
        } else {
            let removed = from_values.swap_remove(index);
            let removed_id = from_entities.swap_remove(index);
            dest_values.push(removed);
            dest_entities.push(removed_id);
            if index < from_entities.len() {
                let swapped = from_entities[index];
                result = ColumnMoveResult::SwapMoved {
                    moved: removed_id,
                    new_moved_index: dest_entities.len() - 1,
                    swapped,
                    new_swapped_index: index,
                };
            } else {
                result = ColumnMoveResult::Moved { moved: removed_id, new_moved_index: dest_entities.len() - 1 };
            }
        }
        self.rows = RowStore { values: from_values, entity: from_entities };
        dest.rows = RowStore { values: dest_values, entity: dest_entities };
        proof {
            assert(self.rows() =~= (if len == 1 { Seq::<(EntityId, C)>::empty() } else { swap_removed(old_rows, index as int) }));
            assert(dest.rows() =~= old_dest_rows.push(old_rows[if len == 1 { 0int } else { index as int }]));
        }
        Ok(result)
    }

    /// Removes row `index`, moving the last row into its place.
    pub fn swap_and_destroy(&mut self, index: usize) -> (r: ColumnSwapRemoveResult)
        requires
            index < old(self).rows().len(),
        ensures
            final(self).rows() == swap_removed(old(self).rows(), index as int),
            r.removed == old(self).entities()[index as int],
            r.new_moved_index == index,
            r.new_column_len == old(self).rows().len() - 1,
            r.moved == (if index + 1 < old(self).rows().len() { old(self).entities().last() } else { old(self).entities()[index as int] }),
    {
        proof { use_type_invariant(&*self); }
        let ghost old_rows = self.rows();
        let mut store = RowStore::empty();
        std::mem::swap(&mut store, &mut self.rows);
        let RowStore { values: mut values, entity: mut entities } = store;
        let _ = values.swap_remove(index);
        let removed = entities.swap_remove(index);
        let moved = if index < entities.len() { entities[index] } else { removed };
        let new_column_len = entities.len();
        self.rows = RowStore { values, entity: entities };
        proof {
            assert(self.rows() =~= swap_removed(old_rows, index as int));
        }
        ColumnSwapRemoveResult { moved, removed, new_moved_index: index, new_column_len }
    }

    /// Stores `component` as the value of row `index`: a new last row when `index`
    /// is the number of rows, else the value of an existing row.
    pub fn set_component(&mut self, entity: &EntityId, index: usize, component: C) -> (r: Result<(), DbError>)
        ensures
            index == old(self).rows().len() ==> r is Ok && final(self).rows() == old(self).rows().push((*entity, component)),
            index < old(self).rows().len() ==> r is Ok
                && final(self).values() == old(self).values().update(index as int, component)
                && final(self).entities() == old(self).entities()
                && final(self).rows() == old(self).rows().update(index as int, (old(self).entities()[index as int], component)),
            index > old(self).rows().len() ==> r == Err::<(), DbError>(DbError::ColumnAccessOutOfBounds)
                && final(self).rows() == old(self).rows(),
    {
        proof { use_type_invariant(&*self); }
        let ghost old_rows = self.rows();
        let len = self.rows.entity.len();
        if len == index {
            let mut store = RowStore::empty();
            std::mem::swap(&mut store, &mut self.rows);
            let RowStore { values: mut values, entity: mut entities } = store;
            values.push(component);
            entities.push(*entity);
            self.rows = RowStore { values, entity: entities };
            proof { assert(self.rows() =~= old_rows.push((*entity, component))); }
            Ok(())
        } else if index < len {
            let mut store = RowStore::empty();
            std::mem::swap(&mut store, &mut self.rows);
            let RowStore { values: mut values, entity: entities } = store;
            values.set(index, component);
            self.rows = RowStore { values, entity: entities };
            proof {
                assert(self.rows() =~= old_rows.update(index as int, (old(self).entities()[index as int], component)));
            }
            Ok(())
        } else {
            Err(DbError::ColumnAccessOutOfBounds)
        }
    }
}

impl<C: Default> ColumnInner<C> {

    /// Appends a row for `entity` holding a default component value, and returns its index.
    pub fn push_instance(&mut self, entity: EntityId) -> (r: usize)
        requires
            old(self).rows().len() < usize::MAX,
        ensures
            r == old(self).rows().len(),
            final(self).entities() == old(self).entities().push(entity),
            final(self).values().len() == old(self).values().len() + 1,
            final(self).values().take(r as int) == old(self).values(),
    {
        proof { use_type_invariant(&*self); }
        let ghost old_values = self.rows.values@;
        let mut store = RowStore::empty();
        std::mem::swap(&mut store, &mut self.rows);
        let RowStore { values: mut values, entity: mut entities } = store;
        values.push(C::default());
        entities.push(entity);
        let index = entities.len() - 1;
        self.rows = RowStore { values, entity: entities };
        proof { assert(self.rows.values@.take(index as int) =~= old_values); }
        index
    }
}

/// Law: moving a row between two columns neither loses nor duplicates a row:
/// the rows of both columns together are the same before and after, counted with
/// multiplicity.
pub proof fn lemma_move_keeps_rows<C>(
    from_before: Seq<(EntityId, C)>,
    dest_before: Seq<(EntityId, C)>,
    from_after: Seq<(EntityId, C)>,
    dest_after: Seq<(EntityId, C)>,
    index: int,
)
    requires
        0 <= index < from_before.len(),
        from_after == swap_removed(from_before, index),
        dest_after == dest_before.push(from_before[index]),
    ensures
        (from_after + dest_after).to_multiset() == (from_before + dest_before).to_multiset(),
{
    broadcast use vstd::seq_lib::group_to_multiset_ensures;
    broadcast use vstd::multiset::group_multiset_axioms;
    let x = from_before[index];
    let last = from_before.last();
    // removing row `index` by swapping equals removing it in place and putting the last row there
    assert(from_before.remove(index).to_multiset() == from_before.to_multiset().remove(x));
    let n = from_before.len();
    if index == n - 1 {
        assert(from_after =~= from_before.remove(index));
    } else {
        let r = from_before.remove(index);
        // r has last at position n - 2; from_after is r with that element moved to index
        assert(r[n - 2] == last);
        assert(r.remove(n - 2).to_multiset() == r.to_multiset().remove(last));
        assert(from_after =~= r.remove(n - 2).insert(index, last));
        vstd::seq_lib::to_multiset_insert(r.remove(n - 2), index, last);
        assert(r.to_multiset().count(last) > 0);
        assert(from_after.to_multiset() =~= r.to_multiset());
    }
    vstd::seq_lib::lemma_multiset_commutative(from_after, dest_after);
    vstd::seq_lib::lemma_multiset_commutative(from_before, dest_before);
    assert(dest_after.to_multiset() == dest_before.to_multiset().insert(x));
    assert((from_after + dest_after).to_multiset() =~= (from_before + dest_before).to_multiset());
}

/// A shared borrow of a column of component type `C`.
pub struct ColumnRef<C> {
    borrow: BorrowRef,
    marker: PhantomData<C>,
}

impl<C> ColumnRef<C> {
    pub closed spec fn borrow_spec(&self) -> BorrowRef {
        self.borrow
    }

    pub fn new(borrow: BorrowRef) -> (r: ColumnRef<C>)
        ensures
            r.borrow_spec() == borrow,
    {
        ColumnRef { borrow, marker: PhantomData }
    }

    /// Turns this shared borrow into an exclusive one when it is the only borrow
    /// of the column; otherwise it is handed back.
    pub fn ascend(self) -> (r: Result<ColumnRefMut<C>, ColumnRef<C>>)
        ensures
            r matches Ok(m) ==> m.borrow_spec().sentinel_spec() == self.borrow_spec().sentinel_spec()
                && m.borrow_spec().replaced() == ONE_SHARED_BORROW,
            r matches Err(b) ==> b.borrow_spec() == self.borrow_spec(),
    {
        match self.borrow.ascend() {
            Ok(borrow) => Ok(ColumnRefMut { borrow, marker: PhantomData }),
            Err(borrow) => Err(ColumnRef { borrow, marker: PhantomData }),
        }
    }
}

/// An exclusive borrow of a column of component type `C`.
pub struct ColumnRefMut<C> {
    borrow: BorrowRefMut,
    marker: PhantomData<C>,
}

impl<C> ColumnRefMut<C> {
    pub closed spec fn borrow_spec(&self) -> BorrowRefMut {
        self.borrow
    }

    pub fn new(borrow: BorrowRefMut) -> (r: ColumnRefMut<C>)
        ensures
            r.borrow_spec() == borrow,
    {
        ColumnRefMut { borrow, marker: PhantomData }
    }
}

/// Describes one typed column: the identifier of its component type.
#[derive(Debug, Clone, Copy, PartialEq, Eq, Structural)]
pub struct ColumnHeader {
    pub tyid: StableTypeId,
}

impl ColumnHeader {
    pub fn stable_type_id(&self) -> (r: StableTypeId)
        ensures
            r == self.tyid,
    {
        self.tyid
    }
}

} // verus!
