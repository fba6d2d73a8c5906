use collider::commutative::CommutativeId;
use collider::borrowed::{is_mut_borrow, next_shared_count, BorrowRef, BorrowRefMut, BorrowSentinel};
use collider::column::{ColumnInner, ColumnMoveResult};
use collider::component::{ComponentType, ComponentTypeSet};
use collider::entity::{EntityAllocator, FreeEntityWith};
use collider::error::DbError;
use collider::id::{EntityId, GenerationalId, IdUnion, RelationalId};
use collider::table::Table;
use collider::transfer::{TransferEdge, TransferGraph};

fn e(i: u32) -> EntityId {
    EntityId::from_index(i)
}

#[test]
fn allocator_counts_up_then_reuses_freed_ids() {
    let mut alloc = EntityAllocator::new();
    let a = alloc.allocate().unwrap();
    let b = alloc.allocate().unwrap();
    assert_eq!(a, e(0));
    assert_eq!(b, e(1));
    alloc.free_all(&[a]).unwrap();
    let c = alloc.allocate().unwrap();
    assert_eq!(c.index(), 0);
    assert_eq!(c.generation(), a.generation() + 1);
    assert_ne!(c, a);
    let d = alloc.allocate().unwrap();
    assert_eq!(d, e(2));
}

#[test]
fn next_generation_keeps_index() {
    let a = e(7);
    let b = a.next_generation();
    assert_eq!(b.index(), 7);
    assert_eq!(b.generation(), 1);
    assert_eq!(b.next_generation().generation(), 2);
}

#[test]
fn column_move_swaps_last_row_in() {
    let mut from: ColumnInner<u32> = ColumnInner::new();
    let mut dest: ColumnInner<u32> = ColumnInner::new();
    from.set_component(&e(0), 0, 10).unwrap();
    from.set_component(&e(1), 1, 11).unwrap();
    from.set_component(&e(2), 2, 12).unwrap();
    let r = from.move_component_to(&mut dest, 0).unwrap();
    assert_eq!(r, ColumnMoveResult::SwapMoved { moved: e(0), new_moved_index: 0, swapped: e(2), new_swapped_index: 0 });
    assert_eq!(from.len(), 2);
    assert_eq!(from.entity_at(0), e(2));
    assert_eq!(*from.value_at(0), 12);
    assert_eq!(dest.len(), 1);
    assert_eq!(dest.entity_at(0), e(0));
    assert_eq!(*dest.value_at(0), 10);

    let r = from.move_component_to(&mut dest, 1).unwrap();
    assert_eq!(r, ColumnMoveResult::Moved { moved: e(1), new_moved_index: 1 });
    let r = from.move_component_to(&mut dest, 0).unwrap();
    assert_eq!(r, ColumnMoveResult::Moved { moved: e(2), new_moved_index: 2 });
    let r = from.move_component_to(&mut dest, 0).unwrap();
    assert_eq!(r, ColumnMoveResult::NoMove);
}

#[test]
fn column_swap_and_destroy() {
    let mut col: ColumnInner<u32> = ColumnInner::new();
    col.set_component(&e(0), 0, 1).unwrap();
    col.set_component(&e(1), 1, 2).unwrap();
    col.set_component(&e(2), 2, 3).unwrap();
    let r = col.swap_and_destroy(0);
    assert_eq!(r.removed, e(0));
    assert_eq!(r.moved, e(2));
    assert_eq!(r.new_moved_index, 0);
    assert_eq!(r.new_column_len, 2);
    assert_eq!(*col.value_at(0), 3);
    let r = col.swap_and_destroy(1);
    assert_eq!(r.removed, e(1));
    assert_eq!(r.moved, e(1));
    assert_eq!(r.new_column_len, 1);
}

#[test]
fn column_set_component_bounds() {
    let mut col: ColumnInner<u32> = ColumnInner::new();
    assert_eq!(col.set_component(&e(0), 1, 5), Err(DbError::ColumnAccessOutOfBounds));
    assert_eq!(col.set_component(&e(0), 0, 5), Ok(()));
    assert_eq!(col.set_component(&e(0), 0, 6), Ok(()));
    assert_eq!(col.len(), 1);
    assert_eq!(*col.value_at(0), 6);
    let i = col.push_instance(e(1));
    assert_eq!(i, 1);
    assert_eq!(*col.value_at(1), 0);
}

#[test]
fn column_borrows_exclude_each_other() {
    let col: ColumnInner<u32> = ColumnInner::new();
    let shared = col.try_borrow().expect("shared borrow");
    let shared2 = col.try_borrow().expect("second shared borrow");
    assert!(col.try_borrow_mut().is_err());
    drop(shared);
    drop(shared2);
    let exclusive = col.try_borrow_mut().expect("exclusive borrow");
    assert!(col.try_borrow().is_err());
    drop(exclusive);
    assert!(col.try_borrow().is_ok());
}

#[test]
fn borrow_ref_ascends_when_alone() {
    let sentinel = BorrowSentinel::new();
    let r = BorrowRef::new(sentinel.share()).unwrap();
    let m = r.ascend().ok().expect("ascend");
    assert!(BorrowRefMut::new(sentinel.share()).is_none());
    drop(m);
    let r1 = BorrowRef::new(sentinel.share()).unwrap();
    let _r2 = BorrowRef::new(sentinel.share()).unwrap();
    assert!(r1.ascend().is_err());
}

#[test]
fn borrow_counts() {
    assert!(is_mut_borrow(-1));
    assert!(!is_mut_borrow(0));
    assert_eq!(next_shared_count(0), Some(1));
    assert_eq!(next_shared_count(-1), None);
    assert_eq!(next_shared_count(isize::MAX), None);
}

#[test]
fn table_rows_and_free_list() {
    let set = ComponentTypeSet::single(ComponentType::from_type_name("()"));
    let family = set.family_id();
    let mut table = Table::new(family, set);
    assert_eq!(table.insert_new_entity(&e(0)), Ok(0));
    assert_eq!(table.insert_new_entity(&e(1)), Ok(1));
    assert_eq!(table.get_or_insert_entity(&e(0)), Ok(0));
    assert_eq!(table.remove_entity(&e(0)), Ok(e(0)));
    assert_eq!(table.free_count(), 1);
    assert_eq!(table.entity_index(&e(0)), None);
    assert_eq!(table.insert_new_entity(&e(2)), Ok(0));
    assert_eq!(table.free_count(), 0);
    assert_eq!(table.remove_entity(&e(5)), Err(DbError::EntityNotInTable(e(5), family)));
}

#[test]
fn transfer_graph_set_then_get() {
    let mut graph = TransferGraph::new();
    let c = ComponentType::from_type_name("C");
    let set = ComponentTypeSet::single(c);
    assert_eq!(graph.get(&c), None);
    assert_eq!(graph.set(&c, TransferEdge::Add(set.family_id())), None);
    assert_eq!(graph.get(&c), Some(TransferEdge::Add(set.family_id())));
    assert_eq!(graph.set(&c, TransferEdge::Remove(set.family_id())), Some(TransferEdge::Add(set.family_id())));
    assert_eq!(graph.get(&c), Some(TransferEdge::Remove(set.family_id())));
}

#[test]
fn conversions_into_ids() {

    assert_eq!(EntityId::from(5u32), EntityId::from_index(5));
    let c = ComponentType::from_type_name("C");
    let family = ComponentTypeSet::single(c).family_id();
    let id = CommutativeId::from((family, c));
    assert_eq!(id, collider::id::ColumnKey::new(family, c.raw()).0);
    assert_eq!(id, family.inner().and(&CommutativeId(c.raw())));
}

#[test]
fn id_words_read_both_ways() {
    let word = IdUnion::generational(7, 3, 0, 1);
    let g = GenerationalId::from(&word);
    assert_eq!(g.id(), 7);
    assert_eq!(g.generation(), 3);
    assert_eq!(g.flags(), 1);
    let link = IdUnion::relational(11, 12);
    let r = RelationalId::from(&link);
    assert_eq!(r.primary(), 11);
    assert_eq!(r.secondary(), 12);
    assert_eq!(link.as_u64(), 11 | (12u64 << 32));
}

#[test]
fn free_with_a_vec_reuses_ids_last_first() {

    let mut alloc = EntityAllocator::new();
    let a = alloc.allocate().unwrap();
    let b = alloc.allocate().unwrap();
    assert_eq!(alloc.free(vec![a, b]), Ok(()));
    assert_eq!(alloc.allocate().unwrap(), b.next_generation());
    assert_eq!(alloc.allocate().unwrap(), a.next_generation());
    assert_eq!(alloc.allocate().unwrap(), e(2));
}

#[test]
fn errors_have_texts() {
    assert_eq!(DbError::ColumnTypeDiscrepancy.message(), "column type mismatch");
    assert_eq!(DbError::EntityDoesntExist(e(1)).message(), "entity doesn't exist");
    assert_eq!(DbError::MoveWithSameColumn.message(), "attempted to move a component to the column it was already in");
}
