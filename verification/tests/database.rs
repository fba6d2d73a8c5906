use collider::component::{ComponentType, ComponentTypeSet};
use collider::database::{CreateEntityError, EntityDatabase};
use collider::error::DbError;
use collider::transform::RowIter;
use collider::id::{EntityId, FamilyId};

fn position() -> ComponentType {
    ComponentType::from_type_name("collider::tests::Position")
}

fn velocity() -> ComponentType {
    ComponentType::from_type_name("collider::tests::Velocity")
}

fn health() -> ComponentType {
    ComponentType::from_type_name("collider::tests::Health")
}

#[test]
fn new_database_has_unit_family() {
    let db: EntityDatabase<i64> = EntityDatabase::new();
    let unit = db.unit_component();
    assert_eq!(unit, ComponentType::from_type_name("()"));
    let unit_set = ComponentTypeSet::single(unit);
    let family = db.family_of_set(&unit_set).expect("unit family");
    assert_eq!(family, unit_set.family_id());
    let comps = db.components_of_family(&family).expect("components of unit family");
    assert_eq!(comps.len(), 1);
    assert_eq!(comps.get(0), unit);
}

#[test]
fn create_gives_sequential_ids_in_unit_family() {
    let mut db: EntityDatabase<i64> = EntityDatabase::new();
    let a = db.create().expect("first entity");
    let b = db.create().expect("second entity");
    assert_eq!(a, EntityId::from_index(0));
    assert_eq!(b, EntityId::from_index(1));
    let unit_family = ComponentTypeSet::single(db.unit_component()).family_id();
    assert_eq!(db.family_of_entity(&a), Some(unit_family));
    assert_eq!(db.family_of_entity(&b), Some(unit_family));
    assert_eq!(db.get_component(&a, &position()), None);
}

#[test]
fn add_then_get_component() {
    let mut db: EntityDatabase<i64> = EntityDatabase::new();
    let e = db.create().unwrap();
    assert_eq!(db.add_component(e, position(), 42), Ok(()));
    assert_eq!(db.get_component(&e, &position()), Some(&42));
    assert_eq!(db.get_component(&e, &velocity()), None);
}

#[test]
fn adding_components_moves_entity_and_keeps_values() {
    let mut db: EntityDatabase<i64> = EntityDatabase::new();
    let e = db.create().unwrap();
    db.add_component(e, position(), 1).unwrap();
    db.add_component(e, velocity(), 2).unwrap();
    db.add_component(e, health(), 3).unwrap();
    assert_eq!(db.get_component(&e, &position()), Some(&1));
    assert_eq!(db.get_component(&e, &velocity()), Some(&2));
    assert_eq!(db.get_component(&e, &health()), Some(&3));

    let expected = ComponentTypeSet::from_types(&[db.unit_component(), health(), velocity(), position()]);
    let family = db.family_of_entity(&e).unwrap();
    assert_eq!(family, expected.family_id());
    let comps = db.components_of_family(&family).unwrap();
    assert!(comps.same_as(&expected));
}

#[test]
fn overwriting_a_component_replaces_its_value() {
    let mut db: EntityDatabase<i64> = EntityDatabase::new();
    let e = db.create().unwrap();
    db.add_component(e, position(), 5).unwrap();
    let family = db.family_of_entity(&e).unwrap();
    db.add_component(e, position(), 6).unwrap();
    assert_eq!(db.get_component(&e, &position()), Some(&6));
    assert_eq!(db.family_of_entity(&e), Some(family));
}

#[test]
fn other_entities_keep_their_values() {
    let mut db: EntityDatabase<i64> = EntityDatabase::new();
    let a = db.create().unwrap();
    let b = db.create().unwrap();
    let c = db.create().unwrap();
    db.add_component(a, position(), 10).unwrap();
    db.add_component(b, position(), 20).unwrap();
    db.add_component(c, position(), 30).unwrap();
    // moving `a` out of the family of position swaps the last row into its place
    db.add_component(a, velocity(), 11).unwrap();
    assert_eq!(db.get_component(&a, &position()), Some(&10));
    assert_eq!(db.get_component(&a, &velocity()), Some(&11));
    assert_eq!(db.get_component(&b, &position()), Some(&20));
    assert_eq!(db.get_component(&c, &position()), Some(&30));
    assert_eq!(db.get_component(&b, &velocity()), None);
}

#[test]
fn unit_component_keeps_no_value() {
    let mut db: EntityDatabase<i64> = EntityDatabase::new();
    let e = db.create().unwrap();
    let unit = db.unit_component();
    assert_eq!(db.add_component(e, unit, 7), Ok(()));
    assert_eq!(db.get_component(&e, &unit), None);
}

#[test]
fn add_component_to_missing_entity_fails() {
    let mut db: EntityDatabase<i64> = EntityDatabase::new();
    let ghost = EntityId::from_index(9);
    assert_eq!(db.add_component(ghost, position(), 1), Err(DbError::EntityDoesntExist(ghost)));
}

#[test]
fn destroy_removes_entity_and_values() {
    let mut db: EntityDatabase<i64> = EntityDatabase::new();
    let a = db.create().unwrap();
    let b = db.create().unwrap();
    db.add_component(a, position(), 1).unwrap();
    db.add_component(b, position(), 2).unwrap();
    assert_eq!(db.destroy(a), Ok(()));
    assert_eq!(db.family_of_entity(&a), None);
    assert_eq!(db.get_component(&a, &position()), None);
    assert_eq!(db.get_component(&b, &position()), Some(&2));
    assert_eq!(db.destroy(a), Err(DbError::EntityDoesntExist(a)));
}

#[test]
fn destroy_entity_of_unit_family() {
    let mut db: EntityDatabase<i64> = EntityDatabase::new();
    let a = db.create().unwrap();
    assert_eq!(db.destroy(a), Ok(()));
    assert_eq!(db.family_of_entity(&a), None);
}

#[test]
fn create_error_is_comparable() {
    assert_eq!(CreateEntityError::IdAllocatorError, CreateEntityError::IdAllocatorError);
}

#[test]
fn table_of_family_lists_its_entities() {
    let mut db: EntityDatabase<i64> = EntityDatabase::new();
    let a = db.create().unwrap();
    let b = db.create().unwrap();
    db.add_component(a, position(), 1).unwrap();
    db.add_component(b, position(), 2).unwrap();
    let family = db.family_of_entity(&a).unwrap();
    let table = db.get_table(&family).expect("table of family");
    assert_eq!(table.entity_index(&a), Some(0));
    assert_eq!(table.entity_index(&b), Some(1));
    let key = table.column_key(&position()).expect("column of position");
    let column = db.get_column(&key).expect("column");
    assert_eq!(column.len(), 2);
    assert_eq!(column.entity_at(0), a);
    assert_eq!(*column.value_at(1), 2);
    assert_eq!(table.column_key(&db.unit_component()), None);
}

#[test]
fn families_are_indexed_by_component_and_set() {
    let mut db: EntityDatabase<i64> = EntityDatabase::new();
    let e = db.create().unwrap();
    db.add_component(e, position(), 1).unwrap();
    db.add_component(e, velocity(), 2).unwrap();
    let family = db.family_of_entity(&e).unwrap();
    let with_velocity = db.maps().families_with_component(&velocity()).expect("velocity index");
    assert!(with_velocity.contains(&family));
    let pair = ComponentTypeSet::from_types(&[position(), velocity()]);
    let with_pair = db.maps().families_with_set(&pair).expect("set index");
    assert!(with_pair.contains(&family));
    assert_eq!(with_pair.clone_into_vec(), vec![family]);
}

#[test]
fn mappings_answer_queries() {
    let mut db: EntityDatabase<i64> = EntityDatabase::new();
    let e = db.create().unwrap();
    db.add_component(e, position(), 1).unwrap();
    let family = db.family_of_entity(&e).unwrap();
    assert_eq!(db.query_mapping::<(EntityId, FamilyId)>(&e), Some(family));
    let set = ComponentTypeSet::from_types(&[db.unit_component(), position()]);
    assert_eq!(db.query_mapping::<(ComponentTypeSet, FamilyId)>(&set), Some(family));
    assert_eq!(db.maps().get_map::<(EntityId, FamilyId)>(&EntityId::from_index(3)), None);
    let lone = ComponentTypeSet::single(position());
    assert_eq!(db.query_mapping::<(ComponentTypeSet, FamilyId)>(&lone), None);
}

#[test]
fn column_keys_for_a_row_of_components() {
    let mut db: EntityDatabase<i64> = EntityDatabase::new();
    let a = db.create().unwrap();
    let b = db.create().unwrap();
    db.add_component(a, position(), 1).unwrap();
    db.add_component(a, velocity(), 2).unwrap();
    db.add_component(b, velocity(), 3).unwrap();
    db.add_component(b, position(), 4).unwrap();
    db.add_component(b, health(), 5).unwrap();
    let fa = db.family_of_entity(&a).unwrap();
    let fb = db.family_of_entity(&b).unwrap();
    assert_ne!(fa, fb);

    let keys = db.column_keys_for(&vec![velocity(), position()]).expect("keys");
    assert_eq!(keys.len(), 4);
    let ta = db.get_table(&fa).unwrap();
    let tb = db.get_table(&fb).unwrap();
    let from_a = vec![ta.column_key(&velocity()).unwrap(), ta.column_key(&position()).unwrap()];
    let from_b = vec![tb.column_key(&velocity()).unwrap(), tb.column_key(&position()).unwrap()];
    assert!(keys == [from_a.clone(), from_b.clone()].concat() || keys == [from_b, from_a].concat());

    let unit = db.unit_component();
    assert_eq!(db.column_keys_for(&vec![position(), unit]), None);
    let lone_health = db.column_keys_for(&vec![health()]).expect("health keys");
    assert_eq!(lone_health, vec![tb.column_key(&health()).unwrap()]);
    let never = ComponentType::from_type_name("collider::tests::Never");
    assert_eq!(db.column_keys_for(&vec![never]), None);
}

#[test]
fn families_lists_each_registered_family_once() {
    let mut db: EntityDatabase<i64> = EntityDatabase::new();
    assert_eq!(db.families().len(), 1);
    let e = db.create().unwrap();
    db.add_component(e, position(), 1).unwrap();
    db.add_component(e, velocity(), 2).unwrap();
    let mut raws: Vec<u64> = db.families().iter().map(|f| f.inner().raw()).collect();
    raws.sort();
    raws.dedup();
    assert_eq!(raws.len(), 3);
    let unit = db.unit_component();
    for set in [
        ComponentTypeSet::single(unit),
        ComponentTypeSet::from_types(&[unit, position()]),
        ComponentTypeSet::from_types(&[unit, position(), velocity()]),
    ] {
        assert!(raws.contains(&set.family_id().inner().raw()));
    }
}

#[test]
fn row_iter_walks_rows_table_by_table() {
    let mut db: EntityDatabase<i64> = EntityDatabase::new();
    let a = db.create().unwrap();
    let b = db.create().unwrap();
    let c = db.create().unwrap();
    db.add_component(a, position(), 1).unwrap();
    db.add_component(a, velocity(), 10).unwrap();
    db.add_component(b, position(), 2).unwrap();
    db.add_component(b, velocity(), 20).unwrap();
    db.add_component(c, position(), 3).unwrap();
    db.add_component(c, velocity(), 30).unwrap();
    db.add_component(c, health(), 300).unwrap();

    let keys = db.column_keys_for(&vec![position(), velocity()]).unwrap();
    let mut it = RowIter::new(keys, 2);
    let mut rows: Vec<(i64, i64)> = Vec::new();
    while let Some(row) = it.next(&db) {
        assert_eq!(row.len(), 2);
        rows.push((*row[0], *row[1]));
    }
    rows.sort();
    assert_eq!(rows, vec![(1, 10), (2, 20), (3, 30)]);
    assert!(it.next(&db).is_none());

    let mut empty = RowIter::new(Vec::new(), 0);
    assert!(empty.next(&db).is_none());
}

#[test]
fn components_can_be_added_to_live_and_missing_entities() {
    let mut db: EntityDatabase<i64> = EntityDatabase::new();
    let e = db.create().unwrap();
    assert!(db.can_add_component(&e, &position()));
    db.add_component(e, position(), 1).unwrap();
    assert!(db.can_add_component(&e, &position()));
    assert!(db.can_add_component(&e, &velocity()));
    assert!(db.can_add_component(&EntityId::from_index(42), &velocity()));
}
