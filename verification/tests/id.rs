use collider::commutative::CommutativeId;
use collider::tyid::StableTypeId;

/// The stable id of a primitive type, from the name the compiler gives it.
fn stable_id_of(name: &str) -> StableTypeId {
    StableTypeId::from_type_name(name)
}

fn commutative_of(ids: &[StableTypeId]) -> CommutativeId {
    let raws: Vec<u64> = ids.iter().map(|i| i.raw()).collect();
    CommutativeId::from_raw_ids(&raws)
}

#[test]
fn test_commutative_id() {
    let iter_a = [stable_id_of("f32"), stable_id_of("f64")];
    let iter_aa = [stable_id_of("f64"), stable_id_of("f32")];
    let iter_b = [stable_id_of("i8"), stable_id_of("i16")];
    let iter_c = [stable_id_of("i8"), stable_id_of("i16"), stable_id_of("i32")];
    let id_a = commutative_of(&iter_a);
    let id_aa = commutative_of(&iter_aa);
    let id_b = commutative_of(&iter_b);
    let id_c = commutative_of(&iter_c);

    assert_ne!(id_a, id_b);
    assert_ne!(id_a, id_c);
    assert_ne!(id_b, id_c);

    assert_eq!(id_a, id_aa)
}

#[test]
fn id_test_commutative_id() {
    let iter_a = [stable_id_of("f32"), stable_id_of("f64")];
    let iter_aa = [stable_id_of("f64"), stable_id_of("f32")];
    let iter_b = [stable_id_of("i8"), stable_id_of("i16")];
    let iter_c = [stable_id_of("i8"), stable_id_of("i16"), stable_id_of("i32")];
    let id_a = CommutativeId::from_ids(&iter_a.map(|i| CommutativeId(i.0)));
    let id_aa = CommutativeId::from_ids(&iter_aa.map(|i| CommutativeId(i.0)));
    let id_b = CommutativeId::from_ids(&iter_b.map(|i| CommutativeId(i.0)));
    let id_c = CommutativeId::from_ids(&iter_c.map(|i| CommutativeId(i.0)));

    assert_ne!(id_a, id_b);
    assert_ne!(id_a, id_c);
    assert_ne!(id_b, id_c);

    assert_eq!(id_a, id_aa)
}
