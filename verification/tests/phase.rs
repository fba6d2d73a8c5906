use collider::component::ComponentType;
use collider::family_set::FamilyIdSet;
use collider::component::ComponentTypeSet;
use collider::transform::{Phase, TransformationId};
use std::any::TypeId;

struct Gravity;
struct Movement;
struct Render;
struct Audio;

fn ty(name: &str) -> ComponentType {
    ComponentType::from_type_name(name)
}

fn conflicts(a: &(Vec<ComponentType>, Vec<ComponentType>), b: &(Vec<ComponentType>, Vec<ComponentType>)) -> bool {
    a.1.iter().any(|w| b.0.contains(w) || b.1.contains(w)) || b.1.iter().any(|w| a.0.contains(w) || a.1.contains(w))
}

#[test]
fn conflicting_transformations_land_in_different_subphases() {
    let mut phase: Phase<&'static str> = Phase::new();
    phase.add_transformation(TransformationId(TypeId::of::<Gravity>()), "gravity", vec![ty("Mass")], vec![ty("Velocity")]);
    phase.add_transformation(TransformationId(TypeId::of::<Movement>()), "movement", vec![ty("Velocity")], vec![ty("Position")]);
    phase.add_transformation(TransformationId(TypeId::of::<Render>()), "render", vec![ty("Position")], vec![]);
    phase.add_transformation(TransformationId(TypeId::of::<Audio>()), "audio", vec![ty("Sound")], vec![]);

    let subphases = phase.subphases();
    let total: usize = subphases.iter().map(|s| s.len()).sum();
    assert_eq!(total, 4);
    let mut names: Vec<&str> = subphases.iter().flat_map(|s| s.iter().map(|(_, t)| t.ptr)).collect();
    names.sort();
    assert_eq!(names, vec!["audio", "gravity", "movement", "render"]);
    for sub in subphases.iter() {
        for (i, (_, a)) in sub.iter().enumerate() {
            for (_, b) in sub.iter().skip(i + 1) {
                let x = (a.reads.clone(), a.writes.clone());
                let y = (b.reads.clone(), b.writes.clone());
                assert!(!conflicts(&x, &y), "{} and {} share a subphase", a.ptr, b.ptr);
            }
        }
    }
    // gravity writes what movement reads
    let gravity_group = subphases.iter().position(|s| s.iter().any(|(_, t)| t.ptr == "gravity")).unwrap();
    let movement_group = subphases.iter().position(|s| s.iter().any(|(_, t)| t.ptr == "movement")).unwrap();
    assert_ne!(gravity_group, movement_group);
}

#[test]
fn independent_transformations_share_a_subphase() {
    let mut phase: Phase<u8> = Phase::new();
    phase.add_transformation(TransformationId(TypeId::of::<Gravity>()), 1, vec![ty("A")], vec![]);
    phase.add_transformation(TransformationId(TypeId::of::<Render>()), 2, vec![ty("A")], vec![]);
    assert_eq!(phase.subphases().len(), 1);
    assert_eq!(phase.subphases()[0].len(), 2);
}

#[test]
fn family_id_set_contents_and_id() {
    let f1 = ComponentTypeSet::single(ty("A")).family_id();
    let f2 = ComponentTypeSet::single(ty("B")).family_id();
    let f3 = ComponentTypeSet::single(ty("C")).family_id();
    let one = FamilyIdSet::from_families(&[f1, f2, f3]);
    let two = FamilyIdSet::from_families(&[f3, f1, f2, f1]);
    assert_eq!(one.set_id(), two.set_id());
    assert!(one.contains(&f2));
    let mut members = one.clone_into_vec();
    assert_eq!(members.len(), 3);
    members.sort_by_key(|f| f.inner().raw());
    let mut expected = vec![f1, f2, f3];
    expected.sort_by_key(|f| f.inner().raw());
    assert_eq!(members, expected);
    let mut three = FamilyIdSet::from_families(&[f1]);
    assert!(!three.contains(&f2));
    three.insert(f2);
    assert!(three.contains(&f2));
}
