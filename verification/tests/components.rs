use collider::commutative::CommutativeId;
use collider::component::{ComponentType, ComponentTypeSet};
use collider::id::FamilyId;
use collider::tyid::{StableTypeId, TypeNameRegistry};

fn ty(name: &str) -> ComponentType {
    ComponentType::from_type_name(name)
}

#[test]
fn stable_type_id_is_fnv1a_of_name() {
    assert_eq!(StableTypeId::from_type_name("").raw(), 0xcbf29ce484222325);
    assert_eq!(StableTypeId::from_type_name("a").raw(), 0xaf63dc4c8601ec8c);
    assert_eq!(StableTypeId::from_type_name("foobar").raw(), 0x85944171f73967e8);
    assert_eq!(ty("foobar").raw(), 0x85944171f73967e8);
}

#[test]
fn type_names_are_registered() {
    let mut registry = TypeNameRegistry::new();
    let id = StableTypeId::from_type_name("my::Type");
    assert_eq!(id.name(&registry), None);
    StableTypeId::register_debug_info(&mut registry, "my::Type");
    assert_eq!(id.name(&registry), Some("my::Type"));
}

#[test]
fn set_is_sorted_and_deduplicated() {
    let a = ty("A");
    let b = ty("B");
    let c = ty("C");
    let set = ComponentTypeSet::from_types(&[c, a, b, a, c]);
    assert_eq!(set.len(), 3);
    let members = set.to_vec();
    assert!(members.windows(2).all(|w| w[0].raw() < w[1].raw()));
    assert!(set.contains(&a) && set.contains(&b) && set.contains(&c));
    assert!(!set.contains(&ty("D")));
}

#[test]
fn insert_reports_whether_new() {
    let mut set = ComponentTypeSet::new();
    assert!(set.insert(ty("A")));
    assert!(!set.insert(ty("A")));
    assert!(set.insert(ty("B")));
    assert_eq!(set.len(), 2);
}

#[test]
fn with_adds_one_type() {
    let set = ComponentTypeSet::single(ty("A"));
    let more = set.with(ty("B"));
    assert_eq!(more.len(), 2);
    assert_eq!(set.len(), 1);
    let same = more.with(ty("A"));
    assert!(same.same_as(&more));
}

#[test]
fn family_id_ignores_order() {
    let one = ComponentTypeSet::from_types(&[ty("A"), ty("B"), ty("C")]);
    let two = ComponentTypeSet::from_types(&[ty("C"), ty("A"), ty("B")]);
    assert_eq!(one.family_id(), two.family_id());
    let raws = [ty("B").raw(), ty("C").raw(), ty("A").raw()];
    assert_eq!(one.family_id(), FamilyId::from_raw_ids(&raws));
    let other = ComponentTypeSet::from_types(&[ty("A"), ty("B")]);
    assert_ne!(one.family_id(), other.family_id());
}

#[test]
fn power_set_has_every_subset() {
    let set = ComponentTypeSet::from_types(&[ty("A"), ty("B"), ty("C")]);
    let subsets = set.power_set();
    assert_eq!(subsets.len(), 8);
    let mut sizes: Vec<usize> = subsets.iter().map(|s| s.len()).collect();
    sizes.sort();
    assert_eq!(sizes, vec![0, 1, 1, 1, 2, 2, 2, 3]);
    assert!(subsets.iter().any(|s| s.same_as(&set)));
    let ac = ComponentTypeSet::from_types(&[ty("A"), ty("C")]);
    assert!(subsets.iter().any(|s| s.same_as(&ac)));
}

#[test]
fn commutative_id_combines_in_any_order() {
    let x = CommutativeId(3);
    let y = CommutativeId(0x1234_5678_9abc_def0);
    let z = CommutativeId(77);
    assert_eq!(x.and(&y), y.and(&x));
    assert_eq!(x.and(&y).and(&z), x.and(&z).and(&y));
    assert_eq!(CommutativeId::from_ids(&[x, y, z]), CommutativeId::from_ids(&[z, y, x]));
    assert_eq!(CommutativeId(3).and(&CommutativeId(5)), CommutativeId(23));
    assert_eq!(CommutativeId::combine(&CommutativeId(u64::MAX), &CommutativeId(7)), CommutativeId(u64::MAX));
    assert!(!CommutativeId(0).non_zero());
    assert!(CommutativeId(1).non_zero());
}
