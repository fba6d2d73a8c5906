//! The mappings an entity database keeps between entities, families and
//! component types.
//!
//! They cache, when a family is made, everything the database later asks of it:
//! which components it holds, which family an entity belongs to, where an entity
//! goes when it gains a component, and which families hold a component or a set
//! of components.

use vstd::prelude::*;
use std::collections::HashMap;
use crate::id::{EntityId, FamilyId};
use crate::component::{ComponentType, ComponentTypeSet, is_pick_of, increasing_positions, pick};
use crate::transfer::{TransferGraph, TransferEdge};
use crate::family_set::FamilyIdSet;

verus! {

broadcast use vstd::std_specs::hash::group_hash_axioms;

/// A mapping from one kind of value to another.
pub trait DbMapping {
    type From;
    type To;
}

impl<F, T> DbMapping for (F, T) {
    type From = F;
    type To = T;
}

/// Something that keeps the mapping `M` and can look values up in it.
pub trait GetDbMap<M: DbMapping> {
    /// What the mapping gives for `from`, if anything.
    spec fn mapped(&self, from: M::From) -> Option<M::To>;

    /// Looks `from` up in the mapping.
    fn get(&self, from: &M::From) -> (r: Option<M::To>)
        ensures
            r == self.mapped(*from),
    ;
}

/// The mappings of an entity database.
pub struct DbMaps {
    /// The family of each entity, by raw entity id.
    entity_to_owning_family: HashMap<u64, FamilyId>,
    /// The components of each family, by raw family id.
    components_of_family: HashMap<u64, ComponentTypeSet>,
    /// The transfer graph of each family, by raw family id.
    transfer_graph_of_family: HashMap<u64, TransferGraph>,
    /// The families holding each component type, by raw type id.
    families_containing_component: HashMap<u64, FamilyIdSet>,
    /// The families holding each set of component types.
    families_containing_set: Vec<(ComponentTypeSet, FamilyIdSet)>,
}

impl DbMaps {
    /// The family of each entity, by raw entity id.
    pub closed spec fn entity_families(self) -> Map<u64, FamilyId> {
        self.entity_to_owning_family@
    }

    /// The components of each family, by raw family id.
    pub closed spec fn family_components(self) -> Map<u64, ComponentTypeSet> {
        self.components_of_family@
    }

    /// The transfer edges of each family, by raw family id and raw type id.
    pub closed spec fn transfer_graphs(self) -> Map<u64, Map<u64, TransferEdge>> {
        self.transfer_graph_of_family@.map_values(|g: TransferGraph| g@)
    }

    /// The raw ids of the families holding each component type, by raw type id.
    pub closed spec fn containing_component(self) -> Map<u64, Set<u64>> {
        self.families_containing_component@.map_values(|s: FamilyIdSet| s.contents())
    }

    /// The sets of component types, by their raw ids, with the raw ids of the
    /// families holding them.
    pub closed spec fn containing_sets(self) -> Seq<(Seq<u64>, Set<u64>)> {
        self.families_containing_set@.map_values(|p: (ComponentTypeSet, FamilyIdSet)| (p.0.raws(), p.1.contents()))
    }

    /// True when the set with raw ids `key` has an entry.
    pub open spec fn has_set(self, key: Seq<u64>) -> bool {
        exists|i: int| 0 <= i < self.containing_sets().len() && #[trigger] self.containing_sets()[i].0 == key
    }

    /// The raw ids of the families holding the set with raw ids `key`.
    pub open spec fn set_families(self, key: Seq<u64>) -> Set<u64> {
        if self.has_set(key) {
            self.containing_sets()[choose|i: int| 0 <= i < self.containing_sets().len() && #[trigger] self.containing_sets()[i].0 == key].1
        } else {
            Set::empty()
        }
    }

    /// Each set has at most one entry.
    pub open spec fn sets_distinct(self) -> bool {
        forall|i: int, j: int| 0 <= i < j < self.containing_sets().len() ==>
            #[trigger] self.containing_sets()[i].0 != #[trigger] self.containing_sets()[j].0
    }

    /// The family of the given components, if one was registered for exactly them.
    pub open spec fn family_of_set_spec(self, set: ComponentTypeSet) -> Option<FamilyId> {
        let f = set.family_spec();
        if self.family_components().contains_key(f.raw()) && self.family_components()[f.raw()].raws() == set.raws() {
            Some(f)
        } else {
            None
        }
    }

    /// The family of the entity, if it has one.
    pub open spec fn family_of_entity_spec(self, entity: EntityId) -> Option<FamilyId> {
        if self.entity_families().contains_key(entity.raw()) {
            Some(self.entity_families()[entity.raw()])
        } else {
            None
        }
    }

    /// Mappings without entries.
    pub fn new() -> (r: DbMaps)
        ensures
            r.entity_families() == Map::<u64, FamilyId>::empty(),
            r.family_components() == Map::<u64, ComponentTypeSet>::empty(),
            r.transfer_graphs() == Map::<u64, Map<u64, TransferEdge>>::empty(),
            r.containing_component() == Map::<u64, Set<u64>>::empty(),
            r.containing_sets() == Seq::<(Seq<u64>, Set<u64>)>::empty(),
    {
        let r = DbMaps {
            entity_to_owning_family: HashMap::new(),
            components_of_family: HashMap::new(),
            transfer_graph_of_family: HashMap::new(),
            families_containing_component: HashMap::new(),
            families_containing_set: Vec::new(),
        };
        assert(r.transfer_graphs() =~= Map::<u64, Map<u64, TransferEdge>>::empty());
        assert(r.containing_component() =~= Map::<u64, Set<u64>>::empty());
        assert(r.containing_sets() =~= Seq::<(Seq<u64>, Set<u64>)>::empty());
        r
    }

    /// The family of the entity, if it has one.
    pub fn family_of_entity(&self, entity: &EntityId) -> (r: Option<FamilyId>)
        ensures
            r == self.family_of_entity_spec(*entity),
    {
        match self.entity_to_owning_family.get(&entity.0.aligned) {
            Some(f) => Some(*f),
            None => None,
        }
    }

    /// Records `family` as the family of `entity`.
    pub fn set_family_of_entity(&mut self, entity: &EntityId, family: FamilyId)
        ensures
            final(self).entity_families() == old(self).entity_families().insert(entity.raw(), family),
            final(self).family_components() == old(self).family_components(),
            final(self).transfer_graphs() == old(self).transfer_graphs(),
            final(self).containing_component() == old(self).containing_component(),
            final(self).containing_sets() == old(self).containing_sets(),
    {
        self.entity_to_owning_family.insert(entity.0.aligned, family);
    }

    /// Forgets the family of `entity`.
    pub fn remove_family_of_entity(&mut self, entity: &EntityId)
        ensures
            final(self).entity_families() == old(self).entity_families().remove(entity.raw()),
            final(self).family_components() == old(self).family_components(),
            final(self).transfer_graphs() == old(self).transfer_graphs(),
            final(self).containing_component() == old(self).containing_component(),
            final(self).containing_sets() == old(self).containing_sets(),
    {
        self.entity_to_owning_family.remove(&entity.0.aligned);
    }

    /// The components of the family, if it was registered.
    pub fn components_of(&self, family: &FamilyId) -> (r: Option<&ComponentTypeSet>)
        ensures
            match r {
                Some(set) => self.family_components().contains_key(family.raw())
                    && *set == self.family_components()[family.raw()],
                None => !self.family_components().contains_key(family.raw()),
            },
    {
        self.components_of_family.get(&family.0.0)
    }

    /// The family registered for exactly the given components, if any.
    pub fn family_of_set(&self, set: &ComponentTypeSet) -> (r: Option<FamilyId>)
        ensures
            r == self.family_of_set_spec(*set),
    {
        let f = set.family_id();
        match self.components_of_family.get(&f.0.0) {
            Some(components) => {
                if components.same_as(set) {
                    Some(f)
                } else {
                    None
                }
            },
            None => None,
        }
    }

    /// The transfer edge recorded in the graph of `family` for `component`.
    pub fn transfer_edge(&self, family: &FamilyId, component: &ComponentType) -> (r: Option<TransferEdge>)
        ensures
            r == (if self.transfer_graphs().contains_key(family.raw())
                && self.transfer_graphs()[family.raw()].contains_key(component.0.0) {
                Some(self.transfer_graphs()[family.raw()][component.0.0])
            } else {
                None::<TransferEdge>
            }),
    {
        match self.transfer_graph_of_family.get(&family.0.0) {
            Some(graph) => graph.get(component),
            None => None,
        }
    }

    /// Records `edge` for `component` in the graph of `family`, when the family has one.
    pub fn set_transfer_edge(&mut self, family: &FamilyId, component: &ComponentType, edge: TransferEdge)
        ensures
            final(self).transfer_graphs() == (if old(self).transfer_graphs().contains_key(family.raw()) {
                old(self).transfer_graphs().insert(family.raw(),
                    old(self).transfer_graphs()[family.raw()].insert(component.0.0, edge))
            } else {
                old(self).transfer_graphs()
            }),
            final(self).entity_families() == old(self).entity_families(),
            final(self).family_components() == old(self).family_components(),
            final(self).containing_component() == old(self).containing_component(),
            final(self).containing_sets() == old(self).containing_sets(),
    {
        let ghost before = self.transfer_graph_of_family@;
        match self.transfer_graph_of_family.remove(&family.0.0) {
            Some(mut graph) => {
                graph.set(component, edge);
                self.transfer_graph_of_family.insert(family.0.0, graph);
                assert(self.transfer_graph_of_family@.map_values(|g: TransferGraph| g@) =~=
                    before.map_values(|g: TransferGraph| g@).insert(family.0.0,
                        before.map_values(|g: TransferGraph| g@)[family.0.0].insert(component.0.0, edge)));
            },
            None => {},
        }
    }

    /// The families holding `component`, if any was registered.
    pub fn families_with_component(&self, component: &ComponentType) -> (r: Option<&FamilyIdSet>)
        ensures
            match r {
                Some(set) => self.containing_component().contains_key(component.0.0)
                    && set.contents() == self.containing_component()[component.0.0],
                None => !self.containing_component().contains_key(component.0.0),
            },
    {
        self.families_containing_component.get(&component.0.0)
    }

    /// The position of the entry of `set`, if it has one.
    fn find_set(&self, set: &ComponentTypeSet) -> (r: Option<usize>)
        ensures
            match r {
                Some(i) => i < self.containing_sets().len() && self.containing_sets()[i as int].0 == set.raws(),
                None => !self.has_set(set.raws()),
            },
    {
        let mut i: usize = 0;
        while i < self.families_containing_set.len()
            invariant
                i <= self.containing_sets().len(),
                self.containing_sets().len() == self.families_containing_set@.len(),
                forall|j: int| 0 <= j < i ==> #[trigger] self.containing_sets()[j].0 != set.raws(),
            decreases self.families_containing_set@.len() - i,
        {
            if self.families_containing_set[i].0.same_as(set) {
                return Some(i);
            }
            i = i + 1;
        }
        None
    }

    /// The entry at position `i` is the one of its set.
    pub proof fn lemma_set_entry(self, i: int)
        requires
            self.sets_distinct(),
            0 <= i < self.containing_sets().len(),
        ensures
            self.has_set(self.containing_sets()[i].0),
            self.set_families(self.containing_sets()[i].0) == self.containing_sets()[i].1,
    {
        let key = self.containing_sets()[i].0;
        assert(self.has_set(key));
        let j = choose|j: int| 0 <= j < self.containing_sets().len() && #[trigger] self.containing_sets()[j].0 == key;
        if j != i {
            if j < i {
                assert(self.containing_sets()[j].0 != self.containing_sets()[i].0);
            } else {
                assert(self.containing_sets()[i].0 != self.containing_sets()[j].0);
            }
        }
    }

    /// The set holding only `family`.
    fn single_family(family: FamilyId) -> (r: FamilyIdSet)
        ensures
            r.contents() == Set::<u64>::empty().insert(family.raw()),
    {
        let families = vec![family];
        let r = FamilyIdSet::from_families(families.as_slice());
        proof {
            let raws = crate::family_set::family_raws(families@);
            assert(raws =~= seq![family.raw()]);
            assert forall|x: u64| raws.to_set().contains(x) == Set::<u64>::empty().insert(family.raw()).contains(x) by {
                if x == family.raw() {
                    assert(raws[0] == x);
                }
            }
            assert(raws.to_set() =~= Set::<u64>::empty().insert(family.raw()));
        }
        r
    }

    /// Adds `family` to the families holding the set `set`, making its entry when
    /// there is none.
    fn add_to_set_entry(&mut self, set: ComponentTypeSet, family: FamilyId)
        requires
            old(self).sets_distinct(),
        ensures
            final(self).sets_distinct(),
            forall|k: Seq<u64>| #[trigger] final(self).has_set(k) == (old(self).has_set(k) || k == set.raws()),
            forall|k: Seq<u64>| #[trigger] final(self).set_families(k) == (if k == set.raws() {
                old(self).set_families(k).insert(family.raw())
            } else {
                old(self).set_families(k)
            }),
            final(self).entity_families() == old(self).entity_families(),
            final(self).family_components() == old(self).family_components(),
            final(self).transfer_graphs() == old(self).transfer_graphs(),
            final(self).containing_component() == old(self).containing_component(),
    {
        let ghost old_sets = self.containing_sets();
        match self.find_set(&set) {
            Some(i) => {
                proof { self.lemma_set_entry(i as int); }
                self.families_containing_set[i].1.insert(family);
                proof {
                    assert(self.containing_sets() =~= old_sets.update(i as int, (old_sets[i as int].0, old_sets[i as int].1.insert(family.raw()))));
                    assert(self.sets_distinct());
                    assert forall|k: Seq<u64>| #[trigger] self.has_set(k) == (old(self).has_set(k) || k == set.raws()) by {
                        if old(self).has_set(k) {
                            let j = choose|j: int| 0 <= j < old_sets.len() && #[trigger] old_sets[j].0 == k;
                            assert(self.containing_sets()[j].0 == k);
                        }
                        if self.has_set(k) {
                            let j = choose|j: int| 0 <= j < self.containing_sets().len() && #[trigger] self.containing_sets()[j].0 == k;
                            assert(old_sets[j].0 == k);
                        }
                    }
                    assert forall|k: Seq<u64>| #[trigger] self.set_families(k) == (if k == set.raws() {
                        old(self).set_families(k).insert(family.raw())
                    } else {
                        old(self).set_families(k)
                    }) by {
                        if self.has_set(k) {
                            let j = choose|j: int| 0 <= j < self.containing_sets().len() && #[trigger] self.containing_sets()[j].0 == k;
                            self.lemma_set_entry(j);
                            old(self).lemma_set_entry(j);
                        }
                    }
                }
            },
            None => {
                let entry = Self::single_family(family);
                let ghost raws = set.raws();
                self.families_containing_set.push((set, entry));
                proof {
                    let n = old_sets.len() as int;
                    assert(self.containing_sets() =~= old_sets.push((raws, entry.contents())));
                    assert(self.sets_distinct()) by {
                        assert forall|i: int, j: int| 0 <= i < j < self.containing_sets().len() implies
                            #[trigger] self.containing_sets()[i].0 != #[trigger] self.containing_sets()[j].0 by {
                            if j == n {
                                assert(old_sets[i].0 == self.containing_sets()[i].0);
                            } else {
                                assert(old_sets[i].0 != old_sets[j].0);
                            }
                        }
                    }
                    assert forall|k: Seq<u64>| #[trigger] self.has_set(k) == (old(self).has_set(k) || k == raws) by {
                        if old(self).has_set(k) {
                            let j = choose|j: int| 0 <= j < old_sets.len() && #[trigger] old_sets[j].0 == k;
                            assert(self.containing_sets()[j].0 == k);
                        }
                        if k == raws {
                            assert(self.containing_sets()[n].0 == k);
                        }
                        if self.has_set(k) {
                            let j = choose|j: int| 0 <= j < self.containing_sets().len() && #[trigger] self.containing_sets()[j].0 == k;
                            if j < n {
                                assert(old_sets[j].0 == k);
                            }
                        }
                    }
                    assert forall|k: Seq<u64>| #[trigger] self.set_families(k) == (if k == raws {
                        old(self).set_families(k).insert(family.raw())
                    } else {
                        old(self).set_families(k)
                    }) by {
                        if self.has_set(k) {
                            let j = choose|j: int| 0 <= j < self.containing_sets().len() && #[trigger] self.containing_sets()[j].0 == k;
                            self.lemma_set_entry(j);
                            if j < n {
                                old(self).lemma_set_entry(j);
                            } else {
                                assert(!old(self).has_set(k));
                            }
                        }
                    }
                }
            },
        }
    }

    /// Adds `family` to the families holding `component`, making the entry when
    /// there is none.
    fn add_to_component_entry(&mut self, component: u64, family: FamilyId)
        ensures
            final(self).containing_component() == old(self).containing_component().insert(component,
                if old(self).containing_component().contains_key(component) {
                    old(self).containing_component()[component].insert(family.raw())
                } else {
                    Set::<u64>::empty().insert(family.raw())
                }),
            final(self).entity_families() == old(self).entity_families(),
            final(self).family_components() == old(self).family_components(),
            final(self).transfer_graphs() == old(self).transfer_graphs(),
            final(self).containing_sets() == old(self).containing_sets(),
    {
        let ghost before = self.families_containing_component@;
        match self.families_containing_component.remove(&component) {
            Some(mut families) => {
                families.insert(family);
                self.families_containing_component.insert(component, families);
            },
            None => {
                let families = Self::single_family(family);
                self.families_containing_component.insert(component, families);
            },
        }
        assert(self.containing_component() =~= before.map_values(|s: FamilyIdSet| s.contents()).insert(component,
            if before.contains_key(component) {
                before[component].contents().insert(family.raw())
            } else {
                Set::<u64>::empty().insert(family.raw())
            }));
    }

    /// Registers a new family: its components, a transfer graph without edges,
    /// and the family among those holding each of its components and each subset
    /// of them. The 2^n subsets must fit in memory, hence the bound on `n`.
    pub fn register_family(&mut self, family: FamilyId, components: ComponentTypeSet)
        requires
            components.raws().len() < 32,
            old(self).sets_distinct(),
        ensures
            final(self).sets_distinct(),
            final(self).entity_families() == old(self).entity_families(),
            final(self).family_components() == old(self).family_components().insert(family.raw(), components),
            final(self).transfer_graphs() == old(self).transfer_graphs().insert(family.raw(), Map::<u64, TransferEdge>::empty()),
            forall|c: u64| #[trigger] final(self).containing_component().contains_key(c) ==
                (old(self).containing_component().contains_key(c) || components.raw_set().contains(c)),
            forall|c: u64| final(self).containing_component().contains_key(c) ==>
                #[trigger] final(self).containing_component()[c] == (if components.raw_set().contains(c) {
                    if old(self).containing_component().contains_key(c) {
                        old(self).containing_component()[c].insert(family.raw())
                    } else {
                        Set::<u64>::empty().insert(family.raw())
                    }
                } else {
                    old(self).containing_component()[c]
                }),
            forall|k: Seq<u64>| #[trigger] final(self).has_set(k) == (old(self).has_set(k) || is_pick_of(k, components.raws())),
            forall|k: Seq<u64>| #[trigger] final(self).set_families(k) == (if is_pick_of(k, components.raws()) {
                old(self).set_families(k).insert(family.raw())
            } else {
                old(self).set_families(k)
            }),
    {
        let ghost old_self = *old(self);
        let subsets = components.power_set();
        let mut k: usize = 0;
        while k < subsets.len()
            invariant
                k <= subsets@.len(),
                self.sets_distinct(),
                self.entity_families() == old_self.entity_families(),
                self.family_components() == old_self.family_components(),
                self.transfer_graphs() == old_self.transfer_graphs(),
                self.containing_component() == old_self.containing_component(),
                forall|key: Seq<u64>| #[trigger] self.has_set(key) ==
                    (old_self.has_set(key) || exists|j: int| 0 <= j < k && #[trigger] subsets@[j].raws() == key),
                forall|key: Seq<u64>| #[trigger] self.set_families(key) ==
                    (if exists|j: int| 0 <= j < k && #[trigger] subsets@[j].raws() == key {
                        old_self.set_families(key).insert(family.raw())
                    } else {
                        old_self.set_families(key)
                    }),
            decreases subsets@.len() - k,
        {
            let subset = subsets[k].duplicate();
            let ghost before = *self;
            self.add_to_set_entry(subset, family);
            proof {
                assert forall|key: Seq<u64>| #[trigger] self.has_set(key) ==
                    (old_self.has_set(key) || exists|j: int| 0 <= j < k + 1 && #[trigger] subsets@[j].raws() == key) by {
                    if key == subsets@[k as int].raws() {
                        assert(subsets@[k as int].raws() == key);
                    }
                    if exists|j: int| 0 <= j < k + 1 && #[trigger] subsets@[j].raws() == key {
                        let j = choose|j: int| 0 <= j < k + 1 && #[trigger] subsets@[j].raws() == key;
                        if j < k {
                            assert(before.has_set(key));
                        }
                    }
                }
                assert forall|key: Seq<u64>| #[trigger] self.set_families(key) ==
                    (if exists|j: int| 0 <= j < k + 1 && #[trigger] subsets@[j].raws() == key {
                        old_self.set_families(key).insert(family.raw())
                    } else {
                        old_self.set_families(key)
                    }) by {
                    if key == subsets@[k as int].raws() {
                        assert(subsets@[k as int].raws() == key);
                        if exists|j: int| 0 <= j < k && #[trigger] subsets@[j].raws() == key {
                            assert(before.set_families(key) == old_self.set_families(key).insert(family.raw()));
                            assert(self.set_families(key) =~= old_self.set_families(key).insert(family.raw()));
                        }
                    } else {
                        if exists|j: int| 0 <= j < k + 1 && #[trigger] subsets@[j].raws() == key {
                            let j = choose|j: int| 0 <= j < k + 1 && #[trigger] subsets@[j].raws() == key;
                            assert(j < k);
                        }
                    }
                }
            }
            k = k + 1;
        }
        proof {
            assert forall|key: Seq<u64>| (exists|j: int| 0 <= j < subsets@.len() && #[trigger] subsets@[j].raws() == key)
                == is_pick_of(key, components.raws()) by {
                if exists|j: int| 0 <= j < subsets@.len() && #[trigger] subsets@[j].raws() == key {
                    let j = choose|j: int| 0 <= j < subsets@.len() && #[trigger] subsets@[j].raws() == key;
                    assert(is_pick_of(subsets@[j].raws(), components.raws()));
                }
                if is_pick_of(key, components.raws()) {
                    let idx = choose|idx: Seq<int>| #[trigger] increasing_positions(idx, components.raws().len() as int)
                        && key == pick(components.raws(), idx);
                    let j = choose|j: int| 0 <= j < subsets@.len() && #[trigger] subsets@[j].raws() == pick(components.raws(), idx);
                    assert(subsets@[j].raws() == key);
                }
            }
            assert forall|key: Seq<u64>| #[trigger] self.has_set(key) == (old_self.has_set(key) || is_pick_of(key, components.raws())) by {}
            assert forall|key: Seq<u64>| #[trigger] self.set_families(key) == (if is_pick_of(key, components.raws()) {
                old_self.set_families(key).insert(family.raw())
            } else {
                old_self.set_families(key)
            }) by {}
        }
        let ghost mid = *self;
        let members = components.to_vec();
        let mut i: usize = 0;
        while i < members.len()
            invariant
                i <= members@.len(),
                members@ == components.members(),
                crate::component::raws_of(members@) == components.raws(),
                self.sets_distinct(),
                self.entity_families() == old_self.entity_families(),
                self.family_components() == old_self.family_components(),
                self.transfer_graphs() == old_self.transfer_graphs(),
                self.containing_sets() == mid.containing_sets(),
                forall|c: u64| #[trigger] self.containing_component().contains_key(c) ==
                    (old_self.containing_component().contains_key(c) || components.raws().take(i as int).contains(c)),
                forall|c: u64| self.containing_component().contains_key(c) ==>
                    #[trigger] self.containing_component()[c] == (if components.raws().take(i as int).contains(c) {
                        if old_self.containing_component().contains_key(c) {
                            old_self.containing_component()[c].insert(family.raw())
                        } else {
                            Set::<u64>::empty().insert(family.raw())
                        }
                    } else {
                        old_self.containing_component()[c]
                    }),
            decreases members@.len() - i,
        {
            let c = members[i].0.0;
            let ghost before = *self;
            self.add_to_component_entry(c, family);
            proof {
                let t0 = components.raws().take(i as int);
                let t1 = components.raws().take(i as int + 1);
                assert(t1 =~= t0.push(c));
                assert forall|x: u64| t1.contains(x) == (t0.contains(x) || x == c) by {
                    if t1.contains(x) {
                        let j = t1.index_of(x);
                        if j < i {
                            assert(t0[j] == x);
                        }
                    }
                    if t0.contains(x) {
                        let j = t0.index_of(x);
                        assert(t1[j] == x);
                    }
                    if x == c {
                        assert(t1[i as int] == x);
                    }
                }
                assert forall|x: u64| self.containing_component().contains_key(x) implies
                    #[trigger] self.containing_component()[x] == (if t1.contains(x) {
                        if old_self.containing_component().contains_key(x) {
                            old_self.containing_component()[x].insert(family.raw())
                        } else {
                            Set::<u64>::empty().insert(family.raw())
                        }
                    } else {
                        old_self.containing_component()[x]
                    }) by {
                    if x == c && t0.contains(x) {
                        assert(before.containing_component()[x].insert(family.raw()) =~= before.containing_component()[x]);
                    }
                }
            }
            i = i + 1;
        }
        proof {
            assert(components.raws().take(members@.len() as int) =~= components.raws());
            assert forall|c: u64| #[trigger] self.containing_component().contains_key(c) ==
                (old_self.containing_component().contains_key(c) || components.raw_set().contains(c)) by {
                assert(components.raw_set().contains(c) == components.raws().contains(c));
            }
            assert forall|c: u64| self.containing_component().contains_key(c) implies
                #[trigger] self.containing_component()[c] == (if components.raw_set().contains(c) {
                    if old_self.containing_component().contains_key(c) {
                        old_self.containing_component()[c].insert(family.raw())
                    } else {
                        Set::<u64>::empty().insert(family.raw())
                    }
                } else {
                    old_self.containing_component()[c]
                }) by {
                assert(components.raw_set().contains(c) == components.raws().contains(c));
            }
        }
        let ghost cc = self.containing_component();
        self.components_of_family.insert(family.0.0, components);
        let ghost graphs_before = self.transfer_graph_of_family@;
        self.transfer_graph_of_family.insert(family.0.0, TransferGraph::new());
        proof {
            assert(self.transfer_graph_of_family@.map_values(|g: TransferGraph| g@) =~=
                graphs_before.map_values(|g: TransferGraph| g@).insert(family.0.0, Map::<u64, TransferEdge>::empty()));
            assert(self.containing_component() == cc);
            assert(self.containing_sets() == mid.containing_sets());
            assert forall|key: Seq<u64>| #[trigger] self.has_set(key) == mid.has_set(key) by {}
            assert forall|key: Seq<u64>| #[trigger] self.set_families(key) == mid.set_families(key) by {}
        }
    }

    /// The families holding every component of `set`, if the set was registered.
    pub fn families_with_set(&self, set: &ComponentTypeSet) -> (r: Option<&FamilyIdSet>)
        requires
            self.sets_distinct(),
        ensures
            match r {
                Some(families) => self.has_set(set.raws()) && families.contents() == self.set_families(set.raws()),
                None => !self.has_set(set.raws()),
            },
    {
        match self.find_set(set) {
            Some(i) => Some(&self.families_containing_set[i].1),
            None => None,
        }
    }
}

impl DbMaps {
    /// Looks `from` up in the mapping `M`.
    pub fn get_map<M: DbMapping>(&self, from: &M::From) -> (r: Option<M::To>)
        where
            Self: GetDbMap<M>,
        ensures
            r == <Self as GetDbMap<M>>::mapped(self, *from),
    {
        <Self as GetDbMap<M>>::get(self, from)
    }
}

impl GetDbMap<(EntityId, FamilyId)> for DbMaps {
    open spec fn mapped(&self, from: EntityId) -> Option<FamilyId> {
        self.family_of_entity_spec(from)
    }

    fn get(&self, from: &EntityId) -> (r: Option<FamilyId>) {
        self.family_of_entity(from)
    }
}

impl GetDbMap<(ComponentTypeSet, FamilyId)> for DbMaps {
    open spec fn mapped(&self, from: ComponentTypeSet) -> Option<FamilyId> {
        self.family_of_set_spec(from)
    }

    fn get(&self, from: &ComponentTypeSet) -> (r: Option<FamilyId>) {
        self.family_of_set(from)
    }
}

} // verus!
