//! The entity database.
//!
//! Entities are grouped in families: all the entities of a family hold exactly
//! the same component types. Each family has a table, which gives every entity
//! of the family a row, and one column per component type, which holds the
//! values of that type. For an entity in a table, its components occupy the same
//! index in each column: its row. Columns stay dense; when an entity leaves a
//! table, the entity of the last row takes its place.
//!
//! The unit component type belongs to every family and carries no value, so it
//! has no column: the family of the unit component alone, where every entity
//! starts, has no columns at all, and its rows are only bookkeeping.

use vstd::prelude::*;
use std::collections::HashMap;
use crate::id::{EntityId, FamilyId, ColumnKey};
use crate::commutative::{combine_spec, CommutativeId};
use crate::component::{ComponentType, ComponentTypeSet, ComponentDelta, is_pick_of, increasing_positions, pick, raws_of, sorted_raws};
use crate::family_set::family_raws;
use crate::column::{ColumnInner, ColumnHeader, ColumnMoveResult, ColumnSwapRemoveResult, swap_removed};
use crate::table::Table;
use crate::entity::{EntityAllocator, EntityAllocError};
use crate::mapping::{DbMaps, DbMapping, GetDbMap};
use crate::transfer::TransferEdge;
use crate::error::DbError;
use crate::tyid::StableTypeId;
use vstd::string::StringSliceAdditionalSpecFns;
use vstd::std_specs::iter::IteratorSpec;

verus! {

broadcast use vstd::std_specs::hash::group_hash_axioms;

/// The raw key of the column of component type `c` in family `f`.
pub open spec fn key_raw(f: u64, c: u64) -> u64 {
    combine_spec(f, c)
}

/// A move between families, as the transfer graphs record it.
pub type Edge = TransferEdge;

/// Why an entity could not be created.
#[derive(Debug, Clone, Copy, PartialEq, Eq, Structural)]
pub enum CreateEntityError {
    IdAllocatorError,
    DbError(DbError),
}

/// A request from the database to whatever drives it.
#[derive(Debug, Clone, Copy, PartialEq, Eq, Structural)]
pub enum Command {
    Quit,
}

/// The entity database, storing component values of type `V`.
pub struct EntityDatabase<V> {
    allocator: EntityAllocator,
    /// The table of each family, by raw family id.
    tables: HashMap<u64, Table>,
    /// The columns, by raw column key.
    columns: HashMap<u64, ColumnInner<V>>,
    /// The mappings between entities, families and component types.
    maps: DbMaps,
    /// The headers of the component types seen so far, by raw type id.
    headers: HashMap<u64, ColumnHeader>,
    /// The unit component type.
    unit: ComponentType,
}

impl<V> EntityDatabase<V> {
    /// The table of each family, by raw family id.
    pub closed spec fn tables_spec(self) -> Map<u64, Table> {
        self.tables@
    }

    /// The columns, by raw column key.
    pub closed spec fn columns_spec(self) -> Map<u64, ColumnInner<V>> {
        self.columns@
    }

    /// The mappings between entities, families and component types.
    pub closed spec fn maps_spec(self) -> DbMaps {
        self.maps
    }

    /// The headers of the component types seen so far, by raw type id.
    pub closed spec fn headers_spec(self) -> Map<u64, ColumnHeader> {
        self.headers@
    }

    /// The entity id allocator.
    pub closed spec fn allocator_spec(self) -> EntityAllocator {
        self.allocator
    }

    /// The unit component type.
    pub closed spec fn unit_spec(self) -> ComponentType {
        self.unit
    }

    /// The raw id of the unit component type.
    pub open spec fn unit_raw(self) -> u64 {
        self.unit_spec().0.0
    }

    /// The family of the unit component alone.
    pub open spec fn unit_family(self) -> FamilyId {
        FamilyId(crate::commutative::CommutativeId(crate::commutative::commutative_hash(seq![self.unit_raw()])))
    }

    /// The family of each live entity, by raw entity id.
    pub open spec fn entity_families(self) -> Map<u64, FamilyId> {
        self.maps_spec().entity_families()
    }

    /// The components of each family, by raw family id.
    pub open spec fn family_components(self) -> Map<u64, ComponentTypeSet> {
        self.maps_spec().family_components()
    }

    /// The key the table of family `f` records for the column of component type `c`.
    pub open spec fn column_key_of(self, f: u64, c: u64) -> u64 {
        self.tables_spec()[f].columns_spec()[c].0.0
    }

    /// The column of component type `c` in family `f`.
    pub open spec fn column_of(self, f: u64, c: u64) -> ColumnInner<V> {
        self.columns_spec()[self.column_key_of(f, c)]
    }

    /// The raw ids of the component types entity `e` holds.
    pub open spec fn component_types(self, e: u64) -> Set<u64> {
        if self.entity_families().contains_key(e) && self.family_components().contains_key(self.entity_families()[e].raw()) {
            self.family_components()[self.entity_families()[e].raw()].raw_set()
        } else {
            Set::empty()
        }
    }

    /// The value of component type `c` of entity `e`, if it holds one.
    pub open spec fn component_value(self, e: u64, c: u64) -> Option<V> {
        if self.entity_families().contains_key(e) {
            let f = self.entity_families()[e].raw();
            if self.tables_spec().contains_key(f) && self.tables_spec()[f].columns_spec().contains_key(c)
                && self.tables_spec()[f].rows().contains_key(e) && self.columns_spec().contains_key(self.column_key_of(f, c)) {
                let i = self.tables_spec()[f].rows()[e];
                if i < self.column_of(f, c).rows().len() {
                    Some(self.column_of(f, c).rows()[i as int].1)
                } else {
                    None
                }
            } else {
                None
            }
        } else {
            None
        }
    }

    /// The facts of family `f` alone: its table, components and columns agree.
    pub open spec fn family_ok(self, f: u64) -> bool {
        let t = self.tables_spec()[f];
        let comps = self.family_components()[f];
        &&& t.family_spec().raw() == f
        &&& t.components_spec().raws() == comps.raws()
        &&& comps.family_spec().raw() == f
        &&& comps.raws() == crate::component::sorted_raws(comps.raw_set())
        &&& crate::component::strictly_sorted(comps.raws())
        &&& comps.raw_set().contains(self.unit_raw())
        &&& comps.raws().len() < 32
        &&& comps.raw_set() != Set::<u64>::empty().insert(self.unit_raw()) ==> t.free_rows().len() == 0
        &&& forall|c: u64| #[trigger] t.columns_spec().contains_key(c) == (comps.raw_set().contains(c) && c != self.unit_raw())
        &&& forall|c: u64| #[trigger] t.columns_spec().contains_key(c) ==> {
            &&& t.columns_spec()[c] == ColumnKey::key_of(t.family_spec(), c)
            &&& self.columns_spec().contains_key(key_raw(f, c))
        }
    }

    /// The family of the unit component alone is registered.
    pub open spec fn unit_registered(self) -> bool {
        &&& self.family_components().contains_key(self.unit_family().raw())
        &&& self.family_components()[self.unit_family().raw()].raws() == seq![self.unit_raw()]
    }

    /// Tables, components and transfer graphs are kept for the same families,
    /// and each family's facts hold.
    #[verifier::opaque]
    pub closed spec fn families_wf(self) -> bool {
        let comps = self.family_components();
        &&& self.tables_spec().dom() == comps.dom()
        &&& self.maps_spec().transfer_graphs().dom() == comps.dom()
        &&& forall|f: u64| #[trigger] self.tables_spec().contains_key(f) ==> self.family_ok(f)
    }

    /// No two columns of registered families share a key.
    #[verifier::opaque]
    pub closed spec fn keys_unique(self) -> bool {
        forall|f1: u64, c1: u64, f2: u64, c2: u64|
            #![trigger key_raw(f1, c1), key_raw(f2, c2)]
            self.tables_spec().contains_key(f1) && self.tables_spec()[f1].columns_spec().contains_key(c1)
            && self.tables_spec().contains_key(f2) && self.tables_spec()[f2].columns_spec().contains_key(c2)
            && key_raw(f1, c1) == key_raw(f2, c2) ==> f1 == f2 && c1 == c2
    }

    /// In the column of type `c` of family `f`, row `i` holds the entity whose
    /// row in the table is `i`, for every row of the table.
    pub open spec fn layout_ok(self, f: u64, c: u64) -> bool {
        layout_of(self.tables_spec()[f].rows(), self.column_of(f, c).entities())
    }

    /// In the column of type `c` of family `f`, the rows of every entity of the
    /// table but `e` are laid out, and `e`'s row is the next one.
    pub open spec fn layout_pending(self, f: u64, c: u64, e: u64) -> bool {
        let rows = self.tables_spec()[f].rows();
        let entities = self.column_of(f, c).entities();
        &&& rows.contains_key(e)
        &&& rows[e] == entities.len()
        &&& layout_of(rows.remove(e), entities)
    }

    /// The layout holds in every column but that of type `c` in family `f`,
    /// which misses the row of entity `e`.
    #[verifier::opaque]
    pub closed spec fn layout_wf_except(self, f: u64, c: u64, e: u64) -> bool {
        &&& forall|g: u64, k: u64| #[trigger] self.tables_spec().contains_key(g) && #[trigger] self.tables_spec()[g].columns_spec().contains_key(k)
            && !(g == f && k == c) ==> self.layout_ok(g, k)
        &&& self.tables_spec().contains_key(f)
        &&& self.tables_spec()[f].columns_spec().contains_key(c)
        &&& self.layout_pending(f, c, e)
    }

    /// Every column of every family lays its rows out as the family's table does.
    #[verifier::opaque]
    pub closed spec fn layout_wf(self) -> bool {
        forall|f: u64, c: u64| #[trigger] self.tables_spec().contains_key(f) && #[trigger] self.tables_spec()[f].columns_spec().contains_key(c)
            ==> self.layout_ok(f, c)
    }

    /// Each live entity is in the table of its family, and only there.
    #[verifier::opaque]
    pub closed spec fn entities_wf(self) -> bool {
        let ef = self.entity_families();
        &&& forall|e: u64| #[trigger] ef.contains_key(e) ==> self.tables_spec().contains_key(ef[e].raw())
            && self.tables_spec()[ef[e].raw()].rows().contains_key(e)
        &&& forall|f: u64, e: u64| #[trigger] self.tables_spec().contains_key(f) && #[trigger] self.tables_spec()[f].rows().contains_key(e)
            ==> ef.contains_key(e) && ef[e].raw() == f
    }

    /// Each recorded transfer edge leads to the family with exactly one component
    /// more (an `Add` edge) or one less (a `Remove` edge).
    #[verifier::opaque]
    pub closed spec fn edges_wf(self) -> bool {
        let comps = self.family_components();
        let graphs = self.maps_spec().transfer_graphs();
        forall|f: u64, c: u64| #[trigger] graphs.contains_key(f) && #[trigger] graphs[f].contains_key(c) ==>
            match graphs[f][c] {
                TransferEdge::Add(g) => comps.contains_key(g.raw()) && comps.contains_key(f)
                    && comps[g.raw()].raw_set() == comps[f].raw_set().insert(c),
                TransferEdge::Remove(g) => comps.contains_key(g.raw()) && comps.contains_key(f)
                    && comps[g.raw()].raw_set().insert(c) == comps[f].raw_set(),
            }
    }

    /// A family is listed under a component type, or a set of them, exactly when
    /// it holds it.
    #[verifier::opaque]
    pub closed spec fn indexes_wf(self) -> bool {
        let comps = self.family_components();
        let maps = self.maps_spec();
        &&& maps.sets_distinct()
        &&& forall|f: u64, c: u64| #[trigger] comps.contains_key(f) && #[trigger] comps[f].raw_set().contains(c) ==>
            maps.containing_component().contains_key(c) && maps.containing_component()[c].contains(f)
        &&& forall|c: u64, f: u64| #[trigger] maps.containing_component().contains_key(c) && #[trigger] maps.containing_component()[c].contains(f) ==>
            comps.contains_key(f) && comps[f].raw_set().contains(c)
        &&& forall|f: u64, k: Seq<u64>| #[trigger] comps.contains_key(f) && #[trigger] is_pick_of(k, comps[f].raws()) ==>
            maps.has_set(k) && maps.set_families(k).contains(f)
        &&& forall|k: Seq<u64>, f: u64| #[trigger] maps.set_families(k).contains(f) ==>
            comps.contains_key(f) && is_pick_of(k, comps[f].raws())
    }

    /// The column types of a family with these components: all but the unit type.
    pub open spec fn is_column_type(self, comps: ComponentTypeSet, c: u64) -> bool {
        comps.raw_set().contains(c) && c != self.unit_raw()
    }

    /// The columns of family `f` with components `comps` would clash neither
    /// with existing columns nor with each other.
    pub open spec fn keys_fresh(self, f: u64, comps: Seq<u64>) -> bool {
        &&& forall|i: int| 0 <= i < comps.len() && comps[i] != self.unit_raw() ==>
            !self.columns_spec().contains_key(#[trigger] key_raw(f, comps[i]))
        &&& forall|i: int, j: int| 0 <= i < j < comps.len() && comps[i] != self.unit_raw() && comps[j] != self.unit_raw() ==>
            #[trigger] key_raw(f, comps[i]) != #[trigger] key_raw(f, comps[j])
    }

    /// A family can be made for `comps`: its id is free and its columns fit.
    pub open spec fn can_make_family(self, comps: ComponentTypeSet) -> bool {
        &&& !self.tables_spec().contains_key(comps.family_spec().raw())
        &&& self.keys_fresh(comps.family_spec().raw(), comps.raws())
    }

    /// A family is registered for exactly the raw type ids `s`.
    pub open spec fn set_registered(self, s: Set<u64>) -> bool {
        let f = crate::component::family_of_raw_set(s).raw();
        &&& self.family_components().contains_key(f)
        &&& self.family_components()[f].raw_set() == s
    }

    /// A family can be made for exactly the raw type ids `s`.
    pub open spec fn can_make_raw_set(self, s: Set<u64>) -> bool {
        let f = crate::component::family_of_raw_set(s).raw();
        &&& !self.tables_spec().contains_key(f)
        &&& self.keys_fresh(f, crate::component::sorted_raws(s))
    }

    /// Giving component `c` to an entity of a family with raw type ids `set` fails:
    /// the family of `set` and `c` is neither registered nor can be made.
    pub open spec fn add_fails(self, set: Set<u64>, c: u64) -> bool {
        &&& !set.contains(c)
        &&& !self.set_registered(set.insert(c))
        &&& !self.can_make_raw_set(set.insert(c))
    }

    /// The registered family `f` is the family of its raw type ids.
    pub proof fn lemma_registered_set(self, f: u64)
        requires
            self.families_wf(),
            self.family_components().contains_key(f),
        ensures
            crate::component::family_of_raw_set(self.family_components()[f].raw_set()).raw() == f,
            self.set_registered(self.family_components()[f].raw_set()),
    {
        reveal(EntityDatabase::families_wf);
        assert(self.family_ok(f));
    }

    /// The invariant of the database, but for the unit family being registered.
    pub open spec fn core_wf(self) -> bool {
        &&& self.families_wf()
        &&& self.keys_unique()
        &&& self.layout_wf()
        &&& self.entities_wf()
        &&& self.edges_wf()
        &&& self.indexes_wf()
    }

    /// The invariant of the database while entity `e`, in family `f`, has no
    /// value yet in the column of type `c`.
    pub open spec fn pending_wf(self, f: u64, c: u64, e: u64) -> bool {
        &&& self.families_wf()
        &&& self.keys_unique()
        &&& self.layout_wf_except(f, c, e)
        &&& self.entities_wf()
        &&& self.edges_wf()
        &&& self.indexes_wf()
        &&& self.unit_registered()
    }

    /// The invariant of the database.
    pub open spec fn wf(self) -> bool {
        &&& self.core_wf()
        &&& self.unit_registered()
    }
}

impl<V> EntityDatabase<V> {
    /// The family of the entity, if it is live.
    pub fn family_of_entity(&self, entity: &EntityId) -> (r: Option<FamilyId>)
        ensures
            r == self.maps_spec().family_of_entity_spec(*entity),
    {
        self.maps.family_of_entity(entity)
    }

    /// The family registered for exactly the given components, if any.
    pub fn family_of_set(&self, set: &ComponentTypeSet) -> (r: Option<FamilyId>)
        ensures
            r == self.maps_spec().family_of_set_spec(*set),
    {
        self.maps.family_of_set(set)
    }

    /// The components of the family, if it is registered.
    pub fn components_of_family(&self, family: &FamilyId) -> (r: Option<&ComponentTypeSet>)
        ensures
            match r {
                Some(set) => self.family_components().contains_key(family.raw())
                    && *set == self.family_components()[family.raw()],
                None => !self.family_components().contains_key(family.raw()),
            },
    {
        self.maps.components_of(family)
    }

    /// Looks `key` up in the mapping `M` of the database.
    pub fn query_mapping<M: DbMapping>(&self, key: &M::From) -> (r: Option<M::To>)
        where
            DbMaps: GetDbMap<M>,
        ensures
            r == <DbMaps as GetDbMap<M>>::mapped(&self.maps_spec(), *key),
    {
        self.maps.get_map::<M>(key)
    }

    /// The mappings of the database.
    pub fn maps(&self) -> (r: &DbMaps)
        ensures
            *r == self.maps_spec(),
    {
        &self.maps
    }

    /// The table of the family, if it is registered.
    pub fn get_table(&self, family: &FamilyId) -> (r: Option<&Table>)
        ensures
            match r {
                Some(t) => self.tables_spec().contains_key(family.raw()) && *t == self.tables_spec()[family.raw()],
                None => !self.tables_spec().contains_key(family.raw()),
            },
    {
        self.tables.get(&family.0.0)
    }

    /// The column with the given key, if there is one.
    pub fn get_column(&self, key: &ColumnKey) -> (r: Option<&ColumnInner<V>>)
        ensures
            match r {
                Some(c) => self.columns_spec().contains_key(key.0.0) && *c == self.columns_spec()[key.0.0],
                None => !self.columns_spec().contains_key(key.0.0),
            },
    {
        self.columns.get(&key.0.0)
    }

    /// The value of the component of type `component_type` of the entity, if
    /// the entity is live and holds one.
    pub fn get_component(&self, entity: &EntityId, component_type: &ComponentType) -> (r: Option<&V>)
        ensures
            match r {
                Some(v) => self.component_value(entity.raw(), component_type.0.0) == Some(*v),
                None => self.component_value(entity.raw(), component_type.0.0) is None,
            },
    {
        let family = match self.maps.family_of_entity(entity) {
            Some(f) => f,
            None => return None,
        };
        let table = match self.tables.get(&family.0.0) {
            Some(t) => t,
            None => return None,
        };
        let key = match table.column_key(component_type) {
            Some(k) => k,
            None => return None,
        };
        let index = match table.entity_index(entity) {
            Some(i) => i,
            None => return None,
        };
        let column = match self.columns.get(&key.0.0) {
            Some(c) => c,
            None => return None,
        };
        if index < column.len() {
            Some(column.value_at(index))
        } else {
            None
        }
    }

    /// The column keys a transformation over `components` walks: for each
    /// family listed under exactly their set, one key per component, in the
    /// order of `components`. `None` when no family is listed for the set, or
    /// when a listed family keeps no column for one of the components (which
    /// happens for the unit type alone). The families come in the order the
    /// set of families yields them.
    pub fn column_keys_for(&self, components: &Vec<ComponentType>) -> (r: Option<Vec<ColumnKey>>)
        requires
            self.wf(),
        ensures
            ({
                let k = sorted_raws(raws_of(components@).to_set());
                let fams = self.maps_spec().set_families(k);
                &&& (r is Some <==> (self.maps_spec().has_set(k)
                    && (fams == Set::<u64>::empty() || !raws_of(components@).contains(self.unit_raw()))))
                &&& (r matches Some(keys) ==> exists|fs: Seq<FamilyId>| {
                    &&& family_raws(fs).no_duplicates()
                    &&& #[trigger] family_raws(fs).to_set() == fams
                    &&& keys@ == keys_for(fs, components@)
                })
            }),
    {
        proof {
            reveal(EntityDatabase::indexes_wf);
            reveal(EntityDatabase::families_wf);
        }
        let slice = components.as_slice();
        let set = ComponentTypeSet::from_types(slice);
        let ghost k = set.raws();
        assert(slice@ == components@);
        let listed = match self.maps.families_with_set(&set) {
            Some(s) => s,
            None => return None,
        };
        let families = listed.clone_into_vec();
        let ghost fams = self.maps_spec().set_families(k);
        let ghost comps = components@;
        let mut keys: Vec<ColumnKey> = Vec::new();
        let mut i: usize = 0;
        while i < families.len()
            invariant
                self.wf(),
                i <= families@.len(),
                k == set.raws(),
                k.to_set() == raws_of(comps).to_set(),
                comps == components@,
                family_raws(families@).to_set() == fams,
                fams == self.maps_spec().set_families(k),
                k == sorted_raws(raws_of(components@).to_set()),
                self.maps_spec().has_set(k),
                keys@ == keys_for(families@.take(i as int), comps),
                i > 0 ==> !raws_of(comps).contains(self.unit_raw()),
            decreases families@.len() - i,
        {
            let family = families[i];
            proof {
                assert(family_raws(families@)[i as int] == family.raw());
                assert(family_raws(families@).to_set().contains(family.raw()));
                self.lemma_set_index(k, family.raw());
                reveal(EntityDatabase::families_wf);
                assert(self.tables_spec().contains_key(family.raw()));
                assert(self.family_ok(family.raw()));
            }
            let table = match self.tables.get(&family.0.0) {
                Some(t) => t,
                None => return None,
            };
            let ghost t = *table;
            let mut j: usize = 0;
            while j < components.len()
                invariant
                    self.wf(),
                    i < families@.len(),
                    j <= comps.len(),
                    comps == components@,
                    family == families@[i as int],
                    t == self.tables_spec()[family.raw()],
                    *table == t,
                    self.family_ok(family.raw()),
                    self.family_components().contains_key(family.raw()),
                    is_pick_of(k, self.family_components()[family.raw()].raws()),
                    k.to_set() == raws_of(comps).to_set(),
                    k == sorted_raws(raws_of(components@).to_set()),
                    fams == self.maps_spec().set_families(k),
                    fams.contains(family.raw()),
                    self.maps_spec().has_set(k),
                    keys@ == keys_for(families@.take(i as int), comps)
                        + comps.take(j as int).map_values(|c: ComponentType| ColumnKey::key_of(family, c.0.0)),
                    forall|m: int| 0 <= m < j ==> comps[m].0.0 != self.unit_raw(),
                decreases comps.len() - j,
            {
                let c = components[j];
                let ghost raws_f = self.family_components()[family.raw()].raws();
                proof {
                    assert(raws_of(comps)[j as int] == c.0.0);
                    assert(raws_of(comps).to_set().contains(c.0.0));
                    assert(k.to_set().contains(c.0.0));
                    let m = k.index_of(c.0.0);
                    let idx = choose|idx: Seq<int>| #[trigger] increasing_positions(idx, raws_f.len() as int) && k == pick(raws_f, idx);
                    assert(k[m] == raws_f[idx[m]]);
                    assert(raws_f.to_set().contains(c.0.0));
                }
                match table.column_key(&c) {
                    Some(key) => {
                        proof {
                            assert(t.family_spec().raw() == family.raw());
                            assert(t.family_spec() == family);
                            assert(comps.take(j as int + 1).map_values(|c: ComponentType| ColumnKey::key_of(family, c.0.0))
                                =~= comps.take(j as int).map_values(|c: ComponentType| ColumnKey::key_of(family, c.0.0)).push(key));
                        }
                        keys.push(key);
                    },
                    None => {
                        proof {
                            assert(c.0.0 == self.unit_raw());
                            assert(raws_of(comps).contains(self.unit_raw()));
                            assert(fams.contains(family.raw()));
                        }
                        return None;
                    },
                }
                j = j + 1;
            }
            proof {
                assert(comps.take(comps.len() as int) =~= comps);
                assert(families@.take(i as int + 1).drop_last() =~= families@.take(i as int));
                assert(families@.take(i as int + 1).last() == family);
                assert forall|x: u64| raws_of(comps).contains(x) implies x != self.unit_raw() by {
                    let m = raws_of(comps).index_of(x);
                }
            }
            i = i + 1;
        }
        proof {
            assert(families@.take(families@.len() as int) =~= families@);
            if families@.len() == 0 {
                assert(family_raws(families@) =~= Seq::<u64>::empty());
                assert(fams =~= Set::<u64>::empty());
            } else {
                assert(family_raws(families@).to_set().contains(family_raws(families@)[0]));
            }
        }
        Some(keys)
    }

    /// The registered families, each once, in the order the table map yields them.
    pub fn families(&self) -> (r: Vec<FamilyId>)
        requires
            self.wf(),
        ensures
            family_raws(r@).no_duplicates(),
            family_raws(r@).to_set() == self.family_components().dom(),
    {
        proof {
            reveal(EntityDatabase::families_wf);
        }
        let mut out: Vec<FamilyId> = Vec::new();
        let ghost keys = vstd::std_specs::hash::spec_keys_iter(&self.tables).remaining().unref();
        proof {
            vstd::std_specs::hash::axiom_spec_keys_iter(&self.tables);
        }
        for k in it: self.tables.keys()
            invariant
                keys.to_set() == self.tables_spec().dom(),
                keys.no_duplicates(),
                it.seq().unref() == keys,
                family_raws(out@) == keys.take(it.index() as int),
        {
            let ghost before = out@;
            out.push(FamilyId(CommutativeId(*k)));
            proof {
                assert(family_raws(out@) =~= family_raws(before).push(*k));
                assert(keys.take(it.index() as int + 1) =~= keys.take(it.index() as int).push(keys[it.index() as int]));
            }
        }
        proof {
            assert(keys.take(keys.len() as int) =~= keys);
        }
        out
    }

    /// The next command for whatever drives the database; there are none yet.
    pub fn query_commands(&self) -> (r: Option<Command>)
        ensures
            r is None,
    {
        None
    }
}

/// The keys of the columns of `components` in each of `families` in turn.
pub open spec fn keys_for(families: Seq<FamilyId>, components: Seq<ComponentType>) -> Seq<ColumnKey>
    decreases families.len(),
{
    if families.len() == 0 {
        Seq::empty()
    } else {
        keys_for(families.drop_last(), components)
            + components.map_values(|c: ComponentType| ColumnKey::key_of(families.last(), c.0.0))
    }
}

/// Two tables that differ at most in their rows.
pub open spec fn same_layout(a: Table, b: Table) -> bool {
    &&& a.family_spec() == b.family_spec()
    &&& a.components_spec() == b.components_spec()
    &&& a.columns_spec() == b.columns_spec()
}

impl<V> EntityDatabase<V> {
    /// Gives `entity` a row in the table of `family`, unless it has one, and
    /// returns its row.
    fn initialize_row_in(&mut self, entity: &EntityId, family: &FamilyId) -> (r: Result<usize, DbError>)
        ensures
            final(self).columns_spec() == old(self).columns_spec(),
            final(self).maps_spec() == old(self).maps_spec(),
            final(self).headers_spec() == old(self).headers_spec(),
            final(self).allocator_spec() == old(self).allocator_spec(),
            final(self).unit_spec() == old(self).unit_spec(),
            final(self).tables_spec().dom() == old(self).tables_spec().dom(),
            forall|g: u64| #[trigger] old(self).tables_spec().contains_key(g) && g != family.raw() ==>
                final(self).tables_spec()[g] == old(self).tables_spec()[g],
            !old(self).tables_spec().contains_key(family.raw()) ==>
                r == Err::<usize, DbError>(DbError::TableDoesntExistForFamily(*family)),
            old(self).tables_spec().contains_key(family.raw()) ==> {
                let t = old(self).tables_spec()[family.raw()];
                let t2 = final(self).tables_spec()[family.raw()];
                &&& same_layout(t, t2)
                &&& t.rows().contains_key(entity.raw()) ==> {
                    &&& r == Ok::<usize, DbError>(t.rows()[entity.raw()])
                    &&& t2.rows() == t.rows()
                    &&& t2.free_rows() == t.free_rows()
                }
                &&& !t.rows().contains_key(entity.raw()) ==> {
                    &&& r == Ok::<usize, DbError>(t.next_free_row_spec())
                    &&& t2.rows() == t.rows().insert(entity.raw(), t.next_free_row_spec())
                    &&& t2.free_rows() == (if t.free_rows().len() > 0 { t.free_rows().drop_last() } else { t.free_rows() })
                }
            },
    {
        match self.tables.remove(&family.0.0) {
            Some(mut table) => {
                let index = table.get_or_insert_entity(entity);
                self.tables.insert(family.0.0, table);
                index
            },
            None => Err(DbError::TableDoesntExistForFamily(*family)),
        }
    }

    /// Creates an entity in the family of the unit component alone, and returns
    /// its id. Fails, having used up the id, when the allocator hands out the id
    /// of an entity that is still live (after 2^32 fresh ids).
    pub fn create(&mut self) -> (r: Result<EntityId, CreateEntityError>)
        requires
            old(self).wf(),
        ensures
            final(self).wf(),
            final(self).allocator_spec().free_list() == (if old(self).allocator_spec().free_list().len() > 0 {
                old(self).allocator_spec().free_list().drop_last()
            } else {
                old(self).allocator_spec().free_list()
            }),
            final(self).allocator_spec().count() == (if old(self).allocator_spec().free_list().len() > 0 {
                old(self).allocator_spec().count() as int
            } else {
                (old(self).allocator_spec().count() as int + 1) % 0x1_0000_0000
            }),
            final(self).unit_spec() == old(self).unit_spec(),
            final(self).headers_spec() == old(self).headers_spec(),
            final(self).columns_spec() == old(self).columns_spec(),
            final(self).family_components() == old(self).family_components(),
            final(self).maps_spec().transfer_graphs() == old(self).maps_spec().transfer_graphs(),
            old(self).entity_families().contains_key(old(self).allocator_spec().next_id().raw()) ==> {
                &&& r == Err::<EntityId, CreateEntityError>(CreateEntityError::IdAllocatorError)
                &&& final(self).entity_families() == old(self).entity_families()
                &&& final(self).tables_spec() == old(self).tables_spec()
            },
            !old(self).entity_families().contains_key(old(self).allocator_spec().next_id().raw()) ==> {
                let e = old(self).allocator_spec().next_id();
                &&& r == Ok::<EntityId, CreateEntityError>(e)
                &&& final(self).entity_families() == old(self).entity_families().insert(e.raw(), old(self).unit_family())
                &&& final(self).component_types(e.raw()) == Set::<u64>::empty().insert(old(self).unit_raw())
                &&& forall|x: u64, c: u64| #[trigger] final(self).component_value(x, c) ==
                    (if x == e.raw() { None::<V> } else { old(self).component_value(x, c) })
            },
    {
        let ghost old_self = *self;
        let entity = match self.allocator.allocate() {
            Ok(entity) => entity,
            Err(_) => return Err(CreateEntityError::IdAllocatorError),
        };
        if self.maps.family_of_entity(&entity).is_some() {
            proof {
                lemma_wf_frame(old_self, *self);
            }
            return Err(CreateEntityError::IdAllocatorError);
        }
        proof {
            reveal(EntityDatabase::families_wf);
            reveal(EntityDatabase::entities_wf);
            let uf = old_self.unit_family().raw();
            if old_self.tables_spec()[uf].rows().contains_key(entity.raw()) {
                assert(old_self.tables_spec().contains_key(uf) && old_self.tables_spec()[uf].rows().contains_key(entity.raw()));
            }
        }
        let unit_set = ComponentTypeSet::single(self.unit);
        let family = match self.maps.family_of_set(&unit_set) {
            Some(f) => f,
            None => return Err(CreateEntityError::DbError(DbError::FailedToFindFamilyForSet(unit_set.family_id()))),
        };
        proof {
            assert(family == old_self.unit_family());
        }
        let ghost mid = *self;
        self.maps.set_family_of_entity(&entity, family);
        let row = self.initialize_row_in(&entity, &family);
        proof {
            lemma_enter_unit_family(old_self, mid, *self, entity.raw());
        }
        match row {
            Ok(_) => Ok(entity),
            Err(e) => Err(CreateEntityError::DbError(e)),
        }
    }
}

/// An entity that was not live entering the family of the unit component alone
/// keeps the invariant, and gets no component value.
proof fn lemma_enter_unit_family<V>(old_db: EntityDatabase<V>, mid: EntityDatabase<V>, db: EntityDatabase<V>, e: u64)
    requires
        old_db.wf(),
        !old_db.entity_families().contains_key(e),
        mid.tables_spec() == old_db.tables_spec(),
        mid.columns_spec() == old_db.columns_spec(),
        mid.maps_spec() == old_db.maps_spec(),
        mid.unit_spec() == old_db.unit_spec(),
        db.unit_spec() == old_db.unit_spec(),
        db.columns_spec() == old_db.columns_spec(),
        db.maps_spec().entity_families() == old_db.entity_families().insert(e, old_db.unit_family()),
        db.maps_spec().family_components() == old_db.family_components(),
        db.maps_spec().transfer_graphs() == old_db.maps_spec().transfer_graphs(),
        db.maps_spec().containing_component() == old_db.maps_spec().containing_component(),
        db.maps_spec().containing_sets() == old_db.maps_spec().containing_sets(),
        db.tables_spec().dom() == old_db.tables_spec().dom(),
        forall|g: u64| #[trigger] old_db.tables_spec().contains_key(g) && g != old_db.unit_family().raw() ==>
            db.tables_spec()[g] == old_db.tables_spec()[g],
        same_layout(old_db.tables_spec()[old_db.unit_family().raw()], db.tables_spec()[old_db.unit_family().raw()]),
        db.tables_spec()[old_db.unit_family().raw()].rows()
            == old_db.tables_spec()[old_db.unit_family().raw()].rows().insert(e, old_db.tables_spec()[old_db.unit_family().raw()].next_free_row_spec()),
    ensures
        db.wf(),
        db.component_types(e) == Set::<u64>::empty().insert(old_db.unit_raw()),
        forall|x: u64, c: u64| #[trigger] db.component_value(x, c) == (if x == e { None::<V> } else { old_db.component_value(x, c) }),
{
    reveal(EntityDatabase::families_wf);
    reveal(EntityDatabase::keys_unique);
    reveal(EntityDatabase::layout_wf);
    reveal(EntityDatabase::entities_wf);
    reveal(EntityDatabase::edges_wf);
    reveal(EntityDatabase::indexes_wf);
    let u = old_db.unit_raw();
    let uf = old_db.unit_family().raw();
    let comps = old_db.family_components();
    assert(comps[uf].raw_set() =~= Set::<u64>::empty().insert(u)) by {
        assert forall|x: u64| comps[uf].raw_set().contains(x) == (x == u) by {
            if x == u {
                assert(comps[uf].raws()[0] == u);
            }
        }
    }
    assert(old_db.family_ok(uf));
    assert forall|c: u64| !#[trigger] db.tables_spec()[uf].columns_spec().contains_key(c) by {
        assert(!old_db.tables_spec()[uf].columns_spec().contains_key(c));
    }
    assert forall|g: u64| #[trigger] db.tables_spec().contains_key(g) implies db.family_ok(g) by {
        assert(old_db.family_ok(g));
    }
    assert(db.families_wf());
    assert(db.keys_unique()) by {
        assert forall|f1: u64, c1: u64, f2: u64, c2: u64|
            #![trigger key_raw(f1, c1), key_raw(f2, c2)]
            db.tables_spec().contains_key(f1) && db.tables_spec()[f1].columns_spec().contains_key(c1)
            && db.tables_spec().contains_key(f2) && db.tables_spec()[f2].columns_spec().contains_key(c2)
            && key_raw(f1, c1) == key_raw(f2, c2) implies f1 == f2 && c1 == c2 by {
            assert(old_db.tables_spec()[f1].columns_spec().contains_key(c1));
            assert(old_db.tables_spec()[f2].columns_spec().contains_key(c2));
        }
    }
    assert forall|g: u64, c: u64| #[trigger] db.tables_spec().contains_key(g) && #[trigger] db.tables_spec()[g].columns_spec().contains_key(c)
        implies db.layout_ok(g, c) by {
        assert(g != uf);
        assert(old_db.layout_ok(g, c));
    }
    assert(db.layout_wf());
    let ef = db.entity_families();
    assert forall|x: u64| #[trigger] ef.contains_key(x) implies db.tables_spec().contains_key(ef[x].raw())
        && db.tables_spec()[ef[x].raw()].rows().contains_key(x) by {
        if x != e {
            assert(old_db.entity_families().contains_key(x));
        }
    }
    assert forall|g: u64, x: u64| #[trigger] db.tables_spec().contains_key(g) && #[trigger] db.tables_spec()[g].rows().contains_key(x)
        implies ef.contains_key(x) && ef[x].raw() == g by {
        if x != e {
            assert(old_db.tables_spec()[g].rows().contains_key(x));
        }
    }
    assert(db.entities_wf());
    assert(db.edges_wf());
    lemma_same_indexes(old_db.maps_spec(), db.maps_spec());
    assert(db.maps_spec().sets_distinct());
    assert(db.indexes_wf());
    assert(db.component_types(e) == Set::<u64>::empty().insert(u));
    assert forall|x: u64, c: u64| #[trigger] db.component_value(x, c) == (if x == e { None::<V> } else { old_db.component_value(x, c) }) by {
        if x != e && ef.contains_key(x) {
            let g = ef[x].raw();
            if g == uf {
                assert(!db.tables_spec()[uf].columns_spec().contains_key(c));
                assert(!old_db.tables_spec()[uf].columns_spec().contains_key(c));
            }
        }
    }
}

/// The invariant depends only on the tables, the columns, the mappings and the
/// unit component type.
proof fn lemma_wf_frame<V>(a: EntityDatabase<V>, b: EntityDatabase<V>)
    requires
        a.wf(),
        a.tables_spec() == b.tables_spec(),
        a.columns_spec() == b.columns_spec(),
        a.maps_spec() == b.maps_spec(),
        a.unit_spec() == b.unit_spec(),
    ensures
        b.wf(),
{
    reveal(EntityDatabase::families_wf);
    reveal(EntityDatabase::keys_unique);
    reveal(EntityDatabase::layout_wf);
    reveal(EntityDatabase::entities_wf);
    reveal(EntityDatabase::edges_wf);
    reveal(EntityDatabase::indexes_wf);
    assert forall|f: u64| #[trigger] b.tables_spec().contains_key(f) implies b.family_ok(f) by {
        assert(a.family_ok(f));
    }
    assert(b.families_wf());
    assert forall|f: u64, c: u64| #[trigger] b.tables_spec().contains_key(f) && #[trigger] b.tables_spec()[f].columns_spec().contains_key(c)
        implies b.layout_ok(f, c) by {
        assert(a.layout_ok(f, c));
    }
    assert(b.layout_wf());
    assert(b.keys_unique());
    assert(b.entity_families() == a.entity_families());
    assert forall|e: u64| #[trigger] b.entity_families().contains_key(e) implies b.tables_spec().contains_key(b.entity_families()[e].raw())
        && b.tables_spec()[b.entity_families()[e].raw()].rows().contains_key(e) by {
        assert(a.entity_families().contains_key(e));
    }
    assert forall|f: u64, e: u64| #[trigger] b.tables_spec().contains_key(f) && #[trigger] b.tables_spec()[f].rows().contains_key(e)
        implies b.entity_families().contains_key(e) && b.entity_families()[e].raw() == f by {
        assert(a.tables_spec().contains_key(f) && a.tables_spec()[f].rows().contains_key(e));
    }
    assert(b.entities_wf());
    assert(b.edges_wf());
    assert(b.indexes_wf());
}

/// Mappings with the same families, components and indexes list the same
/// families under each set.
proof fn lemma_same_indexes(a: DbMaps, b: DbMaps)
    requires
        a.containing_sets() == b.containing_sets(),
    ensures
        forall|k: Seq<u64>| #[trigger] b.has_set(k) == a.has_set(k),
        forall|k: Seq<u64>| #[trigger] b.set_families(k) == a.set_families(k),
{
}

/// Recording the edges between a family and the family with one component
/// more keeps the invariant.
proof fn lemma_add_edges_wf<V>(mid: EntityDatabase<V>, db: EntityDatabase<V>, curr: FamilyId, c: u64, g: FamilyId)
    requires
        mid.wf(),
        mid.family_components().contains_key(curr.raw()),
        mid.family_components().contains_key(g.raw()),
        mid.family_components()[g.raw()].raw_set() == mid.family_components()[curr.raw()].raw_set().insert(c),
        !mid.family_components()[curr.raw()].raw_set().contains(c),
        db.tables_spec() == mid.tables_spec(),
        db.columns_spec() == mid.columns_spec(),
        db.unit_spec() == mid.unit_spec(),
        db.entity_families() == mid.entity_families(),
        db.family_components() == mid.family_components(),
        db.maps_spec().containing_component() == mid.maps_spec().containing_component(),
        db.maps_spec().containing_sets() == mid.maps_spec().containing_sets(),
        db.maps_spec().transfer_graphs().dom() == mid.maps_spec().transfer_graphs().dom(),
        forall|f: u64, k: u64| #[trigger] db.maps_spec().transfer_graphs().contains_key(f)
            && #[trigger] db.maps_spec().transfer_graphs()[f].contains_key(k) ==> {
                ||| (f == curr.raw() && k == c && db.maps_spec().transfer_graphs()[f][k] == TransferEdge::Add(g))
                ||| (f == g.raw() && k == c && db.maps_spec().transfer_graphs()[f][k] == TransferEdge::Remove(curr))
                ||| (mid.maps_spec().transfer_graphs()[f].contains_key(k)
                    && db.maps_spec().transfer_graphs()[f][k] == mid.maps_spec().transfer_graphs()[f][k])
            },
    ensures
        db.wf(),
        forall|x: u64, k: u64| #[trigger] db.component_value(x, k) == mid.component_value(x, k),
{
    reveal(EntityDatabase::families_wf);
    reveal(EntityDatabase::keys_unique);
    reveal(EntityDatabase::layout_wf);
    reveal(EntityDatabase::entities_wf);
    reveal(EntityDatabase::edges_wf);
    reveal(EntityDatabase::indexes_wf);
    assert(db.maps_spec().transfer_graphs().dom() =~= db.family_components().dom());
    assert forall|f: u64| #[trigger] db.tables_spec().contains_key(f) implies db.family_ok(f) by {
        assert(mid.family_ok(f));
    }
    assert(db.families_wf());
    assert forall|f: u64, k: u64| #[trigger] db.tables_spec().contains_key(f) && #[trigger] db.tables_spec()[f].columns_spec().contains_key(k)
        implies db.layout_ok(f, k) by {
        assert(mid.layout_ok(f, k));
    }
    assert(db.layout_wf());
    assert(db.keys_unique());
    assert forall|e: u64| #[trigger] db.entity_families().contains_key(e) implies db.tables_spec().contains_key(db.entity_families()[e].raw())
        && db.tables_spec()[db.entity_families()[e].raw()].rows().contains_key(e) by {
        assert(mid.entity_families().contains_key(e));
    }
    assert forall|f: u64, e: u64| #[trigger] db.tables_spec().contains_key(f) && #[trigger] db.tables_spec()[f].rows().contains_key(e)
        implies db.entity_families().contains_key(e) && db.entity_families()[e].raw() == f by {
        assert(mid.tables_spec().contains_key(f) && mid.tables_spec()[f].rows().contains_key(e));
    }
    assert(db.entities_wf());
    let comps = db.family_components();
    let graphs = db.maps_spec().transfer_graphs();
    assert forall|f: u64, k: u64| #[trigger] graphs.contains_key(f) && #[trigger] graphs[f].contains_key(k) implies
        match graphs[f][k] {
            TransferEdge::Add(h) => comps.contains_key(h.raw()) && comps.contains_key(f)
                && comps[h.raw()].raw_set() == comps[f].raw_set().insert(k),
            TransferEdge::Remove(h) => comps.contains_key(h.raw()) && comps.contains_key(f)
                && comps[h.raw()].raw_set().insert(k) == comps[f].raw_set(),
        } by {
        if f == curr.raw() && k == c && graphs[f][k] == TransferEdge::Add(g) {
        } else if f == g.raw() && k == c && graphs[f][k] == TransferEdge::Remove(curr) {
            assert(comps[curr.raw()].raw_set().insert(c) =~= comps[g.raw()].raw_set());
        } else {
            assert(mid.maps_spec().transfer_graphs().contains_key(f));
            assert(mid.maps_spec().transfer_graphs()[f].contains_key(k));
        }
    }
    assert(db.edges_wf());
    lemma_same_indexes(mid.maps_spec(), db.maps_spec());
    assert(db.indexes_wf());
}

/// Row `i` of `entities` holds the entity whose row in `rows` is `i`, for
/// every row.
pub open spec fn layout_of(rows: Map<u64, usize>, entities: Seq<EntityId>) -> bool {
    &&& entities.len() == rows.len()
    &&& forall|e: u64| #[trigger] rows.contains_key(e) ==> rows[e] < entities.len() && entities[rows[e] as int].raw() == e
    &&& forall|i: int| 0 <= i < entities.len() ==> rows.contains_key(#[trigger] entities[i].raw()) && rows[entities[i].raw()] == i
}

/// Removing a row by moving the last one in its place keeps the layout.
pub proof fn lemma_swap_remove_layout(rows: Map<u64, usize>, entities: Seq<EntityId>, e: u64)
    requires
        rows.dom().finite(),
        layout_of(rows, entities),
        rows.contains_key(e),
    ensures
        layout_of(rows_after_swap_remove(rows, e), swap_removed(entities, rows[e] as int)),
        rows_after_swap_remove(rows, e).dom().finite(),
{
    let i = rows[e] as int;
    let n = rows.len() as int;
    let r2 = rows_after_swap_remove(rows, e);
    let e2 = swap_removed(entities, i);
    assert(entities[i].raw() == e);
    if i + 1 < n {
        let last = entities[n - 1].raw();
        assert(rows.contains_key(last) && rows[last] == n - 1);
        let x = entity_at_row(rows, n - 1);
        assert(rows.contains_key(x) && rows[x] == n - 1);
        assert(entities[rows[x] as int].raw() == x);
        assert(x == last);
        assert(x != e);
        assert(r2 == rows.insert(x, i as usize).remove(e));
        assert(r2.dom() =~= rows.dom().remove(e));
        assert(r2.len() == n - 1);
        assert forall|y: u64| #[trigger] r2.contains_key(y) implies r2[y] < e2.len() && e2[r2[y] as int].raw() == y by {
            if y == x {
            } else {
                assert(rows.contains_key(y));
                assert(rows[y] != n - 1);
                assert(rows[y] != i) by {
                    if rows[y] == i {
                        assert(entities[i].raw() == y);
                    }
                }
            }
        }
        assert forall|j: int| 0 <= j < e2.len() implies r2.contains_key(#[trigger] e2[j].raw()) && r2[e2[j].raw()] == j by {
            if j == i {
                assert(e2[j] == entities[n - 1]);
            } else {
                assert(e2[j] == entities[j]);
                assert(entities[j].raw() != e) by {
                    if entities[j].raw() == e {
                        assert(rows[entities[j].raw()] == j);
                    }
                }
                assert(entities[j].raw() != x) by {
                    if entities[j].raw() == x {
                        assert(rows[entities[j].raw()] == j);
                    }
                }
            }
        }
    } else {
        assert(r2 == rows.remove(e));
        assert(r2.dom() =~= rows.dom().remove(e));
        assert(r2.len() == n - 1);
        assert forall|y: u64| #[trigger] r2.contains_key(y) implies r2[y] < e2.len() && e2[r2[y] as int].raw() == y by {
            assert(rows.contains_key(y));
            assert(rows[y] != i) by {
                if rows[y] == i {
                    assert(entities[i].raw() == y);
                }
            }
        }
        assert forall|j: int| 0 <= j < e2.len() implies r2.contains_key(#[trigger] e2[j].raw()) && r2[e2[j].raw()] == j by {
            assert(e2[j] == entities[j]);
            assert(entities[j].raw() != e) by {
                if entities[j].raw() == e {
                    assert(rows[entities[j].raw()] == j);
                }
            }
        }
    }
}

/// Giving a new entity the next row, at the end of the column, keeps the layout.
pub proof fn lemma_push_layout(rows: Map<u64, usize>, entities: Seq<EntityId>, e: EntityId)
    requires
        rows.dom().finite(),
        layout_of(rows, entities),
        !rows.contains_key(e.raw()),
        rows.len() <= usize::MAX,
    ensures
        layout_of(rows.insert(e.raw(), rows.len() as usize), entities.push(e)),
{
    let n = rows.len();
    let r2 = rows.insert(e.raw(), n as usize);
    let e2 = entities.push(e);
    assert(r2.dom() =~= rows.dom().insert(e.raw()));
    assert(r2.len() == n + 1);
    assert forall|y: u64| #[trigger] r2.contains_key(y) implies r2[y] < e2.len() && e2[r2[y] as int].raw() == y by {
        if y != e.raw() {
            assert(rows.contains_key(y));
        }
    }
    assert forall|j: int| 0 <= j < e2.len() implies r2.contains_key(#[trigger] e2[j].raw()) && r2[e2[j].raw()] == j by {
        if j < n {
            assert(e2[j] == entities[j]);
            assert(entities[j].raw() != e.raw());
        }
    }
}

/// The id of the entity with raw id `raw`.
pub open spec fn entity_of(raw: u64) -> EntityId {
    EntityId(crate::id::IdUnion { aligned: raw })
}

/// What moving row `index` of a column whose entities are `entities` to the
/// end of a column of `dest_len` rows reports.
pub open spec fn column_move_result(entities: Seq<EntityId>, index: int, dest_len: int) -> ColumnMoveResult {
    if index + 1 < entities.len() {
        ColumnMoveResult::SwapMoved {
            moved: entities[index],
            new_moved_index: dest_len as usize,
            swapped: entities.last(),
            new_swapped_index: index as usize,
        }
    } else {
        ColumnMoveResult::Moved { moved: entities[index], new_moved_index: dest_len as usize }
    }
}

impl<V> EntityDatabase<V> {
    /// Moves row `index` of the column keyed `from_key` to the end of the column
    /// keyed `dest_key`; the last row of the first column takes its place.
    fn move_column(&mut self, from_key: u64, dest_key: u64, index: usize) -> (r: Result<ColumnMoveResult, DbError>)
        requires
            from_key != dest_key,
            old(self).columns_spec().contains_key(from_key),
            old(self).columns_spec().contains_key(dest_key),
            index < old(self).columns_spec()[from_key].rows().len(),
        ensures
            final(self).tables_spec() == old(self).tables_spec(),
            final(self).maps_spec() == old(self).maps_spec(),
            final(self).headers_spec() == old(self).headers_spec(),
            final(self).allocator_spec() == old(self).allocator_spec(),
            final(self).unit_spec() == old(self).unit_spec(),
            final(self).columns_spec().dom() == old(self).columns_spec().dom(),
            forall|k: u64| k != from_key && k != dest_key && #[trigger] old(self).columns_spec().contains_key(k) ==>
                final(self).columns_spec()[k] == old(self).columns_spec()[k],
            final(self).columns_spec()[from_key].rows() == swap_removed(old(self).columns_spec()[from_key].rows(), index as int),
            final(self).columns_spec()[dest_key].rows()
                == old(self).columns_spec()[dest_key].rows().push(old(self).columns_spec()[from_key].rows()[index as int]),
            r == Ok::<ColumnMoveResult, DbError>(column_move_result(old(self).columns_spec()[from_key].entities(), index as int,
                old(self).columns_spec()[dest_key].rows().len() as int)),
    {
        let ghost old_cols = self.columns@;
        let mut from_col = match self.columns.remove(&from_key) {
            Some(c) => c,
            None => return Err(DbError::ColumnDoesntExistInTable),
        };
        let mut dest_col = match self.columns.remove(&dest_key) {
            Some(c) => c,
            None => return Err(DbError::ColumnDoesntExistInTable),
        };
        let ghost from_rows = from_col.rows();
        let result = from_col.move_component_to(&mut dest_col, index);
        proof {
            if from_rows.len() == 1 {
                assert(swap_removed(from_rows, index as int) =~= Seq::<(EntityId, V)>::empty());
            }
        }
        self.columns.insert(from_key, from_col);
        self.columns.insert(dest_key, dest_col);
        proof {
            assert(self.columns@.dom() =~= old_cols.dom());
        }
        result
    }
}

/// Key `k` is the key of the column, in family `f` or in family `g`, of one
/// of the first `n` types of `raws` other than `u`.
pub open spec fn touched_key(f: u64, g: u64, raws: Seq<u64>, n: int, u: u64, k: u64) -> bool {
    exists|t: int| 0 <= t < n && raws[t] != u && (k == #[trigger] key_raw(f, raws[t]) || k == key_raw(g, raws[t]))
}

/// A key touched among the first `n` types is touched among the first `n + 1`.
pub proof fn lemma_touched_grows(f: u64, g: u64, raws: Seq<u64>, n: int, u: u64, k: u64)
    requires
        touched_key(f, g, raws, n, u, k),
    ensures
        touched_key(f, g, raws, n + 1, u, k),
{
    let t = choose|t: int| 0 <= t < n && raws[t] != u && (k == #[trigger] key_raw(f, raws[t]) || k == key_raw(g, raws[t]));
    assert(0 <= t < n + 1 && raws[t] != u && (k == key_raw(f, raws[t]) || k == key_raw(g, raws[t])));
}

/// The entity whose row is `r`.
pub open spec fn entity_at_row(rows: Map<u64, usize>, r: int) -> u64 {
    choose|x: u64| rows.contains_key(x) && rows[x] == r
}

/// The rows of a table once entity `e`, at row `rows[e]`, leaves it and the
/// entity of the last row takes its place.
pub open spec fn rows_after_swap_remove(rows: Map<u64, usize>, e: u64) -> Map<u64, usize> {
    let i = rows[e];
    let n = rows.len();
    if i + 1 < n {
        rows.insert(entity_at_row(rows, n - 1), i).remove(e)
    } else {
        rows.remove(e)
    }
}

impl<V> EntityDatabase<V> {
    /// The family has at least one column.
    pub open spec fn has_columns(self, f: u64) -> bool {
        exists|c: u64| #[trigger] self.tables_spec()[f].columns_spec().contains_key(c)
    }

    /// What moving entity `e` out of family `f` into family `g` reports, for
    /// every column: `e` went to the end of the destination, and the entity of
    /// the last row of `f` took its row unless `e` had that row.
    pub open spec fn expected_move(self, e: u64, f: u64, g: u64) -> ColumnMoveResult {
        let rows = self.tables_spec()[f].rows();
        let i = rows[e];
        let n = rows.len();
        let n_dest = self.tables_spec()[g].rows().len();
        if i + 1 < n {
            ColumnMoveResult::SwapMoved {
                moved: entity_of(e),
                new_moved_index: n_dest as usize,
                swapped: entity_of(entity_at_row(rows, n - 1)),
                new_swapped_index: i,
            }
        } else {
            ColumnMoveResult::Moved { moved: entity_of(e), new_moved_index: n_dest as usize }
        }
    }

    /// Each column of `f` reports the same move of entity `e` into `g`.
    pub proof fn lemma_move_result(self, e: u64, f: u64, g: u64, c: u64)
        requires
            self.tables_spec().contains_key(f),
            self.tables_spec().contains_key(g),
            self.tables_spec()[f].columns_spec().contains_key(c),
            self.tables_spec()[g].columns_spec().contains_key(c),
            self.layout_ok(f, c),
            self.layout_ok(g, c),
            self.tables_spec()[f].rows().contains_key(e),
        ensures
            column_move_result(self.column_of(f, c).entities(), self.tables_spec()[f].rows()[e] as int,
                self.column_of(g, c).rows().len() as int) == self.expected_move(e, f, g),
            self.tables_spec()[f].rows()[e] < self.column_of(f, c).rows().len(),
    {
        let rows = self.tables_spec()[f].rows();
        let entities = self.column_of(f, c).entities();
        let i = rows[e];
        let n = rows.len();
        assert(entities[i as int].raw() == e);
        assert(entities[i as int] == entity_of(e));
        if i + 1 < n {
            let last = entities[n - 1].raw();
            assert(rows.contains_key(last) && rows[last] == n - 1);
            let x = entity_at_row(rows, n - 1);
            assert(rows.contains_key(x) && rows[x] == n - 1);
            assert(entities[rows[x] as int].raw() == x);
            assert(entities.last() == entity_of(x));
        }
    }

    /// Two registered columns have different keys unless they are the same column.
    pub proof fn lemma_keys_distinct(self, f1: u64, c1: u64, f2: u64, c2: u64)
        requires
            self.keys_unique(),
            self.tables_spec().contains_key(f1),
            self.tables_spec().contains_key(f2),
            self.tables_spec()[f1].columns_spec().contains_key(c1),
            self.tables_spec()[f2].columns_spec().contains_key(c2),
            f1 != f2 || c1 != c2,
        ensures
            key_raw(f1, c1) != key_raw(f2, c2),
    {
        reveal(EntityDatabase::keys_unique);
    }

    /// Moves row `from_index` of each column of family `from`, whose component
    /// types are `members`, to the end of the column of the same type in `dest`,
    /// and returns what the moves report.
    fn move_rows(&mut self, from: &FamilyId, dest: &FamilyId, members: &Vec<ComponentType>, from_index: usize, entity: Ghost<u64>)
        -> (r: Result<ColumnMoveResult, DbError>)
        requires
            old(self).wf(),
            from.raw() != dest.raw(),
            old(self).tables_spec().contains_key(from.raw()),
            old(self).tables_spec().contains_key(dest.raw()),
            old(self).tables_spec()[from.raw()].rows().contains_key(entity@),
            from_index == old(self).tables_spec()[from.raw()].rows()[entity@],
            crate::component::raws_of(members@) == old(self).tables_spec()[from.raw()].components_spec().raws(),
            forall|c: u64| #[trigger] old(self).tables_spec()[from.raw()].columns_spec().contains_key(c) ==>
                old(self).tables_spec()[dest.raw()].columns_spec().contains_key(c),
        ensures
            final(self).tables_spec() == old(self).tables_spec(),
            final(self).maps_spec() == old(self).maps_spec(),
            final(self).headers_spec() == old(self).headers_spec(),
            final(self).allocator_spec() == old(self).allocator_spec(),
            final(self).unit_spec() == old(self).unit_spec(),
            final(self).columns_spec().dom() == old(self).columns_spec().dom(),
            !old(self).has_columns(from.raw()) ==> r == Err::<ColumnMoveResult, DbError>(DbError::ColumnDoesntExistInTable)
                && final(self).columns_spec() == old(self).columns_spec(),
            old(self).has_columns(from.raw()) ==> r == Ok::<ColumnMoveResult, DbError>(old(self).expected_move(entity@, from.raw(), dest.raw())),
            forall|c: u64| #[trigger] old(self).tables_spec()[from.raw()].columns_spec().contains_key(c) ==> {
                &&& final(self).columns_spec()[key_raw(from.raw(), c)].rows()
                    == swap_removed(old(self).columns_spec()[key_raw(from.raw(), c)].rows(), from_index as int)
                &&& final(self).columns_spec()[key_raw(dest.raw(), c)].rows()
                    == old(self).columns_spec()[key_raw(dest.raw(), c)].rows().push(old(self).columns_spec()[key_raw(from.raw(), c)].rows()[from_index as int])
            },
            forall|k: u64| #[trigger] old(self).columns_spec().contains_key(k)
                && (forall|c: u64| #[trigger] old(self).tables_spec()[from.raw()].columns_spec().contains_key(c) ==> k != key_raw(from.raw(), c) && k != key_raw(dest.raw(), c))
                ==> final(self).columns_spec()[k] == old(self).columns_spec()[k],
    {
        proof {
            reveal(EntityDatabase::families_wf);
        }
        let ghost old_self = *self;
        let ghost f = from.raw();
        let ghost g = dest.raw();
        let ghost u = self.unit_raw();
        let ghost raws = crate::component::raws_of(members@);
        let ghost tf = old_self.tables_spec()[f];
        let ghost tg = old_self.tables_spec()[g];
        let ghost c0 = old_self.columns_spec();
        proof {
            assert(old_self.family_ok(f));
            assert(old_self.family_ok(g));
        }
        let mut result: Result<ColumnMoveResult, DbError> = Err(DbError::ColumnDoesntExistInTable);
        let mut j: usize = 0;
        while j < members.len()
            invariant
                j <= members@.len(),
                raws == crate::component::raws_of(members@),
                raws == tf.components_spec().raws(),
                old_self.wf(),
                old_self.family_ok(f),
                old_self.family_ok(g),
                f == from.raw(),
                g == dest.raw(),
                f != g,
                tf == old_self.tables_spec()[f],
                tg == old_self.tables_spec()[g],
                c0 == old_self.columns_spec(),
                from_index == tf.rows()[entity@],
                tf.rows().contains_key(entity@),
                old_self.tables_spec().contains_key(f),
                old_self.tables_spec().contains_key(g),
                u == old_self.unit_raw(),
                self.unit == old_self.unit,
                self.tables@ == old_self.tables_spec(),
                self.maps == old_self.maps_spec(),
                self.headers@ == old_self.headers_spec(),
                self.allocator == old_self.allocator_spec(),
                self.columns@.dom() == c0.dom(),
                forall|c: u64| #[trigger] tf.columns_spec().contains_key(c) ==> tg.columns_spec().contains_key(c),
                forall|t: int| 0 <= t < j && raws[t] != u ==> {
                    &&& self.columns@[#[trigger] key_raw(f, raws[t])].rows() == swap_removed(c0[key_raw(f, raws[t])].rows(), from_index as int)
                    &&& self.columns@[key_raw(g, raws[t])].rows() == c0[key_raw(g, raws[t])].rows().push(c0[key_raw(f, raws[t])].rows()[from_index as int])
                },
                forall|k: u64| #[trigger] c0.contains_key(k) && !touched_key(f, g, raws, j as int, u, k)
                    ==> self.columns@[k] == c0[k],
                (exists|t: int| 0 <= t < j && raws[t] != u) ==> result == Ok::<ColumnMoveResult, DbError>(old_self.expected_move(entity@, f, g)),
                !(exists|t: int| 0 <= t < j && raws[t] != u) ==> result == Err::<ColumnMoveResult, DbError>(DbError::ColumnDoesntExistInTable),
            decreases members@.len() - j,
        {
            let component = members[j];
            if component.0.0 != self.unit.0.0 {
                let ghost c = raws[j as int];
                proof {
                    assert(tf.components_spec().raw_set().contains(c));
                    assert(tf.columns_spec().contains_key(c));
                    assert(tg.columns_spec().contains_key(c));
                }
                let from_key = ColumnKey::new(*from, component.0.0).raw();
                let dest_key = ColumnKey::new(*dest, component.0.0).raw();
                proof {
                    reveal(EntityDatabase::layout_wf);
                    assert(component.0.0 == c);
                    assert(from_key == key_raw(f, c));
                    assert(dest_key == key_raw(g, c));
                    assert(old_self.layout_ok(f, c));
                    assert(old_self.layout_ok(g, c));
                    old_self.lemma_move_result(entity@, f, g, c);
                    assert(old_self.column_of(f, c) == c0[from_key]);
                    assert(old_self.column_of(g, c) == c0[dest_key]);
                    old_self.lemma_keys_distinct(f, c, g, c);
                    assert forall|t: int| 0 <= t < j && raws[t] != u implies
                        from_key != #[trigger] key_raw(f, raws[t]) && from_key != key_raw(g, raws[t])
                        && dest_key != key_raw(f, raws[t]) && dest_key != key_raw(g, raws[t]) by {
                        assert(raws[t] < raws[j as int]);
                        assert(tf.components_spec().raw_set().contains(raws[t]));
                        assert(tf.columns_spec().contains_key(raws[t]));
                        assert(tg.columns_spec().contains_key(raws[t]));
                        old_self.lemma_keys_distinct(f, c, f, raws[t]);
                        old_self.lemma_keys_distinct(f, c, g, raws[t]);
                        old_self.lemma_keys_distinct(g, c, f, raws[t]);
                        old_self.lemma_keys_distinct(g, c, g, raws[t]);
                    }
                    assert(self.columns@[from_key] == c0[from_key]);
                    assert(self.columns@[dest_key] == c0[dest_key]);
                }
                let ghost before = self.columns@;
                result = self.move_column(from_key, dest_key, from_index);
                proof {
                    assert(before[from_key] == c0[from_key]);
                    assert(self.columns@[from_key].rows() == swap_removed(c0[from_key].rows(), from_index as int));
                    assert(self.columns@[dest_key].rows() == c0[dest_key].rows().push(c0[from_key].rows()[from_index as int]));
                    assert(key_raw(f, raws[j as int]) == from_key);
                    assert(key_raw(g, raws[j as int]) == dest_key);
                    assert forall|k: u64| k != from_key && k != dest_key && #[trigger] before.contains_key(k) implies
                        self.columns@[k] == before[k] by {}
                    assert forall|t: int| 0 <= t < j + 1 && raws[t] != u implies {
                        &&& self.columns@[#[trigger] key_raw(f, raws[t])].rows() == swap_removed(c0[key_raw(f, raws[t])].rows(), from_index as int)
                        &&& self.columns@[key_raw(g, raws[t])].rows() == c0[key_raw(g, raws[t])].rows().push(c0[key_raw(f, raws[t])].rows()[from_index as int])
                    } by {
                        if t < j {
                            assert(tf.components_spec().raw_set().contains(raws[t]));
                            assert(tf.columns_spec().contains_key(raws[t]));
                            assert(tg.columns_spec().contains_key(raws[t]));
                            assert(c0.contains_key(key_raw(f, raws[t])));
                            assert(c0.contains_key(key_raw(g, raws[t])));
                            assert(key_raw(f, raws[t]) != from_key && key_raw(f, raws[t]) != dest_key);
                            assert(key_raw(g, raws[t]) != from_key && key_raw(g, raws[t]) != dest_key);
                            assert(self.columns@[key_raw(f, raws[t])] == before[key_raw(f, raws[t])]);
                            assert(self.columns@[key_raw(g, raws[t])] == before[key_raw(g, raws[t])]);
                        }
                    }
                    assert forall|k: u64| #[trigger] c0.contains_key(k) && !touched_key(f, g, raws, j + 1, u, k)
                        implies self.columns@[k] == c0[k] by {
                        if k == key_raw(f, raws[j as int]) || k == key_raw(g, raws[j as int]) {
                            assert(touched_key(f, g, raws, j + 1, u, k));
                        }
                        if touched_key(f, g, raws, j as int, u, k) {
                            lemma_touched_grows(f, g, raws, j as int, u, k);
                        }
                        assert(self.columns@[k] == before[k]);
                    }
                    assert(exists|t: int| 0 <= t < j + 1 && raws[t] != u) by {
                        assert(raws[j as int] != u);
                    }
                }
            } else {
                proof {
                    if exists|t: int| 0 <= t < j + 1 && raws[t] != u {
                        let t = choose|t: int| 0 <= t < j + 1 && raws[t] != u;
                        assert(t < j);
                    }
                    assert forall|k: u64| #[trigger] c0.contains_key(k) && !touched_key(f, g, raws, j + 1, u, k)
                        implies self.columns@[k] == c0[k] by {
                        if touched_key(f, g, raws, j as int, u, k) {
                            lemma_touched_grows(f, g, raws, j as int, u, k);
                        }
                    }
                }
            }
            j = j + 1;
        }
        proof {
            assert forall|c: u64| #[trigger] tf.columns_spec().contains_key(c) implies
                exists|t: int| 0 <= t < raws.len() && raws[t] == c && raws[t] != u by {
                assert(tf.components_spec().raw_set().contains(c));
                assert(raws.contains(c));
                let t = raws.index_of(c);
                assert(raws[t] == c);
            }
            assert forall|c: u64| #[trigger] tf.columns_spec().contains_key(c) implies {
                &&& self.columns_spec()[key_raw(f, c)].rows() == swap_removed(c0[key_raw(f, c)].rows(), from_index as int)
                &&& self.columns_spec()[key_raw(g, c)].rows() == c0[key_raw(g, c)].rows().push(c0[key_raw(f, c)].rows()[from_index as int])
            } by {
                let t = choose|t: int| 0 <= t < raws.len() && raws[t] == c && raws[t] != u;
                assert(self.columns@[key_raw(f, raws[t])].rows() == swap_removed(c0[key_raw(f, raws[t])].rows(), from_index as int));
            }
            assert forall|k: u64| #[trigger] c0.contains_key(k)
                && (forall|c: u64| #[trigger] tf.columns_spec().contains_key(c) ==> k != key_raw(f, c) && k != key_raw(g, c))
                implies self.columns_spec()[k] == c0[k] by {
                if touched_key(f, g, raws, j as int, u, k) {
                    let t = choose|t: int| 0 <= t < j && raws[t] != u && (k == #[trigger] key_raw(f, raws[t]) || k == key_raw(g, raws[t]));
                    assert(tf.components_spec().raw_set().contains(raws[t]));
                    assert(tf.columns_spec().contains_key(raws[t]));
                }
            }
            if old_self.has_columns(f) {
                let c = choose|c: u64| #[trigger] tf.columns_spec().contains_key(c);
                let t = choose|t: int| 0 <= t < raws.len() && raws[t] == c && raws[t] != u;
                assert(exists|t: int| 0 <= t < j && raws[t] != u);
            } else {
                if exists|t: int| 0 <= t < j && raws[t] != u {
                    let t = choose|t: int| 0 <= t < j && raws[t] != u;
                    assert(tf.components_spec().raw_set().contains(raws[t]));
                    assert(tf.columns_spec().contains_key(raws[t]));
                }
                assert(self.columns@ =~= c0);
            }
        }
        result
    }

    /// Moves the components of `entity` from the columns of family `from` to the
    /// ends of the columns of the same types in family `dest`, and records the
    /// moves in both tables and in the entity's mapping. When the entity did not
    /// have the last row of `from`, the entity that had it takes its place.
    ///
    /// Fails, changing nothing, when `from` or `dest` has no table, when the
    /// entity is not in `from`'s, when `from` has no columns, or when `from` and `dest` are the same
    /// family (its columns would be moved into themselves).
    fn move_components(&mut self, entity: &EntityId, from: &FamilyId, dest: &FamilyId) -> (r: Result<(), DbError>)
        requires
            old(self).wf(),
            old(self).tables_spec().contains_key(dest.raw()) ==>
                forall|c: u64| #[trigger] old(self).tables_spec()[from.raw()].columns_spec().contains_key(c) ==>
                    old(self).tables_spec()[dest.raw()].columns_spec().contains_key(c),
        ensures
            !old(self).tables_spec().contains_key(from.raw()) ==> {
                &&& r == Err::<(), DbError>(DbError::TableDoesntExistForFamily(*from))
                &&& *final(self) == *old(self)
            },
            old(self).tables_spec().contains_key(from.raw()) && !old(self).tables_spec().contains_key(dest.raw()) ==> {
                &&& r == Err::<(), DbError>(DbError::TableDoesntExistForFamily(*dest))
                &&& *final(self) == *old(self)
            },
            old(self).tables_spec().contains_key(dest.raw()) && old(self).tables_spec().contains_key(from.raw())
                && !old(self).tables_spec()[from.raw()].rows().contains_key(entity.raw()) ==> {
                &&& r == Err::<(), DbError>(DbError::EntityNotInTable(*entity, *from))
                &&& *final(self) == *old(self)
            },
            old(self).tables_spec().contains_key(dest.raw()) && old(self).tables_spec().contains_key(from.raw())
                && old(self).tables_spec()[from.raw()].rows().contains_key(entity.raw())
                && from.raw() == dest.raw() ==> {
                &&& r == (if old(self).has_columns(from.raw()) {
                        Err::<(), DbError>(DbError::MoveWithSameColumn)
                    } else {
                        Err::<(), DbError>(DbError::ColumnDoesntExistInTable)
                    })
                &&& *final(self) == *old(self)
            },
            final(self).unit_spec() == old(self).unit_spec(),
            final(self).headers_spec() == old(self).headers_spec(),
            final(self).allocator_spec() == old(self).allocator_spec(),
            final(self).family_components() == old(self).family_components(),
            final(self).maps_spec().transfer_graphs() == old(self).maps_spec().transfer_graphs(),
            final(self).maps_spec().containing_component() == old(self).maps_spec().containing_component(),
            final(self).maps_spec().containing_sets() == old(self).maps_spec().containing_sets(),
            old(self).tables_spec().contains_key(dest.raw()) && old(self).tables_spec().contains_key(from.raw())
                && old(self).tables_spec()[from.raw()].rows().contains_key(entity.raw())
                && from.raw() != dest.raw() && !old(self).has_columns(from.raw()) ==> {
                &&& r == Err::<(), DbError>(DbError::ColumnDoesntExistInTable)
                &&& final(self).tables_spec() == old(self).tables_spec()
                &&& final(self).columns_spec() == old(self).columns_spec()
                &&& final(self).maps_spec() == old(self).maps_spec()
            },
            old(self).tables_spec().contains_key(dest.raw()) && old(self).tables_spec().contains_key(from.raw())
                && old(self).tables_spec()[from.raw()].rows().contains_key(entity.raw())
                && from.raw() != dest.raw() && old(self).has_columns(from.raw()) ==> {
                let f = from.raw();
                let g = dest.raw();
                let e = entity.raw();
                let tf = old(self).tables_spec()[f];
                let tg = old(self).tables_spec()[g];
                &&& r == Ok::<(), DbError>(())
                &&& final(self).entity_families() == old(self).entity_families().insert(e, *dest)
                &&& final(self).tables_spec().dom() == old(self).tables_spec().dom()
                &&& forall|h: u64| #[trigger] old(self).tables_spec().contains_key(h) && h != f && h != g ==>
                    final(self).tables_spec()[h] == old(self).tables_spec()[h]
                &&& same_layout(tf, final(self).tables_spec()[f])
                &&& same_layout(tg, final(self).tables_spec()[g])
                &&& final(self).tables_spec()[f].free_rows() == tf.free_rows()
                &&& final(self).tables_spec()[g].free_rows() == tg.free_rows()
                &&& final(self).tables_spec()[f].rows() == rows_after_swap_remove(tf.rows(), e)
                &&& final(self).tables_spec()[g].rows() == tg.rows().insert(e, tg.rows().len() as usize)
                &&& final(self).columns_spec().dom() == old(self).columns_spec().dom()
                &&& forall|c: u64| #[trigger] tf.columns_spec().contains_key(c) ==> {
                    &&& final(self).columns_spec()[key_raw(f, c)].rows()
                        == swap_removed(old(self).columns_spec()[key_raw(f, c)].rows(), tf.rows()[e] as int)
                    &&& final(self).columns_spec()[key_raw(g, c)].rows()
                        == old(self).columns_spec()[key_raw(g, c)].rows().push(old(self).columns_spec()[key_raw(f, c)].rows()[tf.rows()[e] as int])
                }
                &&& forall|k: u64| #[trigger] old(self).columns_spec().contains_key(k)
                    && (forall|c: u64| #[trigger] tf.columns_spec().contains_key(c) ==> k != key_raw(f, c) && k != key_raw(g, c))
                    ==> final(self).columns_spec()[k] == old(self).columns_spec()[k]
            },
    {
        proof {
            reveal(EntityDatabase::entities_wf);
        }
        let ghost old_self = *self;
        if !self.tables.contains_key(&from.0.0) {
            return Err(DbError::TableDoesntExistForFamily(*from));
        }
        if !self.tables.contains_key(&dest.0.0) {
            return Err(DbError::TableDoesntExistForFamily(*dest));
        }
        let (from_index, members, columned) = match self.tables.get(&from.0.0) {
            Some(table) => {
                let index = match table.entity_index(entity) {
                    Some(i) => i,
                    None => return Err(DbError::EntityNotInTable(*entity, *from)),
                };
                let columned = table.column_map().len() != 0;
                proof {
                    let cols = old_self.tables_spec()[from.raw()].columns_spec();
                    assert(cols.dom().finite());
                    if columned {
                        if !old_self.has_columns(from.raw()) {
                            assert(cols.dom() =~= Set::<u64>::empty());
                        }
                    } else {
                        cols.dom().lemma_len0_is_empty();
                        if old_self.has_columns(from.raw()) {
                            let c = choose|c: u64| #[trigger] cols.contains_key(c);
                            assert(cols.dom().contains(c));
                        }
                    }
                }
                (index, table.components().to_vec(), columned)
            },
            None => return Err(DbError::TableDoesntExistForFamily(*from)),
        };
        if from.0.0 == dest.0.0 {
            if columned {
                return Err(DbError::MoveWithSameColumn);
            } else {
                return Err(DbError::ColumnDoesntExistInTable);
            }
        }
        let result = self.move_rows(from, dest, &members, from_index, Ghost(entity.raw()));
        let ghost moved_cols = self.columns@;
        match result {
            Ok(moved_result) => {
                let (moved, new_moved_index) = match moved_result {
                    ColumnMoveResult::SwapMoved { moved, new_moved_index, swapped, new_swapped_index: _ } => {
                        let mut table = match self.tables.remove(&from.0.0) {
                            Some(t) => t,
                            None => return Err(DbError::TableDoesntExistForFamily(*from)),
                        };
                        table.set_entity_index(&swapped, from_index);
                        table.forget_entity(&moved);
                        self.tables.insert(from.0.0, table);
                        (moved, new_moved_index)
                    },
                    ColumnMoveResult::Moved { moved, new_moved_index } => {
                        let mut table = match self.tables.remove(&from.0.0) {
                            Some(t) => t,
                            None => return Err(DbError::TableDoesntExistForFamily(*from)),
                        };
                        table.forget_entity(&moved);
                        self.tables.insert(from.0.0, table);
                        (moved, new_moved_index)
                    },
                    ColumnMoveResult::NoMove => {
                        return Ok(());
                    },
                };
                let mut table = match self.tables.remove(&dest.0.0) {
                    Some(t) => t,
                    None => return Err(DbError::TableDoesntExistForFamily(*dest)),
                };
                table.set_entity_index(&moved, new_moved_index);
                self.tables.insert(dest.0.0, table);
                self.maps.set_family_of_entity(&moved, *dest);
                proof {
                    let f = from.raw();
                    let g = dest.raw();
                    let rows = old_self.tables_spec()[f].rows();
                    let e = entity.raw();
                    assert(self.columns@ == moved_cols);
                    assert(self.tables@.dom() =~= old_self.tables_spec().dom());
                    assert(self.tables_spec()[f].rows() =~= rows_after_swap_remove(rows, e));
                    assert(self.tables_spec()[g].rows() =~= old_self.tables_spec()[g].rows().insert(e, old_self.tables_spec()[g].rows().len() as usize));
                }
                Ok(())
            },
            Err(e) => Err(e),
        }
    }
}

/// The entities of a column are the first halves of its rows.
pub proof fn lemma_column_entities<V>(col: ColumnInner<V>)
    ensures
        col.entities() == col.rows().map_values(|p: (EntityId, V)| p.0),
{
    assert(col.entities() =~= col.rows().map_values(|p: (EntityId, V)| p.0));
}

/// Taking the first halves commutes with removing by swap.
pub proof fn lemma_first_halves_swap<V>(rows: Seq<(EntityId, V)>, i: int)
    requires
        0 <= i < rows.len(),
    ensures
        swap_removed(rows, i).map_values(|p: (EntityId, V)| p.0) == swap_removed(rows.map_values(|p: (EntityId, V)| p.0), i),
{
    assert(swap_removed(rows, i).map_values(|p: (EntityId, V)| p.0) =~= swap_removed(rows.map_values(|p: (EntityId, V)| p.0), i));
}

/// Taking the first halves commutes with pushing.
pub proof fn lemma_first_halves_push<V>(rows: Seq<(EntityId, V)>, x: (EntityId, V))
    ensures
        rows.push(x).map_values(|p: (EntityId, V)| p.0) == rows.map_values(|p: (EntityId, V)| p.0).push(x.0),
{
    assert(rows.push(x).map_values(|p: (EntityId, V)| p.0) =~= rows.map_values(|p: (EntityId, V)| p.0).push(x.0));
}

/// Moving an entity, with its values, out of a family with columns into the
/// family with one component type more keeps the invariant, but for the column
/// of the new type, which misses the entity's row; and no value changes.
/// The effects of moving entity `e`, with its values, from family `f`, which
/// has columns, into family `g`, with one component type `c` more.
pub open spec fn moved_transfer<V>(o: EntityDatabase<V>, n: EntityDatabase<V>, e: u64, f: u64, g: FamilyId, c: u64) -> bool {
    &&& o.wf()
    &&& o.entity_families().contains_key(e)
    &&& o.entity_families()[e].raw() == f
    &&& f != g.raw()
    &&& o.tables_spec().contains_key(g.raw())
    &&& o.family_components()[g.raw()].raw_set() == o.family_components()[f].raw_set().insert(c)
    &&& !o.family_components()[f].raw_set().contains(c)
    &&& c != o.unit_raw()
    &&& o.has_columns(f)
    &&& n.unit_spec() == o.unit_spec()
    &&& n.family_components() == o.family_components()
    &&& n.maps_spec().transfer_graphs() == o.maps_spec().transfer_graphs()
    &&& n.maps_spec().containing_component() == o.maps_spec().containing_component()
    &&& n.maps_spec().containing_sets() == o.maps_spec().containing_sets()
    &&& n.entity_families() == o.entity_families().insert(e, g)
    &&& n.tables_spec().dom() == o.tables_spec().dom()
    &&& forall|h: u64| #[trigger] o.tables_spec().contains_key(h) && h != f && h != g.raw() ==>
            n.tables_spec()[h] == o.tables_spec()[h]
    &&& same_layout(o.tables_spec()[f], n.tables_spec()[f])
    &&& same_layout(o.tables_spec()[g.raw()], n.tables_spec()[g.raw()])
    &&& n.tables_spec()[f].free_rows() == o.tables_spec()[f].free_rows()
    &&& n.tables_spec()[g.raw()].free_rows() == o.tables_spec()[g.raw()].free_rows()
    &&& n.tables_spec()[f].rows() == rows_after_swap_remove(o.tables_spec()[f].rows(), e)
    &&& n.tables_spec()[g.raw()].rows() == o.tables_spec()[g.raw()].rows().insert(e, o.tables_spec()[g.raw()].rows().len() as usize)
    &&& n.columns_spec().dom() == o.columns_spec().dom()
    &&& forall|k: u64| #[trigger] o.tables_spec()[f].columns_spec().contains_key(k) ==> {
            &&& n.columns_spec()[key_raw(f, k)].rows()
                == swap_removed(o.columns_spec()[key_raw(f, k)].rows(), o.tables_spec()[f].rows()[e] as int)
            &&& n.columns_spec()[key_raw(g.raw(), k)].rows()
                == o.columns_spec()[key_raw(g.raw(), k)].rows().push(o.columns_spec()[key_raw(f, k)].rows()[o.tables_spec()[f].rows()[e] as int])
        }
    &&& forall|k: u64| #[trigger] o.columns_spec().contains_key(k)
            && (forall|j: u64| #[trigger] o.tables_spec()[f].columns_spec().contains_key(j) ==> k != key_raw(f, j) && k != key_raw(g.raw(), j))
            ==> n.columns_spec()[k] == o.columns_spec()[k]
}

proof fn lemma_transfer_moved<V>(o: EntityDatabase<V>, n: EntityDatabase<V>, e: u64, f: u64, g: FamilyId, c: u64)
    requires
        moved_transfer(o, n, e, f, g, c),
    ensures
        n.pending_wf(g.raw(), c, e),
        forall|x: u64, k: u64| #[trigger] n.component_value(x, k) == o.component_value(x, k),
{
    reveal(EntityDatabase::families_wf);
    reveal(EntityDatabase::keys_unique);
    reveal(EntityDatabase::layout_wf);
    reveal(EntityDatabase::entities_wf);
    reveal(EntityDatabase::edges_wf);
    reveal(EntityDatabase::indexes_wf);
    reveal(EntityDatabase::layout_wf_except);
    let gr = g.raw();
    let tf = o.tables_spec()[f];
    let tg = o.tables_spec()[gr];
    let i = tf.rows()[e];
    let u = o.unit_raw();
    assert(o.tables_spec().contains_key(f));
    assert(tf.rows().contains_key(e));
    assert(o.family_ok(f));
    assert(o.family_ok(gr));
    tf.lemma_rows_finite();
    tg.lemma_rows_finite();
    assert(!tg.rows().contains_key(e)) by {
        if tg.rows().contains_key(e) {
            assert(o.tables_spec().contains_key(gr) && o.tables_spec()[gr].rows().contains_key(e));
        }
    }
    assert forall|k: u64| #[trigger] tg.columns_spec().contains_key(k) == (tf.columns_spec().contains_key(k) || k == c) by {
        assert(o.family_components()[gr].raw_set().contains(k) == (o.family_components()[f].raw_set().contains(k) || k == c));
    }
    // a column that no move touched is unchanged
    assert forall|h: u64, k: u64| #[trigger] o.tables_spec().contains_key(h) && #[trigger] o.tables_spec()[h].columns_spec().contains_key(k)
        && (h != f && h != gr || (h == gr && k == c)) implies n.columns_spec()[key_raw(h, k)] == o.columns_spec()[key_raw(h, k)] by {
        assert(o.family_ok(h));
        assert forall|j: u64| #[trigger] tf.columns_spec().contains_key(j) implies key_raw(h, k) != key_raw(f, j) && key_raw(h, k) != key_raw(gr, j) by {
            o.lemma_keys_distinct(h, k, f, j);
            o.lemma_keys_distinct(h, k, gr, j);
        }
    }
    // families
    assert forall|h: u64| #[trigger] n.tables_spec().contains_key(h) implies n.family_ok(h) by {
        assert(o.family_ok(h));
    }
    assert(n.families_wf());
    assert forall|h: u64| #[trigger] n.tables_spec().contains_key(h) implies n.tables_spec()[h].columns_spec() == o.tables_spec()[h].columns_spec() by {}
    assert(n.keys_unique());
    // layout
    assert forall|h: u64, k: u64| #[trigger] n.tables_spec().contains_key(h) && #[trigger] n.tables_spec()[h].columns_spec().contains_key(k)
        && !(h == gr && k == c) implies n.layout_ok(h, k) by {
        assert(o.tables_spec()[h].columns_spec().contains_key(k));
        assert(o.layout_ok(h, k));
        if h == f {
            let oc = o.columns_spec()[key_raw(f, k)];
            let nc = n.columns_spec()[key_raw(f, k)];
            assert(o.column_of(f, k) == oc);
            assert(n.column_of(f, k) == nc);
            lemma_column_entities(oc);
            lemma_column_entities(nc);
            assert(i < oc.rows().len());
            lemma_first_halves_swap(oc.rows(), i as int);
            lemma_swap_remove_layout(tf.rows(), oc.entities(), e);
        } else if h == gr {
            assert(tf.columns_spec().contains_key(k));
            let ofc = o.columns_spec()[key_raw(f, k)];
            let ogc = o.columns_spec()[key_raw(gr, k)];
            let ngc = n.columns_spec()[key_raw(gr, k)];
            assert(o.column_of(gr, k) == ogc);
            assert(n.column_of(gr, k) == ngc);
            assert(o.layout_ok(f, k));
            assert(o.column_of(f, k) == ofc);
            lemma_column_entities(ofc);
            lemma_column_entities(ogc);
            lemma_column_entities(ngc);
            lemma_first_halves_push(ogc.rows(), ofc.rows()[i as int]);
            assert(ofc.entities()[i as int].raw() == e);
            lemma_push_layout(tg.rows(), ogc.entities(), ofc.entities()[i as int]);
        } else {
            assert(n.column_of(h, k) == o.column_of(h, k));
        }
    }
    // the new type's column of the destination misses the entity's row
    assert(tg.columns_spec().contains_key(c));
    assert(n.column_of(gr, c) == o.column_of(gr, c));
    assert(tg.columns_spec().contains_key(c));
    assert(o.layout_ok(gr, c));
    assert(n.tables_spec()[gr].rows().remove(e) =~= tg.rows());
    assert(n.layout_pending(gr, c, e));
    assert(n.layout_wf_except(gr, c, e));
    // entities
    let ef = n.entity_families();
    assert forall|x: u64| #[trigger] ef.contains_key(x) implies n.tables_spec().contains_key(ef[x].raw())
        && n.tables_spec()[ef[x].raw()].rows().contains_key(x) by {
        if x != e {
            assert(o.entity_families().contains_key(x));
            let h = o.entity_families()[x].raw();
            assert(o.tables_spec()[h].rows().contains_key(x));
            if h == f {
                if i + 1 < tf.rows().len() {
                    assert(n.tables_spec()[f].rows() == tf.rows().insert(entity_at_row(tf.rows(), tf.rows().len() - 1), i).remove(e));
                } else {
                    assert(n.tables_spec()[f].rows() == tf.rows().remove(e));
                }
            }
        }
    }
    assert forall|h: u64, x: u64| #[trigger] n.tables_spec().contains_key(h) && #[trigger] n.tables_spec()[h].rows().contains_key(x)
        implies ef.contains_key(x) && ef[x].raw() == h by {
        if h == f {
            assert(x != e);
            if i + 1 < tf.rows().len() {
                let last = entity_at_row(tf.rows(), tf.rows().len() - 1);
                assert(n.tables_spec()[f].rows() == tf.rows().insert(last, i).remove(e));
                if x == last {
                    assert(tf.rows().contains_key(last) && tf.rows()[last] == tf.rows().len() - 1) by {
                        let col_type = choose|k: u64| #[trigger] tf.columns_spec().contains_key(k);
                        assert(o.layout_ok(f, col_type));
                        let ents = o.column_of(f, col_type).entities();
                        assert(tf.rows().contains_key(ents[tf.rows().len() - 1].raw()));
                    }
                }
                assert(tf.rows().contains_key(x));
            } else {
                assert(tf.rows().contains_key(x));
            }
            assert(o.tables_spec()[f].rows().contains_key(x));
        } else if h == gr {
            if x != e {
                assert(o.tables_spec()[gr].rows().contains_key(x));
            }
        } else {
            assert(o.tables_spec()[h].rows().contains_key(x));
        }
    }
    assert(n.entities_wf());
    assert(n.edges_wf());
    lemma_same_indexes(o.maps_spec(), n.maps_spec());
    assert(n.indexes_wf());
    lemma_transfer_moved_values(o, n, e, f, g, c);
}

/// Moving an entity, with its values, into the family with one component type
/// more changes no component value.
proof fn lemma_transfer_moved_values<V>(o: EntityDatabase<V>, n: EntityDatabase<V>, e: u64, f: u64, g: FamilyId, c: u64)
    requires
        moved_transfer(o, n, e, f, g, c),
    ensures
        forall|x: u64, k: u64| #[trigger] n.component_value(x, k) == o.component_value(x, k),
{
    assert forall|x: u64, k: u64| #[trigger] n.component_value(x, k) == o.component_value(x, k) by {
        lemma_transfer_moved_value(o, n, e, f, g, c, x, k);
    }
}

/// Moving an entity, with its values, into the family with one component type
/// more leaves the value of component type `k` of entity `x` as it was.
proof fn lemma_transfer_moved_value<V>(o: EntityDatabase<V>, n: EntityDatabase<V>, e: u64, f: u64, g: FamilyId, c: u64, x: u64, k: u64)
    requires
        moved_transfer(o, n, e, f, g, c),
    ensures
        n.component_value(x, k) == o.component_value(x, k),
{
    reveal(EntityDatabase::families_wf);
    reveal(EntityDatabase::keys_unique);
    reveal(EntityDatabase::layout_wf);
    reveal(EntityDatabase::entities_wf);
    let gr = g.raw();
    let tf = o.tables_spec()[f];
    let tg = o.tables_spec()[gr];
    let i = tf.rows()[e];
    let nf = tf.rows().len();
    assert(o.tables_spec().contains_key(f));
    assert(tf.rows().contains_key(e));
    assert(o.family_ok(f));
    assert(o.family_ok(gr));
    tg.lemma_rows_finite();
    assert forall|j: u64| #[trigger] tg.columns_spec().contains_key(j) == (tf.columns_spec().contains_key(j) || j == c) by {
        assert(o.family_components()[gr].raw_set().contains(j) == (o.family_components()[f].raw_set().contains(j) || j == c));
    }
    if x == e {
        if tf.columns_spec().contains_key(k) {
            assert(tg.columns_spec().contains_key(k));
            let ofc = o.columns_spec()[key_raw(f, k)];
            let ogc = o.columns_spec()[key_raw(gr, k)];
            assert(o.layout_ok(gr, k));
            assert(o.column_of(gr, k) == ogc);
            assert(ogc.entities().len() == tg.rows().len());
            assert(o.layout_ok(f, k));
            assert(o.column_of(f, k) == ofc);
            assert(n.column_key_of(gr, k) == key_raw(gr, k));
            assert(o.column_key_of(f, k) == key_raw(f, k));
            assert(n.tables_spec()[gr].rows()[e] == tg.rows().len());
            assert(n.columns_spec()[key_raw(gr, k)].rows() == ogc.rows().push(ofc.rows()[i as int]));
            assert(n.component_value(x, k) == Some(ofc.rows()[i as int].1));
        } else if k == c {
            assert(tg.columns_spec().contains_key(c));
            assert(o.columns_spec().contains_key(key_raw(gr, c)));
            assert(n.column_key_of(gr, c) == key_raw(gr, c));
            assert(o.layout_ok(gr, c));
            assert(n.column_of(gr, c) == o.column_of(gr, c)) by {
                assert forall|j: u64| #[trigger] tf.columns_spec().contains_key(j) implies
                    key_raw(gr, c) != key_raw(f, j) && key_raw(gr, c) != key_raw(gr, j) by {
                    o.lemma_keys_distinct(gr, c, f, j);
                    o.lemma_keys_distinct(gr, c, gr, j);
                }
            }
            assert(o.column_of(gr, c).entities().len() == tg.rows().len());
            assert(n.tables_spec()[gr].rows()[e] == tg.rows().len());
            assert(n.component_value(x, k) is None);
        } else {
            assert(!n.tables_spec()[gr].columns_spec().contains_key(k));
        }
    } else if o.entity_families().contains_key(x) {
        let h = o.entity_families()[x].raw();
        assert(o.tables_spec()[h].rows().contains_key(x));
        if h == f {
            if tf.columns_spec().contains_key(k) {
                let ofc = o.columns_spec()[key_raw(f, k)];
                let nfc = n.columns_spec()[key_raw(f, k)];
                assert(o.layout_ok(f, k));
                assert(o.column_of(f, k) == ofc);
                assert(n.column_key_of(f, k) == key_raw(f, k));
                assert(o.column_key_of(f, k) == key_raw(f, k));
                assert(nfc.rows() == swap_removed(ofc.rows(), i as int));
                let r = tf.rows()[x];
                assert(r != i) by {
                    assert(ofc.entities()[r as int].raw() == x);
                    assert(ofc.entities()[i as int].raw() == e);
                }
                if i + 1 < nf {
                    let last = entity_at_row(tf.rows(), nf - 1);
                    assert(tf.rows().contains_key(ofc.entities()[nf - 1].raw()));
                    assert(tf.rows().contains_key(last) && tf.rows()[last] == nf - 1);
                    assert(ofc.entities()[tf.rows()[last] as int].raw() == last);
                    if x == last {
                        assert(n.tables_spec()[f].rows()[x] == i);
                        assert(nfc.rows()[i as int] == ofc.rows()[nf - 1]);
                    } else {
                        assert(r != nf - 1) by {
                            if r == nf - 1 {
                                assert(ofc.entities()[r as int].raw() == x);
                            }
                        }
                        assert(n.tables_spec()[f].rows()[x] == r);
                        assert(nfc.rows()[r as int] == ofc.rows()[r as int]);
                    }
                } else {
                    assert(n.tables_spec()[f].rows()[x] == r);
                    assert(r < nf - 1);
                    assert(nfc.rows()[r as int] == ofc.rows()[r as int]);
                }
            }
        } else if h == gr {
            assert(n.tables_spec()[gr].rows()[x] == tg.rows()[x]);
            if tf.columns_spec().contains_key(k) {
                assert(tg.columns_spec().contains_key(k));
                let ogc = o.columns_spec()[key_raw(gr, k)];
                assert(o.layout_ok(gr, k));
                assert(o.column_of(gr, k) == ogc);
                assert(n.column_key_of(gr, k) == key_raw(gr, k));
                assert(o.column_key_of(gr, k) == key_raw(gr, k));
            } else if k == c {
                assert(tg.columns_spec().contains_key(c));
                assert(o.columns_spec().contains_key(key_raw(gr, c)));
                assert(n.column_key_of(gr, c) == key_raw(gr, c));
                assert(n.column_of(gr, c) == o.column_of(gr, c)) by {
                    assert forall|j: u64| #[trigger] tf.columns_spec().contains_key(j) implies
                        key_raw(gr, c) != key_raw(f, j) && key_raw(gr, c) != key_raw(gr, j) by {
                        o.lemma_keys_distinct(gr, c, f, j);
                        o.lemma_keys_distinct(gr, c, gr, j);
                    }
                }
            }
        } else {
            assert(n.tables_spec()[h] == o.tables_spec()[h]);
            if o.tables_spec()[h].columns_spec().contains_key(k) {
                assert(o.family_ok(h));
                assert(o.columns_spec().contains_key(key_raw(h, k)));
                assert(n.column_of(h, k) == o.column_of(h, k)) by {
                    assert forall|j: u64| #[trigger] tf.columns_spec().contains_key(j) implies
                        key_raw(h, k) != key_raw(f, j) && key_raw(h, k) != key_raw(gr, j) by {
                        o.lemma_keys_distinct(h, k, f, j);
                        o.lemma_keys_distinct(h, k, gr, j);
                    }
                }
            }
        }
    }
}

/// The effects of moving entity `e` from family `f`, which has no columns, into
/// family `g`, with one component type `c` more: `e` gives up its row in `f`
/// and takes the next row of `g`.
pub open spec fn unmoved_transfer<V>(o: EntityDatabase<V>, n: EntityDatabase<V>, e: u64, f: u64, g: FamilyId, c: u64) -> bool {
    let tf = o.tables_spec()[f];
    let tg = o.tables_spec()[g.raw()];
    &&& o.wf()
    &&& o.entity_families().contains_key(e)
    &&& o.entity_families()[e].raw() == f
    &&& f != g.raw()
    &&& o.tables_spec().contains_key(g.raw())
    &&& o.family_components()[g.raw()].raw_set() == o.family_components()[f].raw_set().insert(c)
    &&& !o.family_components()[f].raw_set().contains(c)
    &&& c != o.unit_raw()
    &&& !o.has_columns(f)
    &&& n.unit_spec() == o.unit_spec()
    &&& n.family_components() == o.family_components()
    &&& n.maps_spec().transfer_graphs() == o.maps_spec().transfer_graphs()
    &&& n.maps_spec().containing_component() == o.maps_spec().containing_component()
    &&& n.maps_spec().containing_sets() == o.maps_spec().containing_sets()
    &&& n.entity_families() == o.entity_families().insert(e, g)
    &&& n.tables_spec().dom() == o.tables_spec().dom()
    &&& forall|h: u64| #[trigger] o.tables_spec().contains_key(h) && h != f && h != g.raw() ==>
        n.tables_spec()[h] == o.tables_spec()[h]
    &&& same_layout(tf, n.tables_spec()[f])
    &&& same_layout(tg, n.tables_spec()[g.raw()])
    &&& n.tables_spec()[f].rows() == tf.rows().remove(e)
    &&& n.tables_spec()[f].free_rows() == tf.free_rows().push(tf.rows()[e])
    &&& n.tables_spec()[g.raw()].rows() == tg.rows().insert(e, tg.next_free_row_spec())
    &&& n.tables_spec()[g.raw()].free_rows() == (if tg.free_rows().len() > 0 { tg.free_rows().drop_last() } else { tg.free_rows() })
    &&& n.columns_spec() == o.columns_spec()
}

/// Moving an entity out of a family without columns into the family with one
/// component type more keeps the invariant, but for the column of the new type,
/// which misses the entity's row; and no value changes.
proof fn lemma_transfer_unmoved<V>(o: EntityDatabase<V>, n: EntityDatabase<V>, e: u64, f: u64, g: FamilyId, c: u64)
    requires
        unmoved_transfer(o, n, e, f, g, c),
    ensures
        n.pending_wf(g.raw(), c, e),
        forall|x: u64, k: u64| #[trigger] n.component_value(x, k) == o.component_value(x, k),
{
    reveal(EntityDatabase::families_wf);
    reveal(EntityDatabase::keys_unique);
    reveal(EntityDatabase::layout_wf);
    reveal(EntityDatabase::entities_wf);
    reveal(EntityDatabase::edges_wf);
    reveal(EntityDatabase::indexes_wf);
    reveal(EntityDatabase::layout_wf_except);
    let gr = g.raw();
    let tf = o.tables_spec()[f];
    let tg = o.tables_spec()[gr];
    let u = o.unit_raw();
    assert(o.tables_spec().contains_key(f));
    assert(tf.rows().contains_key(e));
    assert(o.family_ok(f));
    assert(o.family_ok(gr));
    tg.lemma_rows_finite();
    assert(!tg.rows().contains_key(e)) by {
        if tg.rows().contains_key(e) {
            assert(o.tables_spec().contains_key(gr) && o.tables_spec()[gr].rows().contains_key(e));
        }
    }
    // the source family holds only the unit type, the destination has the one column of `c`
    assert(o.family_components()[f].raw_set() =~= Set::<u64>::empty().insert(u)) by {
        assert forall|k: u64| o.family_components()[f].raw_set().contains(k) implies k == u by {
            if k != u {
                assert(tf.columns_spec().contains_key(k));
            }
        }
    }
    assert forall|k: u64| #[trigger] tg.columns_spec().contains_key(k) == (k == c) by {
        assert(o.family_components()[gr].raw_set().contains(k) == (o.family_components()[f].raw_set().contains(k) || k == c));
    }
    assert(tg.free_rows().len() == 0) by {
        assert(o.family_components()[gr].raw_set().contains(c));
        assert(o.family_components()[gr].raw_set() != Set::<u64>::empty().insert(u));
    }
    assert(tg.next_free_row_spec() == tg.rows().len());
    // families
    assert forall|h: u64| #[trigger] n.tables_spec().contains_key(h) implies n.family_ok(h) by {
        assert(o.family_ok(h));
    }
    assert(n.families_wf());
    assert forall|h: u64| #[trigger] n.tables_spec().contains_key(h) implies n.tables_spec()[h].columns_spec() == o.tables_spec()[h].columns_spec() by {}
    assert(n.keys_unique());
    // layout
    assert forall|h: u64, k: u64| #[trigger] n.tables_spec().contains_key(h) && #[trigger] n.tables_spec()[h].columns_spec().contains_key(k)
        && !(h == gr && k == c) implies n.layout_ok(h, k) by {
        assert(o.tables_spec()[h].columns_spec().contains_key(k));
        assert(h != f && h != gr);
        assert(o.layout_ok(h, k));
    }
    assert(tg.columns_spec().contains_key(c));
    assert(o.layout_ok(gr, c));
    assert(n.tables_spec()[gr].rows().remove(e) =~= tg.rows());
    assert(n.layout_pending(gr, c, e));
    assert(n.layout_wf_except(gr, c, e));
    // entities
    let ef = n.entity_families();
    assert forall|x: u64| #[trigger] ef.contains_key(x) implies n.tables_spec().contains_key(ef[x].raw())
        && n.tables_spec()[ef[x].raw()].rows().contains_key(x) by {
        if x != e {
            assert(o.entity_families().contains_key(x));
        }
    }
    assert forall|h: u64, x: u64| #[trigger] n.tables_spec().contains_key(h) && #[trigger] n.tables_spec()[h].rows().contains_key(x)
        implies ef.contains_key(x) && ef[x].raw() == h by {
        if !(h == gr && x == e) {
            assert(o.tables_spec()[h].rows().contains_key(x));
        }
    }
    assert(n.entities_wf());
    assert(n.edges_wf());
    lemma_same_indexes(o.maps_spec(), n.maps_spec());
    assert(n.indexes_wf());
    // values
    assert forall|x: u64, k: u64| #[trigger] n.component_value(x, k) == o.component_value(x, k) by {
        if x == e {
            if k == c {
                assert(o.column_of(gr, c).entities().len() == tg.rows().len());
                assert(n.column_of(gr, c) == o.column_of(gr, c));
            }
        } else if o.entity_families().contains_key(x) {
            let h = o.entity_families()[x].raw();
            if h == gr {
                assert(n.tables_spec()[gr].rows()[x] == tg.rows()[x]);
            }
        }
    }
}

impl<V> EntityDatabase<V> {
    /// Takes `entity` out of the table of `family`, giving its row up.
    fn remove_entity_from(&mut self, entity: &EntityId, family: &FamilyId) -> (r: Result<(), DbError>)
        ensures
            final(self).columns_spec() == old(self).columns_spec(),
            final(self).maps_spec() == old(self).maps_spec(),
            final(self).headers_spec() == old(self).headers_spec(),
            final(self).allocator_spec() == old(self).allocator_spec(),
            final(self).unit_spec() == old(self).unit_spec(),
            final(self).tables_spec().dom() == old(self).tables_spec().dom(),
            forall|g: u64| #[trigger] old(self).tables_spec().contains_key(g) && g != family.raw() ==>
                final(self).tables_spec()[g] == old(self).tables_spec()[g],
            !old(self).tables_spec().contains_key(family.raw()) ==>
                r == Err::<(), DbError>(DbError::TableDoesntExistForFamily(*family)),
            old(self).tables_spec().contains_key(family.raw()) ==> {
                let t = old(self).tables_spec()[family.raw()];
                let t2 = final(self).tables_spec()[family.raw()];
                &&& same_layout(t, t2)
                &&& t.rows().contains_key(entity.raw()) ==> {
                    &&& r == Ok::<(), DbError>(())
                    &&& t2.rows() == t.rows().remove(entity.raw())
                    &&& t2.free_rows() == t.free_rows().push(t.rows()[entity.raw()])
                }
                &&& !t.rows().contains_key(entity.raw()) ==> {
                    &&& r == Err::<(), DbError>(DbError::EntityNotInTable(*entity, t.family_spec()))
                    &&& t2.rows() == t.rows()
                    &&& t2.free_rows() == t.free_rows()
                }
            },
    {
        match self.tables.remove(&family.0.0) {
            Some(mut table) => {
                let removed = table.remove_entity(entity);
                self.tables.insert(family.0.0, table);
                match removed {
                    Ok(_) => Ok(()),
                    Err(e) => Err(e),
                }
            },
            None => Err(DbError::TableDoesntExistForFamily(*family)),
        }
    }

    /// Transfers `entity` out of its family into `dest`, the family with one
    /// component type more, taking its component values along; the new type's
    /// column then misses the entity's row, for the caller to fill.
    fn resolve_entity_transfer(&mut self, entity: &EntityId, dest: &FamilyId, component: Ghost<u64>) -> (r: Result<(), DbError>)
        requires
            old(self).wf(),
            old(self).entity_families().contains_key(entity.raw()),
            old(self).entity_families()[entity.raw()].raw() != dest.raw(),
            old(self).tables_spec().contains_key(dest.raw()),
            old(self).family_components()[dest.raw()].raw_set()
                == old(self).family_components()[old(self).entity_families()[entity.raw()].raw()].raw_set().insert(component@),
            !old(self).family_components()[old(self).entity_families()[entity.raw()].raw()].raw_set().contains(component@),
            component@ != old(self).unit_raw(),
        ensures
            r is Ok,
            final(self).pending_wf(dest.raw(), component@, entity.raw()),
            final(self).entity_families() == old(self).entity_families().insert(entity.raw(), *dest),
            forall|x: u64, k: u64| #[trigger] final(self).component_value(x, k) == old(self).component_value(x, k),
            final(self).unit_spec() == old(self).unit_spec(),
            final(self).headers_spec() == old(self).headers_spec(),
            final(self).allocator_spec() == old(self).allocator_spec(),
            final(self).family_components() == old(self).family_components(),
            final(self).maps_spec().transfer_graphs() == old(self).maps_spec().transfer_graphs(),
    {
        let ghost old_self = *self;
        let from = match self.maps.family_of_entity(entity) {
            Some(f) => f,
            None => return Err(DbError::EntityDoesntExist(*entity)),
        };
        proof {
            reveal(EntityDatabase::families_wf);
            reveal(EntityDatabase::entities_wf);
            let f = from.raw();
            assert(old_self.tables_spec().contains_key(f));
            assert(old_self.family_ok(f));
            assert(old_self.family_ok(dest.raw()));
            assert forall|k: u64| #[trigger] old_self.tables_spec()[f].columns_spec().contains_key(k) implies
                old_self.tables_spec()[dest.raw()].columns_spec().contains_key(k) by {
                assert(old_self.family_components()[f].raw_set().contains(k));
                assert(old_self.family_components()[dest.raw()].raw_set().contains(k));
            }
        }
        match self.move_components(entity, &from, dest) {
            Ok(()) => {
                proof {
                    lemma_transfer_moved(old_self, *self, entity.raw(), from.raw(), *dest, component@);
                }
                Ok(())
            },
            Err(DbError::ColumnDoesntExistInTable) => {
                let ghost mid0 = *self;
                match self.initialize_row_in(entity, dest) {
                    Ok(_) => {},
                    Err(e) => return Err(e),
                }
                self.maps.set_family_of_entity(entity, *dest);
                proof {
                    assert(old_self.tables_spec()[from.raw()].rows().contains_key(entity.raw()));
                    assert(!old_self.tables_spec()[dest.raw()].rows().contains_key(entity.raw())) by {
                        if old_self.tables_spec()[dest.raw()].rows().contains_key(entity.raw()) {
                            assert(old_self.tables_spec().contains_key(dest.raw())
                                && old_self.tables_spec()[dest.raw()].rows().contains_key(entity.raw()));
                        }
                    }
                }
                match self.remove_entity_from(entity, &from) {
                    Ok(()) => {},
                    Err(e) => return Err(e),
                }
                proof {
                    lemma_transfer_unmoved(old_self, *self, entity.raw(), from.raw(), *dest, component@);
                }
                Ok(())
            },
            Err(e) => Err(e),
        }
    }
}

/// Storing value `v` for entity `e` in the column of type `c` of its family `f`,
/// at its row, keeps the invariant (or restores it when the column missed the
/// entity's row); only that value changes.
proof fn lemma_set_value<V>(o: EntityDatabase<V>, n: EntityDatabase<V>, e: EntityId, f: u64, c: u64, v: V, pushed: bool)
    requires
        o.entity_families().contains_key(e.raw()),
        o.entity_families()[e.raw()].raw() == f,
        pushed ==> o.pending_wf(f, c, e.raw()),
        !pushed ==> o.wf() && o.tables_spec()[f].columns_spec().contains_key(c),
        o.tables_spec().contains_key(f),
        o.tables_spec()[f].columns_spec().contains_key(c),
        n.unit_spec() == o.unit_spec(),
        n.maps_spec() == o.maps_spec(),
        n.tables_spec() == o.tables_spec(),
        n.columns_spec() == o.columns_spec().insert(o.column_key_of(f, c), n.columns_spec()[o.column_key_of(f, c)]),
        pushed ==> n.column_of(f, c).rows() == o.column_of(f, c).rows().push((e, v)),
        !pushed ==> n.column_of(f, c).rows() == o.column_of(f, c).rows().update(o.tables_spec()[f].rows()[e.raw()] as int, (e, v)),
    ensures
        n.wf(),
        n.component_value(e.raw(), c) == Some(v),
        forall|x: u64, k: u64| !(x == e.raw() && k == c) ==> #[trigger] n.component_value(x, k) == o.component_value(x, k),
{
    reveal(EntityDatabase::families_wf);
    reveal(EntityDatabase::keys_unique);
    reveal(EntityDatabase::layout_wf);
    reveal(EntityDatabase::entities_wf);
    reveal(EntityDatabase::edges_wf);
    reveal(EntityDatabase::indexes_wf);
    reveal(EntityDatabase::layout_wf_except);
    let t = o.tables_spec()[f];
    let key = o.column_key_of(f, c);
    let oc = o.column_of(f, c);
    let nc = n.column_of(f, c);
    let i = t.rows()[e.raw()];
    assert(o.family_ok(f));
    assert(key == key_raw(f, c));
    assert(t.rows().contains_key(e.raw())) by {
        assert(o.tables_spec().contains_key(f));
    }
    t.lemma_rows_finite();
    lemma_column_entities(oc);
    lemma_column_entities(nc);
    // the new column's layout
    if pushed {
        assert(o.layout_pending(f, c, e.raw()));
        let r0 = t.rows().remove(e.raw());
        assert(r0.insert(e.raw(), r0.len() as usize) =~= t.rows()) by {
            assert(r0.dom() =~= t.rows().dom().remove(e.raw()));
            assert(r0.len() == oc.entities().len());
        }
        lemma_first_halves_push(oc.rows(), (e, v));
        lemma_push_layout(r0, oc.entities(), e);
        assert(layout_of(t.rows(), nc.entities()));
    } else {
        assert(o.layout_ok(f, c));
        assert(nc.entities() =~= oc.entities()) by {
            assert(oc.entities()[i as int].raw() == e.raw());
            assert(oc.entities()[i as int] == e);
        }
    }
    // other columns are the same
    assert forall|h: u64, k: u64| #[trigger] o.tables_spec().contains_key(h) && #[trigger] o.tables_spec()[h].columns_spec().contains_key(k)
        && !(h == f && k == c) implies n.column_of(h, k) == o.column_of(h, k) by {
        assert(o.family_ok(h));
        o.lemma_keys_distinct(h, k, f, c);
    }
    assert forall|h: u64| #[trigger] n.tables_spec().contains_key(h) implies n.family_ok(h) by {
        assert(o.family_ok(h));
    }
    assert(n.families_wf());
    assert(n.keys_unique());
    assert forall|h: u64, k: u64| #[trigger] n.tables_spec().contains_key(h) && #[trigger] n.tables_spec()[h].columns_spec().contains_key(k)
        implies n.layout_ok(h, k) by {
        if !(h == f && k == c) {
            if pushed {
                assert(o.layout_wf_except(f, c, e.raw()));
            }
            assert(o.layout_ok(h, k));
        }
    }
    assert(n.layout_wf());
    assert(n.entities_wf());
    assert(n.edges_wf());
    assert(n.indexes_wf());
    // values
    if pushed {
        assert(o.layout_pending(f, c, e.raw()));
        assert(i == oc.entities().len());
        assert(nc.rows()[i as int] == (e, v));
    } else {
        assert(o.layout_ok(f, c));
        assert(i < oc.rows().len());
    }
    assert(n.component_value(e.raw(), c) == Some(v));
    assert forall|x: u64, k: u64| !(x == e.raw() && k == c) implies #[trigger] n.component_value(x, k) == o.component_value(x, k) by {
        if o.entity_families().contains_key(x) {
            let h = o.entity_families()[x].raw();
            if h == f && k == c {
                let r = t.rows()[x];
                if t.rows().contains_key(x) {
                    if pushed {
                        assert(o.layout_pending(f, c, e.raw()));
                        assert(t.rows().remove(e.raw()).contains_key(x));
                        assert(r < oc.entities().len());
                    } else {
                        assert(o.layout_ok(f, c));
                        assert(r != i) by {
                            assert(oc.entities()[r as int].raw() == x);
                            assert(oc.entities()[i as int].raw() == e.raw());
                        }
                    }
                }
            } else if o.tables_spec().contains_key(h) && o.tables_spec()[h].columns_spec().contains_key(k) {
                assert(n.column_of(h, k) == o.column_of(h, k));
            }
        }
    }
}

impl<V> EntityDatabase<V> {
    /// Stores `component` as the value of type `component_type` of `entity`, at
    /// its row in the column of that type of its family. The unit type keeps no
    /// value, having no column.
    fn set_component_for(&mut self, entity: &EntityId, component_type: &ComponentType, component: V) -> (r: Result<(), DbError>)
        requires
            old(self).entity_families().contains_key(entity.raw()),
            ({
                let f = old(self).entity_families()[entity.raw()].raw();
                ||| old(self).wf() && old(self).family_components()[f].raw_set().contains(component_type.0.0)
                ||| old(self).pending_wf(f, component_type.0.0, entity.raw())
            }),
        ensures
            r is Ok,
            final(self).wf(),
            final(self).component_value(entity.raw(), component_type.0.0) == (if component_type.0.0 != old(self).unit_raw() {
                Some(component)
            } else {
                None::<V>
            }),
            forall|x: u64, k: u64| !(x == entity.raw() && k == component_type.0.0) ==>
                #[trigger] final(self).component_value(x, k) == old(self).component_value(x, k),
            final(self).maps_spec() == old(self).maps_spec(),
            final(self).tables_spec() == old(self).tables_spec(),
            final(self).unit_spec() == old(self).unit_spec(),
            final(self).headers_spec() == old(self).headers_spec(),
            final(self).allocator_spec() == old(self).allocator_spec(),
    {
        let ghost old_self = *self;
        let ghost c = component_type.0.0;
        proof {
            reveal(EntityDatabase::families_wf);
            reveal(EntityDatabase::entities_wf);
            reveal(EntityDatabase::layout_wf);
            reveal(EntityDatabase::layout_wf_except);
        }
        let family = match self.maps.family_of_entity(entity) {
            Some(f) => f,
            None => return Err(DbError::EntityDoesntExist(*entity)),
        };
        let ghost f = family.raw();
        proof {
            assert(old_self.tables_spec().contains_key(f));
            assert(old_self.family_ok(f));
            assert(old_self.tables_spec()[f].rows().contains_key(entity.raw()));
        }
        let (index, key) = match self.tables.get(&family.0.0) {
            Some(table) => (table.entity_index(entity), table.column_key(component_type)),
            None => return Err(DbError::TableDoesntExistForFamily(family)),
        };
        let index = match index {
            Some(i) => i,
            None => return Err(DbError::EntityNotInTable(*entity, family)),
        };
        match key {
            Some(key) => {
                let ghost pushed = !(old_self.wf() && old_self.family_components()[f].raw_set().contains(c));
                proof {
                    if pushed {
                        assert(old_self.layout_pending(f, c, entity.raw()));
                    } else {
                        assert(old_self.layout_ok(f, c));
                    }
                }
                let mut column = match self.columns.remove(&key.0.0) {
                    Some(col) => col,
                    None => return Err(DbError::ColumnDoesntExistInTable),
                };
                let ghost old_rows = column.rows();
                let ghost old_entities = column.entities();
                proof {
                    assert(column == old_self.column_of(f, c));
                    if !pushed {
                        assert(old_entities[index as int].raw() == entity.raw());
                        let ent = old_entities[index as int];
                        assert(ent.0.aligned == entity.0.aligned);
                        assert(ent == *entity);
                    }
                }
                let stored = column.set_component(entity, index, component);
                proof {
                    lemma_column_entities(column);
                    if !pushed {
                        assert(column.rows() =~= old_rows.update(index as int, (*entity, component)));
                    }
                }
                self.columns.insert(key.0.0, column);
                proof {
                    assert(self.columns@ =~= old_self.columns_spec().insert(key.0.0, column));
                    lemma_set_value(old_self, *self, *entity, f, c, component, pushed);
                }
                stored
            },
            None => {
                proof {
                    assert(old_self.wf());
                    assert(c == old_self.unit_raw());
                    assert forall|x: u64, k: u64| !(x == entity.raw() && k == c) implies
                        #[trigger] self.component_value(x, k) == old_self.component_value(x, k) by {}
                }
                Ok(())
            },
        }
    }
}

/// What removing row `index` of a column whose entities are `entities`, by
/// moving its last row in its place, reports.
pub open spec fn column_swap_result(entities: Seq<EntityId>, index: int) -> ColumnSwapRemoveResult {
    ColumnSwapRemoveResult {
        moved: if index + 1 < entities.len() { entities.last() } else { entities[index] },
        removed: entities[index],
        new_moved_index: index as usize,
        new_column_len: (entities.len() - 1) as usize,
    }
}

/// Key `k` is the key of the column, in family `f`, of one of the first `n`
/// types of `raws` other than `u`.
pub open spec fn destroyed_key(f: u64, raws: Seq<u64>, n: int, u: u64, k: u64) -> bool {
    exists|t: int| 0 <= t < n && raws[t] != u && k == #[trigger] key_raw(f, raws[t])
}

/// A key destroyed among the first `n` types is destroyed among the first `n + 1`.
pub proof fn lemma_destroyed_grows(f: u64, raws: Seq<u64>, n: int, u: u64, k: u64)
    requires
        destroyed_key(f, raws, n, u, k),
    ensures
        destroyed_key(f, raws, n + 1, u, k),
{
    let t = choose|t: int| 0 <= t < n && raws[t] != u && k == #[trigger] key_raw(f, raws[t]);
    assert(0 <= t < n + 1 && raws[t] != u && k == key_raw(f, raws[t]));
}

impl<V> EntityDatabase<V> {
    /// What removing entity `e` from the columns of family `f` reports, for
    /// every column: the entity of the last row took `e`'s row, unless `e` had
    /// the last row.
    pub open spec fn expected_swap(self, e: u64, f: u64) -> ColumnSwapRemoveResult {
        let rows = self.tables_spec()[f].rows();
        let i = rows[e];
        let n = rows.len();
        ColumnSwapRemoveResult {
            moved: if i + 1 < n { entity_of(entity_at_row(rows, n - 1)) } else { entity_of(e) },
            removed: entity_of(e),
            new_moved_index: i,
            new_column_len: (n - 1) as usize,
        }
    }

    /// Each column of `f` reports the same removal of entity `e`.
    pub proof fn lemma_swap_result(self, e: u64, f: u64, c: u64)
        requires
            self.tables_spec().contains_key(f),
            self.tables_spec()[f].columns_spec().contains_key(c),
            self.layout_ok(f, c),
            self.tables_spec()[f].rows().contains_key(e),
        ensures
            column_swap_result(self.column_of(f, c).entities(), self.tables_spec()[f].rows()[e] as int) == self.expected_swap(e, f),
            self.tables_spec()[f].rows()[e] < self.column_of(f, c).rows().len(),
    {
        let rows = self.tables_spec()[f].rows();
        let entities = self.column_of(f, c).entities();
        let i = rows[e];
        let n = rows.len();
        assert(entities[i as int].raw() == e);
        assert(entities[i as int] == entity_of(e));
        if i + 1 < n {
            let last = entities[n - 1].raw();
            assert(rows.contains_key(last) && rows[last] == n - 1);
            let x = entity_at_row(rows, n - 1);
            assert(rows.contains_key(x) && rows[x] == n - 1);
            assert(entities[rows[x] as int].raw() == x);
            assert(entities.last() == entity_of(x));
        }
    }

    /// Removes row `index` of the column keyed `key`, moving its last row in its place.
    fn swap_remove_column(&mut self, key: u64, index: usize) -> (r: ColumnSwapRemoveResult)
        requires
            old(self).columns_spec().contains_key(key),
            index < old(self).columns_spec()[key].rows().len(),
        ensures
            final(self).tables_spec() == old(self).tables_spec(),
            final(self).maps_spec() == old(self).maps_spec(),
            final(self).headers_spec() == old(self).headers_spec(),
            final(self).allocator_spec() == old(self).allocator_spec(),
            final(self).unit_spec() == old(self).unit_spec(),
            final(self).columns_spec().dom() == old(self).columns_spec().dom(),
            forall|k: u64| k != key && #[trigger] old(self).columns_spec().contains_key(k) ==>
                final(self).columns_spec()[k] == old(self).columns_spec()[k],
            final(self).columns_spec()[key].rows() == swap_removed(old(self).columns_spec()[key].rows(), index as int),
            r == column_swap_result(old(self).columns_spec()[key].entities(), index as int),
    {
        let ghost old_cols = self.columns@;
        let mut column = self.columns.remove(&key).unwrap();
        let result = column.swap_and_destroy(index);
        self.columns.insert(key, column);
        proof {
            assert(self.columns@.dom() =~= old_cols.dom());
        }
        result
    }

    /// Removes row `index`, the row of entity `entity`, from each column of family
    /// `family`, whose component types are `members`, and returns what the
    /// removals report, or nothing when the family has no columns.
    fn destroy_rows(&mut self, family: &FamilyId, members: &Vec<ComponentType>, index: usize, entity: Ghost<u64>)
        -> (r: Option<ColumnSwapRemoveResult>)
        requires
            old(self).wf(),
            old(self).tables_spec().contains_key(family.raw()),
            old(self).tables_spec()[family.raw()].rows().contains_key(entity@),
            index == old(self).tables_spec()[family.raw()].rows()[entity@],
            crate::component::raws_of(members@) == old(self).tables_spec()[family.raw()].components_spec().raws(),
        ensures
            final(self).tables_spec() == old(self).tables_spec(),
            final(self).maps_spec() == old(self).maps_spec(),
            final(self).headers_spec() == old(self).headers_spec(),
            final(self).allocator_spec() == old(self).allocator_spec(),
            final(self).unit_spec() == old(self).unit_spec(),
            final(self).columns_spec().dom() == old(self).columns_spec().dom(),
            !old(self).has_columns(family.raw()) ==> r is None && final(self).columns_spec() == old(self).columns_spec(),
            old(self).has_columns(family.raw()) ==> r == Some(old(self).expected_swap(entity@, family.raw())),
            forall|c: u64| #[trigger] old(self).tables_spec()[family.raw()].columns_spec().contains_key(c) ==>
                final(self).columns_spec()[key_raw(family.raw(), c)].rows()
                    == swap_removed(old(self).columns_spec()[key_raw(family.raw(), c)].rows(), index as int),
            forall|k: u64| #[trigger] old(self).columns_spec().contains_key(k)
                && (forall|c: u64| #[trigger] old(self).tables_spec()[family.raw()].columns_spec().contains_key(c) ==> k != key_raw(family.raw(), c))
                ==> final(self).columns_spec()[k] == old(self).columns_spec()[k],
    {
        proof {
            reveal(EntityDatabase::families_wf);
        }
        let ghost old_self = *self;
        let ghost f = family.raw();
        let ghost u = self.unit_raw();
        let ghost raws = crate::component::raws_of(members@);
        let ghost tf = old_self.tables_spec()[f];
        let ghost c0 = old_self.columns_spec();
        proof {
            assert(old_self.family_ok(f));
        }
        let mut result: Option<ColumnSwapRemoveResult> = None;
        let mut j: usize = 0;
        while j < members.len()
            invariant
                j <= members@.len(),
                raws == crate::component::raws_of(members@),
                raws == tf.components_spec().raws(),
                old_self.wf(),
                old_self.family_ok(f),
                f == family.raw(),
                tf == old_self.tables_spec()[f],
                c0 == old_self.columns_spec(),
                index == tf.rows()[entity@],
                tf.rows().contains_key(entity@),
                old_self.tables_spec().contains_key(f),
                u == old_self.unit_raw(),
                self.unit == old_self.unit,
                self.tables@ == old_self.tables_spec(),
                self.maps == old_self.maps_spec(),
                self.headers@ == old_self.headers_spec(),
                self.allocator == old_self.allocator_spec(),
                self.columns@.dom() == c0.dom(),
                forall|t: int| 0 <= t < j && raws[t] != u ==>
                    self.columns@[#[trigger] key_raw(f, raws[t])].rows() == swap_removed(c0[key_raw(f, raws[t])].rows(), index as int),
                forall|k: u64| #[trigger] c0.contains_key(k) && !destroyed_key(f, raws, j as int, u, k)
                    ==> self.columns@[k] == c0[k],
                (exists|t: int| 0 <= t < j && raws[t] != u) ==> result == Some(old_self.expected_swap(entity@, f)),
                !(exists|t: int| 0 <= t < j && raws[t] != u) ==> result is None,
            decreases members@.len() - j,
        {
            let component = members[j];
            if component.0.0 != self.unit.0.0 {
                let ghost c = raws[j as int];
                proof {
                    assert(tf.components_spec().raw_set().contains(c));
                    assert(tf.columns_spec().contains_key(c));
                }
                let key = ColumnKey::new(*family, component.0.0).raw();
                proof {
                    reveal(EntityDatabase::layout_wf);
                    assert(component.0.0 == c);
                    assert(key == key_raw(f, c));
                    assert(old_self.layout_ok(f, c));
                    old_self.lemma_swap_result(entity@, f, c);
                    assert(old_self.column_of(f, c) == c0[key]);
                    assert forall|t: int| 0 <= t < j && raws[t] != u implies key != #[trigger] key_raw(f, raws[t]) by {
                        assert(raws[t] < raws[j as int]);
                        assert(tf.components_spec().raw_set().contains(raws[t]));
                        assert(tf.columns_spec().contains_key(raws[t]));
                        old_self.lemma_keys_distinct(f, c, f, raws[t]);
                    }
                    if destroyed_key(f, raws, j as int, u, key) {
                        let t = choose|t: int| 0 <= t < j && raws[t] != u && key == #[trigger] key_raw(f, raws[t]);
                        assert(key != key_raw(f, raws[t]));
                    }
                    assert(self.columns@[key] == c0[key]);
                }
                let ghost before = self.columns@;
                let removed = self.swap_remove_column(key, index);
                result = Some(removed);
                proof {
                    assert forall|t: int| 0 <= t < j + 1 && raws[t] != u implies
                        self.columns@[#[trigger] key_raw(f, raws[t])].rows() == swap_removed(c0[key_raw(f, raws[t])].rows(), index as int) by {
                        if t < j {
                            assert(tf.components_spec().raw_set().contains(raws[t]));
                            assert(tf.columns_spec().contains_key(raws[t]));
                            assert(c0.contains_key(key_raw(f, raws[t])));
                            assert(key_raw(f, raws[t]) != key);
                            assert(self.columns@[key_raw(f, raws[t])] == before[key_raw(f, raws[t])]);
                        }
                    }
                    assert forall|k: u64| #[trigger] c0.contains_key(k) && !destroyed_key(f, raws, j + 1, u, k)
                        implies self.columns@[k] == c0[k] by {
                        if k == key_raw(f, raws[j as int]) {
                            assert(destroyed_key(f, raws, j + 1, u, k));
                        }
                        if destroyed_key(f, raws, j as int, u, k) {
                            lemma_destroyed_grows(f, raws, j as int, u, k);
                        }
                        assert(self.columns@[k] == before[k]);
                    }
                    assert(exists|t: int| 0 <= t < j + 1 && raws[t] != u) by {
                        assert(raws[j as int] != u);
                    }
                }
            } else {
                proof {
                    if exists|t: int| 0 <= t < j + 1 && raws[t] != u {
                        let t = choose|t: int| 0 <= t < j + 1 && raws[t] != u;
                        assert(t < j);
                    }
                    assert forall|k: u64| #[trigger] c0.contains_key(k) && !destroyed_key(f, raws, j + 1, u, k)
                        implies self.columns@[k] == c0[k] by {
                        if destroyed_key(f, raws, j as int, u, k) {
                            lemma_destroyed_grows(f, raws, j as int, u, k);
                        }
                    }
                }
            }
            j = j + 1;
        }
        proof {
            assert forall|c: u64| #[trigger] tf.columns_spec().contains_key(c) implies
                exists|t: int| 0 <= t < raws.len() && raws[t] == c && raws[t] != u by {
                assert(tf.components_spec().raw_set().contains(c));
                assert(raws.contains(c));
                let t = raws.index_of(c);
                assert(raws[t] == c);
            }
            assert forall|c: u64| #[trigger] tf.columns_spec().contains_key(c) implies
                self.columns_spec()[key_raw(f, c)].rows() == swap_removed(c0[key_raw(f, c)].rows(), index as int) by {
                let t = choose|t: int| 0 <= t < raws.len() && raws[t] == c && raws[t] != u;
                assert(self.columns@[key_raw(f, raws[t])].rows() == swap_removed(c0[key_raw(f, raws[t])].rows(), index as int));
            }
            assert forall|k: u64| #[trigger] c0.contains_key(k)
                && (forall|c: u64| #[trigger] tf.columns_spec().contains_key(c) ==> k != key_raw(f, c))
                implies self.columns_spec()[k] == c0[k] by {
                if destroyed_key(f, raws, j as int, u, k) {
                    let t = choose|t: int| 0 <= t < j && raws[t] != u && k == #[trigger] key_raw(f, raws[t]);
                    assert(tf.components_spec().raw_set().contains(raws[t]));
                    assert(tf.columns_spec().contains_key(raws[t]));
                }
            }
            if old_self.has_columns(f) {
                let c = choose|c: u64| #[trigger] tf.columns_spec().contains_key(c);
                let t = choose|t: int| 0 <= t < raws.len() && raws[t] == c && raws[t] != u;
                assert(exists|t: int| 0 <= t < j && raws[t] != u);
            } else {
                if exists|t: int| 0 <= t < j && raws[t] != u {
                    let t = choose|t: int| 0 <= t < j && raws[t] != u;
                    assert(tf.components_spec().raw_set().contains(raws[t]));
                    assert(tf.columns_spec().contains_key(raws[t]));
                }
                assert(self.columns@ =~= c0);
            }
        }
        result
    }
}

/// The effects of destroying entity `e` of family `f`: it leaves the table of
/// `f`, its values leave the columns of `f`, and it has no family any more.
pub open spec fn destroy_effects<V>(o: EntityDatabase<V>, n: EntityDatabase<V>, e: u64, f: u64) -> bool {
    let tf = o.tables_spec()[f];
    &&& o.wf()
    &&& o.entity_families().contains_key(e)
    &&& o.entity_families()[e].raw() == f
    &&& n.unit_spec() == o.unit_spec()
    &&& n.family_components() == o.family_components()
    &&& n.maps_spec().transfer_graphs() == o.maps_spec().transfer_graphs()
    &&& n.maps_spec().containing_component() == o.maps_spec().containing_component()
    &&& n.maps_spec().containing_sets() == o.maps_spec().containing_sets()
    &&& n.entity_families() == o.entity_families().remove(e)
    &&& n.tables_spec().dom() == o.tables_spec().dom()
    &&& forall|h: u64| #[trigger] o.tables_spec().contains_key(h) && h != f ==> n.tables_spec()[h] == o.tables_spec()[h]
    &&& same_layout(tf, n.tables_spec()[f])
    &&& n.columns_spec().dom() == o.columns_spec().dom()
    &&& o.has_columns(f) ==> {
        &&& n.tables_spec()[f].rows() == rows_after_swap_remove(tf.rows(), e)
        &&& n.tables_spec()[f].free_rows() == tf.free_rows()
        &&& forall|k: u64| #[trigger] tf.columns_spec().contains_key(k) ==>
            n.columns_spec()[key_raw(f, k)].rows() == swap_removed(o.columns_spec()[key_raw(f, k)].rows(), tf.rows()[e] as int)
        &&& forall|k: u64| #[trigger] o.columns_spec().contains_key(k)
            && (forall|j: u64| #[trigger] tf.columns_spec().contains_key(j) ==> k != key_raw(f, j))
            ==> n.columns_spec()[k] == o.columns_spec()[k]
    }
    &&& !o.has_columns(f) ==> {
        &&& n.tables_spec()[f].rows() == tf.rows().remove(e)
        &&& n.tables_spec()[f].free_rows() == tf.free_rows().push(tf.rows()[e])
        &&& n.columns_spec() == o.columns_spec()
    }
}

/// Destroying an entity keeps the invariant; the entity has no values left and
/// the values of other entities stay.
proof fn lemma_destroy<V>(o: EntityDatabase<V>, n: EntityDatabase<V>, e: u64, f: u64)
    requires
        destroy_effects(o, n, e, f),
    ensures
        n.wf(),
        forall|x: u64, k: u64| #[trigger] n.component_value(x, k) == (if x == e { None::<V> } else { o.component_value(x, k) }),
{
    reveal(EntityDatabase::families_wf);
    reveal(EntityDatabase::keys_unique);
    reveal(EntityDatabase::layout_wf);
    reveal(EntityDatabase::entities_wf);
    reveal(EntityDatabase::edges_wf);
    reveal(EntityDatabase::indexes_wf);
    let tf = o.tables_spec()[f];
    let i = tf.rows()[e];
    let nf = tf.rows().len();
    let u = o.unit_raw();
    assert(o.tables_spec().contains_key(f));
    assert(tf.rows().contains_key(e));
    assert(o.family_ok(f));
    tf.lemma_rows_finite();
    if !o.has_columns(f) {
        assert(o.family_components()[f].raw_set() =~= Set::<u64>::empty().insert(u)) by {
            assert forall|k: u64| o.family_components()[f].raw_set().contains(k) implies k == u by {
                if k != u {
                    assert(tf.columns_spec().contains_key(k));
                }
            }
        }
    }
    // untouched columns stay
    assert forall|h: u64, k: u64| #[trigger] o.tables_spec().contains_key(h) && #[trigger] o.tables_spec()[h].columns_spec().contains_key(k)
        && h != f implies n.columns_spec()[key_raw(h, k)] == o.columns_spec()[key_raw(h, k)] by {
        assert(o.family_ok(h));
        if o.has_columns(f) {
            assert forall|j: u64| #[trigger] tf.columns_spec().contains_key(j) implies key_raw(h, k) != key_raw(f, j) by {
                o.lemma_keys_distinct(h, k, f, j);
            }
        }
    }
    // families
    assert forall|h: u64| #[trigger] n.tables_spec().contains_key(h) implies n.family_ok(h) by {
        assert(o.family_ok(h));
    }
    assert(n.families_wf());
    assert forall|h: u64| #[trigger] n.tables_spec().contains_key(h) implies n.tables_spec()[h].columns_spec() == o.tables_spec()[h].columns_spec() by {}
    assert(n.keys_unique());
    // layout
    assert forall|h: u64, k: u64| #[trigger] n.tables_spec().contains_key(h) && #[trigger] n.tables_spec()[h].columns_spec().contains_key(k)
        implies n.layout_ok(h, k) by {
        assert(o.tables_spec()[h].columns_spec().contains_key(k));
        assert(o.layout_ok(h, k));
        if h == f {
            let oc = o.columns_spec()[key_raw(f, k)];
            let nc = n.columns_spec()[key_raw(f, k)];
            assert(o.column_of(f, k) == oc);
            assert(n.column_of(f, k) == nc);
            lemma_column_entities(oc);
            lemma_column_entities(nc);
            lemma_first_halves_swap(oc.rows(), i as int);
            lemma_swap_remove_layout(tf.rows(), oc.entities(), e);
        } else {
            assert(n.column_of(h, k) == o.column_of(h, k));
        }
    }
    assert(n.layout_wf());
    // entities
    let ef = n.entity_families();
    assert forall|x: u64| #[trigger] ef.contains_key(x) implies n.tables_spec().contains_key(ef[x].raw())
        && n.tables_spec()[ef[x].raw()].rows().contains_key(x) by {
        assert(o.entity_families().contains_key(x));
        let h = o.entity_families()[x].raw();
        assert(o.tables_spec()[h].rows().contains_key(x));
        if h == f && o.has_columns(f) {
            if i + 1 < nf {
                assert(n.tables_spec()[f].rows() == tf.rows().insert(entity_at_row(tf.rows(), nf - 1), i).remove(e));
            } else {
                assert(n.tables_spec()[f].rows() == tf.rows().remove(e));
            }
        }
    }
    assert forall|h: u64, x: u64| #[trigger] n.tables_spec().contains_key(h) && #[trigger] n.tables_spec()[h].rows().contains_key(x)
        implies ef.contains_key(x) && ef[x].raw() == h by {
        if h == f {
            assert(x != e);
            if o.has_columns(f) && i + 1 < nf {
                let last = entity_at_row(tf.rows(), nf - 1);
                assert(n.tables_spec()[f].rows() == tf.rows().insert(last, i).remove(e));
                if x == last {
                    let col_type = choose|k: u64| #[trigger] tf.columns_spec().contains_key(k);
                    assert(o.layout_ok(f, col_type));
                    let ents = o.column_of(f, col_type).entities();
                    assert(tf.rows().contains_key(ents[nf - 1].raw()));
                    assert(tf.rows().contains_key(last) && tf.rows()[last] == nf - 1);
                }
                assert(tf.rows().contains_key(x));
            } else {
                assert(tf.rows().contains_key(x));
            }
            assert(o.tables_spec()[f].rows().contains_key(x));
        } else {
            assert(o.tables_spec()[h].rows().contains_key(x));
        }
    }
    assert(n.entities_wf());
    assert(n.edges_wf());
    lemma_same_indexes(o.maps_spec(), n.maps_spec());
    assert(n.indexes_wf());
    // values
    assert forall|x: u64, k: u64| #[trigger] n.component_value(x, k) == (if x == e { None::<V> } else { o.component_value(x, k) }) by {
        if x != e && o.entity_families().contains_key(x) {
            let h = o.entity_families()[x].raw();
            assert(o.tables_spec()[h].rows().contains_key(x));
            if h == f {
                if tf.columns_spec().contains_key(k) {
                    let ofc = o.columns_spec()[key_raw(f, k)];
                    let nfc = n.columns_spec()[key_raw(f, k)];
                    assert(o.layout_ok(f, k));
                    assert(o.column_of(f, k) == ofc);
                    assert(n.column_key_of(f, k) == key_raw(f, k));
                    assert(o.column_key_of(f, k) == key_raw(f, k));
                    assert(nfc.rows() == swap_removed(ofc.rows(), i as int));
                    let r = tf.rows()[x];
                    assert(r != i) by {
                        assert(ofc.entities()[r as int].raw() == x);
                        assert(ofc.entities()[i as int].raw() == e);
                    }
                    if i + 1 < nf {
                        let last = entity_at_row(tf.rows(), nf - 1);
                        assert(tf.rows().contains_key(ofc.entities()[nf - 1].raw()));
                        assert(tf.rows().contains_key(last) && tf.rows()[last] == nf - 1);
                        assert(ofc.entities()[tf.rows()[last] as int].raw() == last);
                        if x == last {
                            assert(n.tables_spec()[f].rows()[x] == i);
                            assert(nfc.rows()[i as int] == ofc.rows()[nf - 1]);
                        } else {
                            assert(r != nf - 1) by {
                                if r == nf - 1 {
                                    assert(ofc.entities()[r as int].raw() == x);
                                }
                            }
                            assert(n.tables_spec()[f].rows()[x] == r);
                            assert(nfc.rows()[r as int] == ofc.rows()[r as int]);
                        }
                    } else {
                        assert(n.tables_spec()[f].rows()[x] == r);
                        assert(r < nf - 1);
                        assert(nfc.rows()[r as int] == ofc.rows()[r as int]);
                    }
                }
            } else {
                assert(n.tables_spec()[h] == o.tables_spec()[h]);
                if o.tables_spec()[h].columns_spec().contains_key(k) {
                    assert(o.family_ok(h));
                    assert(o.columns_spec().contains_key(key_raw(h, k)));
                    assert(n.column_of(h, k) == o.column_of(h, k));
                }
            }
        }
    }
}

impl<V> EntityDatabase<V> {
    /// Destroys an entity: its component values leave the columns of its family,
    /// the entity of the last row taking its row, and it has no family any more.
    /// Its id is not handed out again.
    pub fn destroy(&mut self, entity: EntityId) -> (r: Result<(), DbError>)
        requires
            old(self).wf(),
        ensures
            final(self).wf(),
            final(self).unit_spec() == old(self).unit_spec(),
            final(self).allocator_spec() == old(self).allocator_spec(),
            final(self).headers_spec() == old(self).headers_spec(),
            final(self).family_components() == old(self).family_components(),
            !old(self).entity_families().contains_key(entity.raw()) ==> {
                &&& r == Err::<(), DbError>(DbError::EntityDoesntExist(entity))
                &&& *final(self) == *old(self)
            },
            old(self).entity_families().contains_key(entity.raw()) ==> {
                &&& r == Ok::<(), DbError>(())
                &&& final(self).entity_families() == old(self).entity_families().remove(entity.raw())
                &&& final(self).component_types(entity.raw()) == Set::<u64>::empty()
                &&& forall|x: u64, k: u64| #[trigger] final(self).component_value(x, k)
                    == (if x == entity.raw() { None::<V> } else { old(self).component_value(x, k) })
            },
    {
        let ghost old_self = *self;
        let family = match self.maps.family_of_entity(&entity) {
            Some(f) => f,
            None => return Err(DbError::EntityDoesntExist(entity)),
        };
        proof {
            reveal(EntityDatabase::families_wf);
            reveal(EntityDatabase::entities_wf);
            assert(old_self.tables_spec().contains_key(family.raw()));
            assert(old_self.tables_spec()[family.raw()].rows().contains_key(entity.raw()));
        }
        let (index, members) = match self.tables.get(&family.0.0) {
            Some(table) => {
                let index = match table.entity_index(&entity) {
                    Some(i) => i,
                    None => return Err(DbError::EntityNotInTable(entity, family)),
                };
                (index, table.components().to_vec())
            },
            None => return Err(DbError::TableDoesntExistForFamily(family)),
        };
        match self.destroy_rows(&family, &members, index, Ghost(entity.raw())) {
            Some(result) => {
                let mut table = match self.tables.remove(&family.0.0) {
                    Some(t) => t,
                    None => return Err(DbError::TableDoesntExistForFamily(family)),
                };
                table.set_entity_index(&result.moved, result.new_moved_index);
                table.forget_entity(&entity);
                self.tables.insert(family.0.0, table);
                proof {
                    let rows = old_self.tables_spec()[family.raw()].rows();
                    assert(self.tables_spec()[family.raw()].rows() =~= rows_after_swap_remove(rows, entity.raw()));
                    assert(self.tables@.dom() =~= old_self.tables_spec().dom());
                }
            },
            None => {
                match self.remove_entity_from(&entity, &family) {
                    Ok(()) => {},
                    Err(e) => return Err(e),
                }
            },
        }
        self.maps.remove_family_of_entity(&entity);
        proof {
            lemma_destroy(old_self, *self, entity.raw(), family.raw());
        }
        Ok(())
    }
}

/// Making a family keeps the invariant.
proof fn lemma_new_family_wf<V>(old_db: EntityDatabase<V>, db: EntityDatabase<V>, f: u64, t: Table, comps: ComponentTypeSet)
    requires
        old_db.core_wf(),
        !old_db.tables_spec().contains_key(f),
        comps.family_spec().raw() == f,
        comps.raws() == crate::component::sorted_raws(comps.raw_set()),
        crate::component::strictly_sorted(comps.raws()),
        comps.raws().len() < 32,
        comps.raw_set().contains(old_db.unit_raw()),
        old_db.keys_fresh(f, comps.raws()),
        db.unit_spec() == old_db.unit_spec(),
        db.tables_spec() == old_db.tables_spec().insert(f, t),
        t.family_spec().raw() == f,
        t.components_spec().raws() == comps.raws(),
        t.rows() == Map::<u64, usize>::empty(),
        t.free_rows() == Seq::<usize>::empty(),
        forall|c: u64| #[trigger] t.columns_spec().contains_key(c) == (comps.raws().contains(c) && c != old_db.unit_raw()),
        forall|c: u64| #[trigger] t.columns_spec().contains_key(c) ==> {
            &&& t.columns_spec()[c] == ColumnKey::key_of(t.family_spec(), c)
            &&& db.columns_spec().contains_key(key_raw(f, c))
            &&& db.columns_spec()[key_raw(f, c)].rows() == Seq::<(EntityId, V)>::empty()
        },
        forall|k: u64| #[trigger] old_db.columns_spec().contains_key(k) ==>
            db.columns_spec().contains_key(k) && db.columns_spec()[k] == old_db.columns_spec()[k],
        db.maps_spec().sets_distinct(),
        db.entity_families() == old_db.entity_families(),
        db.family_components() == old_db.family_components().insert(f, comps),
        db.maps_spec().transfer_graphs() == old_db.maps_spec().transfer_graphs().insert(f, Map::<u64, TransferEdge>::empty()),
        forall|c: u64| #[trigger] db.maps_spec().containing_component().contains_key(c) ==
            (old_db.maps_spec().containing_component().contains_key(c) || comps.raw_set().contains(c)),
        forall|c: u64| db.maps_spec().containing_component().contains_key(c) ==>
            #[trigger] db.maps_spec().containing_component()[c] == (if comps.raw_set().contains(c) {
                if old_db.maps_spec().containing_component().contains_key(c) {
                    old_db.maps_spec().containing_component()[c].insert(f)
                } else {
                    Set::<u64>::empty().insert(f)
                }
            } else {
                old_db.maps_spec().containing_component()[c]
            }),
        forall|k: Seq<u64>| #[trigger] db.maps_spec().has_set(k) == (old_db.maps_spec().has_set(k) || is_pick_of(k, comps.raws())),
        forall|k: Seq<u64>| #[trigger] db.maps_spec().set_families(k) == (if is_pick_of(k, comps.raws()) {
            old_db.maps_spec().set_families(k).insert(f)
        } else {
            old_db.maps_spec().set_families(k)
        }),
    ensures
        db.core_wf(),
        db.unit_registered() == (old_db.unit_registered() || comps.raws() == seq![old_db.unit_raw()]),
{
    reveal(EntityDatabase::families_wf);
    reveal(EntityDatabase::keys_unique);
    reveal(EntityDatabase::layout_wf);
    reveal(EntityDatabase::entities_wf);
    reveal(EntityDatabase::edges_wf);
    reveal(EntityDatabase::indexes_wf);
    let u = old_db.unit_raw();
    if comps.raws() == seq![u] {
        assert(f == old_db.unit_family().raw());
    }
    if old_db.unit_registered() {
        assert(f != old_db.unit_family().raw());
    }
    assert forall|c: u64| comps.raw_set().contains(c) == comps.raws().contains(c) by {}
    // families
    assert(db.tables_spec().dom() =~= db.family_components().dom());
    assert(db.maps_spec().transfer_graphs().dom() =~= db.family_components().dom());
    assert forall|g: u64| #[trigger] db.tables_spec().contains_key(g) implies db.family_ok(g) by {
        if g != f {
            assert(old_db.family_ok(g));
            assert forall|c: u64| #[trigger] db.tables_spec()[g].columns_spec().contains_key(c) implies
                db.columns_spec().contains_key(key_raw(g, c)) by {
                assert(old_db.tables_spec()[g].columns_spec().contains_key(c));
            }
        }
    }
    assert(db.families_wf());
    // keys
    assert forall|f1: u64, c1: u64, f2: u64, c2: u64|
        #![trigger key_raw(f1, c1), key_raw(f2, c2)]
        db.tables_spec().contains_key(f1) && db.tables_spec()[f1].columns_spec().contains_key(c1)
        && db.tables_spec().contains_key(f2) && db.tables_spec()[f2].columns_spec().contains_key(c2)
        && key_raw(f1, c1) == key_raw(f2, c2) implies f1 == f2 && c1 == c2 by {
        if f1 == f && f2 == f {
            if c1 != c2 {
                let i = comps.raws().index_of(c1);
                let j = comps.raws().index_of(c2);
                if i < j {
                    assert(key_raw(f, comps.raws()[i]) != key_raw(f, comps.raws()[j]));
                } else {
                    assert(key_raw(f, comps.raws()[j]) != key_raw(f, comps.raws()[i]));
                }
            }
        } else if f1 == f {
            let i = comps.raws().index_of(c1);
            assert(!old_db.columns_spec().contains_key(key_raw(f, comps.raws()[i])));
            assert(old_db.family_ok(f2));
            assert(old_db.tables_spec()[f2].columns_spec().contains_key(c2));
        } else if f2 == f {
            let j = comps.raws().index_of(c2);
            assert(!old_db.columns_spec().contains_key(key_raw(f, comps.raws()[j])));
            assert(old_db.family_ok(f1));
            assert(old_db.tables_spec()[f1].columns_spec().contains_key(c1));
        }
    }
    assert(db.keys_unique());
    // layout
    assert forall|g: u64, c: u64| #[trigger] db.tables_spec().contains_key(g) && #[trigger] db.tables_spec()[g].columns_spec().contains_key(c)
        implies db.layout_ok(g, c) by {
        if g == f {
            assert(db.column_of(f, c).entities().len() == db.column_of(f, c).rows().len());
        } else {
            assert(old_db.tables_spec()[g].columns_spec().contains_key(c));
            assert(old_db.layout_ok(g, c));
            assert(old_db.family_ok(g));
            assert(db.column_of(g, c) == old_db.column_of(g, c));
        }
    }
    assert(db.layout_wf());
    // entities
    assert(db.entities_wf());
    // edges
    assert forall|g: u64, c: u64| #[trigger] db.maps_spec().transfer_graphs().contains_key(g)
        && #[trigger] db.maps_spec().transfer_graphs()[g].contains_key(c) implies
        match db.maps_spec().transfer_graphs()[g][c] {
            TransferEdge::Add(h) => db.family_components().contains_key(h.raw()) && db.family_components().contains_key(g)
                && db.family_components()[h.raw()].raw_set() == db.family_components()[g].raw_set().insert(c),
            TransferEdge::Remove(h) => db.family_components().contains_key(h.raw()) && db.family_components().contains_key(g)
                && db.family_components()[h.raw()].raw_set().insert(c) == db.family_components()[g].raw_set(),
        } by {
        assert(g != f);
        assert(old_db.maps_spec().transfer_graphs().contains_key(g));
        assert(old_db.maps_spec().transfer_graphs()[g].contains_key(c));
    }
    assert(db.edges_wf());
    // indexes
    let cc = db.maps_spec().containing_component();
    let occ = old_db.maps_spec().containing_component();
    assert forall|g: u64, c: u64| #[trigger] db.family_components().contains_key(g) && #[trigger] db.family_components()[g].raw_set().contains(c)
        implies cc.contains_key(c) && cc[c].contains(g) by {
        if g != f {
            assert(old_db.family_components().contains_key(g) && old_db.family_components()[g].raw_set().contains(c));
        }
    }
    assert forall|c: u64, g: u64| #[trigger] cc.contains_key(c) && #[trigger] cc[c].contains(g)
        implies db.family_components().contains_key(g) && db.family_components()[g].raw_set().contains(c) by {
        if g != f {
            assert(occ.contains_key(c) && occ[c].contains(g));
        }
    }
    assert forall|g: u64, k: Seq<u64>| #[trigger] db.family_components().contains_key(g) && #[trigger] is_pick_of(k, db.family_components()[g].raws())
        implies db.maps_spec().has_set(k) && db.maps_spec().set_families(k).contains(g) by {
        if g != f {
            assert(old_db.family_components().contains_key(g) && is_pick_of(k, old_db.family_components()[g].raws()));
        }
    }
    assert forall|k: Seq<u64>, g: u64| #[trigger] db.maps_spec().set_families(k).contains(g)
        implies db.family_components().contains_key(g) && is_pick_of(k, db.family_components()[g].raws()) by {
        if g != f {
            assert(old_db.maps_spec().set_families(k).contains(g));
        }
    }
    assert(db.indexes_wf());
}

impl<V: Default> EntityDatabase<V> {
    /// A database holding no entity, with the family of the unit component
    /// alone, where entities start.
    pub fn new() -> (r: Self)
        ensures
            r.wf(),
            r.unit_spec().0.0 == crate::tyid::fnv1a_64("()".spec_bytes()),
            r.entity_families() == Map::<u64, FamilyId>::empty(),
            r.family_components().dom() == Set::<u64>::empty().insert(r.unit_family().raw()),
            r.allocator_spec().count() == 0,
            r.allocator_spec().free_list() == Seq::<EntityId>::empty(),
    {
        let unit = ComponentType::from_type_name("()");
        let mut db = EntityDatabase {
            allocator: EntityAllocator::new(),
            tables: HashMap::new(),
            columns: HashMap::new(),
            maps: DbMaps::new(),
            headers: HashMap::new(),
            unit,
        };
        proof {
            reveal(EntityDatabase::families_wf);
            reveal(EntityDatabase::keys_unique);
            reveal(EntityDatabase::layout_wf);
            reveal(EntityDatabase::entities_wf);
            reveal(EntityDatabase::edges_wf);
            reveal(EntityDatabase::indexes_wf);
            assert(db.tables_spec().dom() =~= db.family_components().dom());
            assert(db.maps_spec().transfer_graphs().dom() =~= db.family_components().dom());
        }
        let unit_set = ComponentTypeSet::single(unit);
        proof {
            assert(unit_set.raws()[0] == unit.0.0);
            assert(unit_set.raw_set().contains(unit.0.0));
            assert(db.keys_fresh(unit_set.family_spec().raw(), unit_set.raws()));
        }
        let created = db.new_family(unit_set);
        proof {
            assert(created is Ok);
            assert(db.family_components().dom() =~= Set::<u64>::empty().insert(db.unit_family().raw()));
        }
        db
    }

    /// The unit component type.
    pub fn unit_component(&self) -> (r: ComponentType)
        ensures
            r == self.unit_spec(),
    {
        self.unit
    }

    /// The family the transfer graph of family `f` records an entity going to
    /// when it gains component type `c`, if it records one.
    pub open spec fn add_edge_of(self, f: u64, c: u64) -> Option<FamilyId> {
        let graphs = self.maps_spec().transfer_graphs();
        if graphs.contains_key(f) && graphs[f].contains_key(c) {
            match graphs[f][c] {
                TransferEdge::Add(g) => Some(g),
                TransferEdge::Remove(_) => None,
            }
        } else {
            None
        }
    }

    /// The family an entity of family `curr` belongs to once it also holds
    /// `component`: the one the transfer graph of `curr` records, or else the
    /// family of exactly those components, made when there is none yet. A new
    /// edge is recorded both ways between the two families. A family that has
    /// to be made must have free id and column keys (see [Self::add_component]).
    fn family_after_add(&mut self, curr: &FamilyId, component: &ComponentType) -> (r: Result<FamilyId, DbError>)
        requires
            old(self).wf(),
            old(self).family_components().contains_key(curr.raw()),
            old(self).family_components()[curr.raw()].raws().len() < 31,
            !old(self).add_fails(old(self).family_components()[curr.raw()].raw_set(), component.0.0),
        ensures
            final(self).wf(),
            final(self).unit_spec() == old(self).unit_spec(),
            final(self).allocator_spec() == old(self).allocator_spec(),
            final(self).headers_spec() == old(self).headers_spec(),
            final(self).entity_families() == old(self).entity_families(),
            forall|g: u64| #[trigger] old(self).tables_spec().contains_key(g) ==>
                final(self).tables_spec().contains_key(g) && final(self).tables_spec()[g] == old(self).tables_spec()[g],
            forall|k: u64| #[trigger] old(self).columns_spec().contains_key(k) ==>
                final(self).columns_spec().contains_key(k) && final(self).columns_spec()[k] == old(self).columns_spec()[k],
            forall|g: u64| #[trigger] old(self).family_components().contains_key(g) ==>
                final(self).family_components().contains_key(g) && final(self).family_components()[g] == old(self).family_components()[g],
            forall|x: u64, c: u64| #[trigger] final(self).component_value(x, c) == old(self).component_value(x, c),
            r is Ok,
            old(self).add_edge_of(curr.raw(), component.0.0) is Some ==> {
                &&& r == Ok::<FamilyId, DbError>(old(self).add_edge_of(curr.raw(), component.0.0).unwrap())
                &&& *final(self) == *old(self)
            },
            old(self).add_edge_of(curr.raw(), component.0.0) is None
                && old(self).family_components()[curr.raw()].raw_set().contains(component.0.0) ==> {
                &&& r == Ok::<FamilyId, DbError>(*curr)
                &&& *final(self) == *old(self)
            },
            r matches Ok(g) ==> !old(self).family_components()[curr.raw()].raw_set().contains(component.0.0) ==> {
                &&& final(self).add_edge_of(curr.raw(), component.0.0) == Some(g)
                &&& old(self).add_edge_of(curr.raw(), component.0.0) is None ==> {
                    &&& final(self).maps_spec().transfer_graphs().contains_key(g.raw())
                    &&& final(self).maps_spec().transfer_graphs()[g.raw()].contains_key(component.0.0)
                    &&& final(self).maps_spec().transfer_graphs()[g.raw()][component.0.0] == TransferEdge::Remove(*curr)
                }
            },
            match r {
                Ok(g) => {
                    &&& final(self).family_components().contains_key(g.raw())
                    &&& final(self).family_components()[g.raw()].raw_set()
                        == old(self).family_components()[curr.raw()].raw_set().insert(component.0.0)
                },
                Err(_) => false,
            },
    {
        proof {
            reveal(EntityDatabase::families_wf);
            reveal(EntityDatabase::edges_wf);
        }
        let ghost old_self = *self;
        let ghost set = self.family_components()[curr.raw()].raw_set();
        let ghost s = set.insert(component.0.0);
        match self.maps.transfer_edge(curr, component) {
            Some(TransferEdge::Add(family)) => {
                proof {
                    lemma_wf_frame(old_self, *self);
                    assert(old_self.maps_spec().transfer_graphs().contains_key(curr.raw()));
                    assert(self.family_components().contains_key(family.raw()));
                    old_self.lemma_registered_set(family.raw());
                }
                return Ok(family);
            },
            _ => {},
        }
        let components = match self.maps.components_of(curr) {
            Some(set) => set.duplicate(),
            None => return Err(DbError::EntityBelongsToUnknownFamily),
        };
        if components.contains(component) {
            proof {
                assert(components.raw_set().insert(component.0.0) =~= components.raw_set());
                lemma_wf_frame(old_self, *self);
            }
            return Ok(*curr);
        }
        let new_components = components.with(*component);
        proof {
            assert(new_components.raw_set().contains(self.unit_raw())) by {
                assert(old_self.family_ok(curr.raw()));
            }
            assert(new_components.raw_set() == s);
        }
        let family = match self.maps.family_of_set(&new_components) {
            Some(family) => {
                proof {
                    old_self.lemma_registered_set(family.raw());
                }
                family
            },
            None => {
                proof {
                    assert(!old_self.set_registered(s)) by {
                        if old_self.set_registered(s) {
                            let f = crate::component::family_of_raw_set(s).raw();
                            old_self.lemma_registered_set(f);
                        }
                    }
                }
                match self.new_family(new_components) {
                    Ok(family) => family,
                    Err(e) => {
                        proof {
                            lemma_wf_frame(old_self, *self);
                        }
                        return Err(e);
                    },
                }
            },
        };
        let ghost mid = *self;
        proof {
            reveal(EntityDatabase::families_wf);
            assert(mid.maps_spec().transfer_graphs().contains_key(curr.raw()));
            assert(mid.maps_spec().transfer_graphs().contains_key(family.raw()));
        }
        self.maps.set_transfer_edge(curr, component, TransferEdge::Add(family));
        self.maps.set_transfer_edge(&family, component, TransferEdge::Remove(*curr));
        proof {
            assert(curr.raw() != family.raw()) by {
                assert(mid.family_components()[family.raw()].raw_set().contains(component.0.0));
            }
            assert(self.maps_spec().transfer_graphs().dom() =~= mid.maps_spec().transfer_graphs().dom());
            lemma_add_edges_wf(mid, *self, *curr, component.0.0, family);
        }
        Ok(family)
    }

    /// The family an entity of `family` belongs to after the change `delta`:
    /// the same family when it already holds the added component, else see
    /// [Self::family_after_add]. Removing components is not supported.
    fn find_new_family(&mut self, family: &FamilyId, delta: &ComponentDelta) -> (r: Result<FamilyId, DbError>)
        requires
            old(self).wf(),
            delta is Add,
            old(self).family_components().contains_key(family.raw()),
            old(self).family_components()[family.raw()].raws().len() < 31,
            !old(self).add_fails(old(self).family_components()[family.raw()].raw_set(),
                match *delta { ComponentDelta::Add(c) => c.0.0, ComponentDelta::Rem(c) => c.0.0 }),
        ensures
            final(self).wf(),
            final(self).unit_spec() == old(self).unit_spec(),
            final(self).allocator_spec() == old(self).allocator_spec(),
            final(self).headers_spec() == old(self).headers_spec(),
            final(self).entity_families() == old(self).entity_families(),
            forall|g: u64| #[trigger] old(self).tables_spec().contains_key(g) ==>
                final(self).tables_spec().contains_key(g) && final(self).tables_spec()[g] == old(self).tables_spec()[g],
            forall|g: u64| #[trigger] old(self).family_components().contains_key(g) ==>
                final(self).family_components().contains_key(g) && final(self).family_components()[g] == old(self).family_components()[g],
            forall|x: u64, c: u64| #[trigger] final(self).component_value(x, c) == old(self).component_value(x, c),
            ({
                let c = match *delta { ComponentDelta::Add(c) => c.0.0, ComponentDelta::Rem(c) => c.0.0 };
                let set = old(self).family_components()[family.raw()].raw_set();
                &&& r is Ok
                &&& r matches Ok(g) ==> {
                        &&& final(self).family_components().contains_key(g.raw())
                        &&& final(self).tables_spec().contains_key(g.raw())
                        &&& final(self).family_components()[g.raw()].raw_set() == set.insert(c)
                        &&& (g == *family) == set.contains(c)
                    }
            }),
    {
        match delta {
            ComponentDelta::Add(component) => {
                let ghost old_self = *self;
                if let Some(components) = self.maps.components_of(family) {
                    if components.contains(component) {
                        proof {
                            reveal(EntityDatabase::families_wf);
                            assert(components.raw_set().insert(component.0.0) =~= components.raw_set());
                            assert(components.raw_set().contains(component.0.0));
                            assert(self.tables_spec().contains_key(family.raw()));
                        }
                        return Ok(*family);
                    }
                }
                let r = self.family_after_add(family, component);
                proof {
                    reveal(EntityDatabase::families_wf);
                    if let Ok(g) = r {
                        let set = old_self.family_components()[family.raw()].raw_set();
                        assert(self.family_components().contains_key(g.raw()));
                        assert(self.tables_spec().contains_key(g.raw()));
                        if g == *family {
                            assert(self.family_components()[g.raw()] == old_self.family_components()[family.raw()]);
                            assert(set.insert(component.0.0).contains(component.0.0));
                        }
                    }
                }
                r
            },
            ComponentDelta::Rem(_) => {
                proof {
                    assert(false);
                }
                Err(DbError::FailedToResolveTransfer)
            },
        }
    }

    /// True when [Self::add_component] may be called with `entity` and
    /// `component_type`: the entity is not live, or the family of its components
    /// and this one is registered, or its id and column keys are free.
    pub fn can_add_component(&self, entity: &EntityId, component_type: &ComponentType) -> (r: bool)
        requires
            self.wf(),
        ensures
            r == (self.entity_families().contains_key(entity.raw()) ==> !self.add_fails(
                self.family_components()[self.entity_families()[entity.raw()].raw()].raw_set(), component_type.0.0)),
    {
        proof {
            reveal(EntityDatabase::families_wf);
            reveal(EntityDatabase::entities_wf);
        }
        let family = match self.maps.family_of_entity(entity) {
            Some(f) => f,
            None => return true,
        };
        proof {
            assert(self.entity_families().contains_key(entity.raw()));
            assert(self.tables_spec().contains_key(family.raw()));
        }
        let components = match self.maps.components_of(&family) {
            Some(set) => set,
            None => return true,
        };
        let ghost set = components.raw_set();
        let ghost s = set.insert(component_type.0.0);
        if components.contains(component_type) {
            return true;
        }
        let new_components = components.with(*component_type);
        match self.maps.family_of_set(&new_components) {
            Some(f) => {
                proof {
                    self.lemma_registered_set(f.raw());
                }
                return true;
            },
            None => {
                proof {
                    assert(!self.set_registered(s)) by {
                        if self.set_registered(s) {
                            let f = crate::component::family_of_raw_set(s).raw();
                            self.lemma_registered_set(f);
                        }
                    }
                }
            },
        }
        let new_family = new_components.family_id();
        let members = new_components.to_vec();
        !self.tables.contains_key(&new_family.0.0) && self.fresh_keys(new_family, &members)
    }

    /// Adds a component of type `component_type` with value `component` to
    /// `entity`, moving the entity to the family of its components and this one
    /// (made when there is none yet); the entity's other components keep their
    /// values. Adding a component the entity holds replaces its value; the unit
    /// type keeps no value. The family of `n` component types has 2^n subsets,
    /// which must fit in memory, hence the bound on the entity's components.
    ///
    /// The family of the new components, when it is not registered yet, is made
    /// under the id and column keys that hash its component types. When another
    /// family already holds that id or one of those keys (hashes of different
    /// component sets can coincide), making it would replace that family's table
    /// or column, and that family's entities would hold components at rows no
    /// table records, against the invariant that every column of a family holds
    /// an entity's components at the same row. Such inputs are left out: callers
    /// test them with [Self::can_add_component].
    pub fn add_component(&mut self, entity: EntityId, component_type: ComponentType, component: V) -> (r: Result<(), DbError>)
        requires
            old(self).wf(),
            old(self).entity_families().contains_key(entity.raw()) ==>
                old(self).family_components()[old(self).entity_families()[entity.raw()].raw()].raws().len() < 31,
            old(self).entity_families().contains_key(entity.raw()) ==> !old(self).add_fails(
                old(self).family_components()[old(self).entity_families()[entity.raw()].raw()].raw_set(), component_type.0.0),
        ensures
            final(self).wf(),
            final(self).unit_spec() == old(self).unit_spec(),
            final(self).allocator_spec() == old(self).allocator_spec(),
            !old(self).entity_families().contains_key(entity.raw()) ==> {
                &&& r == Err::<(), DbError>(DbError::EntityDoesntExist(entity))
                &&& *final(self) == *old(self)
            },
            old(self).entity_families().contains_key(entity.raw()) ==> {
                let e = entity.raw();
                let c = component_type.0.0;
                let set = old(self).family_components()[old(self).entity_families()[e].raw()].raw_set();
                &&& {
                    &&& r == Ok::<(), DbError>(())
                    &&& final(self).entity_families()[e].raw() == crate::component::family_of_raw_set(set.insert(c)).raw()
                    &&& final(self).entity_families().dom() == old(self).entity_families().dom()
                    &&& set.contains(c) ==> final(self).entity_families() == old(self).entity_families()
                    &&& final(self).component_types(e) == set.insert(c)
                    &&& final(self).component_value(e, c) == (if c != old(self).unit_raw() { Some(component) } else { None::<V> })
                    &&& forall|x: u64, k: u64| !(x == e && k == c) ==>
                        #[trigger] final(self).component_value(x, k) == old(self).component_value(x, k)
                    &&& final(self).headers_spec() == old(self).headers_spec().insert(c, ColumnHeader { tyid: component_type.0 })
                }
            },
    {
        let ghost old_self = *self;
        let family = match self.maps.family_of_entity(&entity) {
            Some(f) => f,
            None => return Err(DbError::EntityDoesntExist(entity)),
        };
        proof {
            reveal(EntityDatabase::families_wf);
            reveal(EntityDatabase::entities_wf);
            assert(old_self.tables_spec().contains_key(family.raw()));
        }
        let delta = ComponentDelta::Add(component_type);
        let new_family = match self.find_new_family(&family, &delta) {
            Ok(f) => f,
            Err(e) => return Err(e),
        };
        let ghost mid = *self;
        let ghost set = old_self.family_components()[family.raw()].raw_set();
        let ghost c = component_type.0.0;
        if !(family == new_family) {
            proof {
                assert(!set.contains(c));
                assert(set.contains(old_self.unit_raw())) by {
                    assert(old_self.family_ok(family.raw()));
                }
            }
            match self.resolve_entity_transfer(&entity, &new_family, Ghost(c)) {
                Ok(()) => {},
                Err(e) => return Err(e),
            }
        } else {
            proof {
                assert(set.contains(c));
            }
        }
        let ghost before_set = *self;
        match self.set_component_for(&entity, &component_type, component) {
            Ok(()) => {},
            Err(e) => return Err(e),
        }
        let ghost after_set = *self;
        self.headers.insert(component_type.0.0, ColumnHeader { tyid: component_type.0 });
        proof {
            lemma_wf_frame(after_set, *self);
            assert(self.entity_families().dom() =~= old_self.entity_families().dom());
            let e = entity.raw();
            assert(self.entity_families()[e] == new_family);
            assert(mid.family_components()[new_family.raw()].raw_set() == set.insert(c));
            assert(self.family_components() == mid.family_components());
            assert(self.component_types(e) == set.insert(c));
            assert(self.component_value(e, c) == (if c != old_self.unit_raw() { Some(component) } else { None::<V> }));
            assert(!old_self.add_fails(set, c));
            assert(self.headers_spec() == old_self.headers_spec().insert(c, ColumnHeader { tyid: component_type.0 }));
            assert forall|x: u64, k: u64| !(x == e && k == c) implies
                #[trigger] self.component_value(x, k) == old_self.component_value(x, k) by {
                assert(self.component_value(x, k) == after_set.component_value(x, k));
                assert(after_set.component_value(x, k) == before_set.component_value(x, k));
                assert(before_set.component_value(x, k) == mid.component_value(x, k));
                assert(mid.component_value(x, k) == old_self.component_value(x, k));
            }
        }
        Ok(())
    }

    /// True when the columns of family `family` with the component types
    /// `members` clash neither with existing columns nor with each other.
    fn fresh_keys(&self, family: FamilyId, members: &Vec<ComponentType>) -> (r: bool)
        ensures
            r == self.keys_fresh(family.raw(), crate::component::raws_of(members@)),
    {
        let ghost raws = crate::component::raws_of(members@);
        let mut i: usize = 0;
        while i < members.len()
            invariant
                i <= members@.len(),
                raws == crate::component::raws_of(members@),
                forall|a: int| 0 <= a < i && raws[a] != self.unit_raw() ==>
                    !self.columns_spec().contains_key(#[trigger] key_raw(family.raw(), raws[a])),
                forall|a: int, b: int| 0 <= a < b < i && raws[a] != self.unit_raw() && raws[b] != self.unit_raw() ==>
                    #[trigger] key_raw(family.raw(), raws[a]) != #[trigger] key_raw(family.raw(), raws[b]),
            decreases members@.len() - i,
        {
            if members[i].0.0 != self.unit.0.0 {
                let key = ColumnKey::new(family, members[i].0.0).raw();
                if self.columns.contains_key(&key) {
                    assert(raws[i as int] != self.unit_raw() && self.columns_spec().contains_key(key_raw(family.raw(), raws[i as int])));
                    return false;
                }
                let mut j: usize = 0;
                while j < i
                    invariant
                        j <= i,
                        i < members@.len(),
                        raws == crate::component::raws_of(members@),
                        raws[i as int] != self.unit_raw(),
                        key == key_raw(family.raw(), raws[i as int]),
                        forall|b: int| 0 <= b < j && raws[b] != self.unit_raw() ==>
                            #[trigger] key_raw(family.raw(), raws[b]) != key,
                    decreases i - j,
                {
                    if members[j].0.0 != self.unit.0.0 {
                        let other = ColumnKey::new(family, members[j].0.0).raw();
                        if other == key {
                            assert(0 <= j < i < raws.len() && raws[j as int] != self.unit_raw() && raws[i as int] != self.unit_raw()
                                && key_raw(family.raw(), raws[j as int]) == key_raw(family.raw(), raws[i as int]));
                            return false;
                        }
                    }
                    j = j + 1;
                }
            }
            i = i + 1;
        }
        true
    }

    /// Makes the family of `components`: its table, an empty column for each
    /// of its component types but the unit type, and its mappings. Its id and
    /// column keys must be free (see [Self::add_component]).
    fn new_family(&mut self, components: ComponentTypeSet) -> (r: Result<FamilyId, DbError>)
        requires
            old(self).core_wf(),
            components.raws().len() < 32,
            components.raws() == crate::component::sorted_raws(components.raw_set()),
            crate::component::strictly_sorted(components.raws()),
            components.raw_set().contains(old(self).unit_raw()),
            old(self).can_make_family(components),
        ensures
            final(self).core_wf(),
            final(self).unit_registered() == (old(self).unit_registered()
                || (old(self).can_make_family(components) && components.raws() == seq![old(self).unit_raw()])),
            final(self).unit_spec() == old(self).unit_spec(),
            final(self).allocator_spec() == old(self).allocator_spec(),
            final(self).headers_spec() == old(self).headers_spec(),
            final(self).entity_families() == old(self).entity_families(),
            ({
                let f = components.family_spec();
                let t = final(self).tables_spec()[f.raw()];
                &&& r == Ok::<FamilyId, DbError>(f)
                &&& final(self).family_components() == old(self).family_components().insert(f.raw(), components)
                &&& final(self).tables_spec().dom() == old(self).tables_spec().dom().insert(f.raw())
                &&& forall|g: u64| #[trigger] old(self).tables_spec().contains_key(g) ==> final(self).tables_spec()[g] == old(self).tables_spec()[g]
                &&& t.family_spec() == f
                &&& t.components_spec().raws() == components.raws()
                &&& t.rows() == Map::<u64, usize>::empty()
                &&& t.free_rows() == Seq::<usize>::empty()
                &&& forall|k: u64| #[trigger] old(self).columns_spec().contains_key(k) ==>
                    final(self).columns_spec().contains_key(k) && final(self).columns_spec()[k] == old(self).columns_spec()[k]
                &&& forall|c: u64| #[trigger] t.columns_spec().contains_key(c) ==>
                    final(self).column_of(f.raw(), c).rows() == Seq::<(EntityId, V)>::empty()
                &&& forall|k: u64| #[trigger] final(self).columns_spec().contains_key(k) ==>
                    old(self).columns_spec().contains_key(k) || exists|c: u64| #[trigger] t.columns_spec().contains_key(c) && key_raw(f.raw(), c) == k
                &&& final(self).maps_spec().transfer_graphs() == old(self).maps_spec().transfer_graphs().insert(f.raw(), Map::<u64, TransferEdge>::empty())
            }),
    {
        proof { reveal(EntityDatabase::indexes_wf); }
        let family = components.family_id();
        let members = components.to_vec();
        let ghost old_self = *self;
        let ghost raws = components.raws();
        let mut table = Table::new(family, components.duplicate());
        let mut i: usize = 0;
        while i < members.len()
            invariant
                i <= members@.len(),
                members@ == components.members(),
                crate::component::raws_of(members@) == raws,
                raws == components.raws(),
                self.unit == old_self.unit,
                old_self.keys_fresh(family.raw(), raws),
                table.family_spec() == family,
                table.components_spec().raws() == raws,
                table.rows() == Map::<u64, usize>::empty(),
                table.free_rows() == Seq::<usize>::empty(),
                forall|c: u64| #[trigger] table.columns_spec().contains_key(c) ==
                    (raws.take(i as int).contains(c) && c != old_self.unit_raw()),
                forall|c: u64| #[trigger] table.columns_spec().contains_key(c) ==> {
                    &&& table.columns_spec()[c] == ColumnKey::key_of(family, c)
                    &&& self.columns@.contains_key(key_raw(family.raw(), c))
                    &&& self.columns@[key_raw(family.raw(), c)].rows() == Seq::<(EntityId, V)>::empty()
                },
                forall|k: u64| #[trigger] old_self.columns@.contains_key(k) ==>
                    self.columns@.contains_key(k) && self.columns@[k] == old_self.columns@[k],
                forall|k: u64| #[trigger] self.columns@.contains_key(k) ==>
                    old_self.columns@.contains_key(k) || exists|c: u64| #[trigger] table.columns_spec().contains_key(c) && key_raw(family.raw(), c) == k,
                self.tables@ == old_self.tables@,
                self.maps == old_self.maps,
                self.headers@ == old_self.headers@,
                self.allocator == old_self.allocator,
            decreases members@.len() - i,
        {
            let ghost t0 = raws.take(i as int);
            let ghost t1 = raws.take(i as int + 1);
            proof {
                assert(t1 =~= t0.push(raws[i as int]));
                assert forall|x: u64| t1.contains(x) == (t0.contains(x) || x == raws[i as int]) by {
                    if t1.contains(x) {
                        let j = t1.index_of(x);
                        if j < i {
                            assert(t0[j] == x);
                        }
                    }
                    if t0.contains(x) {
                        let j = t0.index_of(x);
                        assert(t1[j] == x);
                    }
                    if x == raws[i as int] {
                        assert(t1[i as int] == x);
                    }
                }
            }
            if members[i].0.0 != self.unit.0.0 {
                let key = ColumnKey::new(family, members[i].0.0);
                proof {
                    assert(!old_self.columns@.contains_key(key_raw(family.raw(), raws[i as int])));
                    assert forall|c: u64| #[trigger] table.columns_spec().contains_key(c) implies
                        key_raw(family.raw(), c) != key.0.0 by {
                        let j = t0.index_of(c);
                        assert(raws[j] == c);
                        assert(key_raw(family.raw(), raws[j]) != key_raw(family.raw(), raws[i as int]));
                    }
                }
                let ghost before = table;
                self.columns.insert(key.raw(), ColumnInner::new());
                table.update_column_map(members[i], key);
                proof {
                    assert(table.columns_spec().contains_key(raws[i as int]));
                    assert forall|k: u64| #[trigger] self.columns@.contains_key(k) implies
                        old_self.columns@.contains_key(k) || exists|c: u64| #[trigger] table.columns_spec().contains_key(c) && key_raw(family.raw(), c) == k by {
                        if k == key.0.0 {
                            assert(table.columns_spec().contains_key(raws[i as int]) && key_raw(family.raw(), raws[i as int]) == k);
                        } else if !old_self.columns@.contains_key(k) {
                            let c = choose|c: u64| #[trigger] before.columns_spec().contains_key(c) && key_raw(family.raw(), c) == k;
                            assert(table.columns_spec().contains_key(c));
                        }
                    }
                }
            }
            i = i + 1;
        }
        proof {
            assert(raws.take(members@.len() as int) =~= raws);
        }
        let ghost t = table;
        let ghost comps = components;
        self.tables.insert(family.0.0, table);
        self.maps.register_family(family, components);
        proof {
            lemma_new_family_wf(old_self, *self, family.raw(), t, comps);
        }
        Ok(family)
    }
}


impl<V> EntityDatabase<V> {
    /// A live entity holds a value for each of its component types but the
    /// unit type, and for no other type.
    pub proof fn lemma_values_match_types(self, e: u64, c: u64)
        requires
            self.wf(),
        ensures
            self.component_value(e, c).is_some() <==> (self.component_types(e).contains(c) && c != self.unit_raw()),
    {
        reveal(EntityDatabase::families_wf);
        reveal(EntityDatabase::entities_wf);
        reveal(EntityDatabase::layout_wf);
        if self.entity_families().contains_key(e) {
            let f = self.entity_families()[e].raw();
            let t = self.tables_spec()[f];
            assert(self.tables_spec().contains_key(f));
            assert(self.family_ok(f));
            assert(self.family_components().contains_key(f));
            if t.columns_spec().contains_key(c) {
                assert(self.column_key_of(f, c) == key_raw(f, c));
                assert(self.layout_ok(f, c));
                lemma_column_entities(self.column_of(f, c));
                assert(t.rows().contains_key(e));
            }
        }
    }

    /// Every live entity is in the table of its family, and a table holds only
    /// entities of its family.
    pub proof fn lemma_entities_in_tables(self, e: u64, f: u64)
        requires
            self.wf(),
        ensures
            self.entity_families().contains_key(e) ==> {
                &&& self.family_components().contains_key(self.entity_families()[e].raw())
                &&& self.tables_spec().contains_key(self.entity_families()[e].raw())
                &&& self.tables_spec()[self.entity_families()[e].raw()].rows().contains_key(e)
            },
            self.tables_spec().contains_key(f) && self.tables_spec()[f].rows().contains_key(e) ==>
                self.entity_families().contains_key(e) && self.entity_families()[e].raw() == f,
    {
        reveal(EntityDatabase::entities_wf);
        reveal(EntityDatabase::families_wf);
    }

    /// In every column of a family, row `i` holds the entity whose row in the
    /// family's table is `i`.
    pub proof fn lemma_rows_line_up(self, f: u64, c: u64)
        requires
            self.wf(),
            self.tables_spec().contains_key(f),
            self.tables_spec()[f].columns_spec().contains_key(c),
        ensures
            layout_of(self.tables_spec()[f].rows(), self.column_of(f, c).entities()),
    {
        reveal(EntityDatabase::layout_wf);
        assert(self.layout_ok(f, c));
    }

    /// The columns of one family agree row by row: the same entity sits at the
    /// same row of each of them.
    pub proof fn lemma_columns_agree(self, f: u64, c1: u64, c2: u64)
        requires
            self.wf(),
            self.tables_spec().contains_key(f),
            self.tables_spec()[f].columns_spec().contains_key(c1),
            self.tables_spec()[f].columns_spec().contains_key(c2),
        ensures
            self.column_of(f, c1).entities().len() == self.column_of(f, c2).entities().len(),
            forall|i: int| 0 <= i < self.column_of(f, c1).entities().len() ==>
                #[trigger] self.column_of(f, c1).entities()[i].raw() == self.column_of(f, c2).entities()[i].raw(),
    {
        self.lemma_rows_line_up(f, c1);
        self.lemma_rows_line_up(f, c2);
        let rows = self.tables_spec()[f].rows();
        let e1 = self.column_of(f, c1).entities();
        let e2 = self.column_of(f, c2).entities();
        assert forall|i: int| 0 <= i < e1.len() implies #[trigger] e1[i].raw() == e2[i].raw() by {
            assert(rows.contains_key(e1[i].raw()));
        }
    }

    /// A family is listed under a component type exactly when it holds it.
    pub proof fn lemma_component_index(self, c: u64, f: u64)
        requires
            self.wf(),
        ensures
            (self.maps_spec().containing_component().contains_key(c) && self.maps_spec().containing_component()[c].contains(f))
                <==> (self.family_components().contains_key(f) && self.family_components()[f].raw_set().contains(c)),
    {
        reveal(EntityDatabase::indexes_wf);
    }

    /// A family is listed under a set of component types exactly when it holds
    /// each of them; every subset of a family's components is listed.
    pub proof fn lemma_set_index(self, k: Seq<u64>, f: u64)
        requires
            self.wf(),
        ensures
            self.maps_spec().set_families(k).contains(f)
                <==> (self.family_components().contains_key(f) && is_pick_of(k, self.family_components()[f].raws())),
            self.family_components().contains_key(f) && is_pick_of(k, self.family_components()[f].raws())
                ==> self.maps_spec().has_set(k),
    {
        reveal(EntityDatabase::indexes_wf);
    }

    /// A recorded transfer edge of family `f` for component type `c` leads to
    /// the family with `c` added (an `Add` edge) or taken away (a `Remove` edge).
    pub proof fn lemma_edges_lead_to_neighbours(self, f: u64, c: u64)
        requires
            self.wf(),
            self.maps_spec().transfer_graphs().contains_key(f),
            self.maps_spec().transfer_graphs()[f].contains_key(c),
        ensures
            match self.maps_spec().transfer_graphs()[f][c] {
                TransferEdge::Add(g) => self.family_components().contains_key(g.raw()) && self.family_components().contains_key(f)
                    && self.family_components()[g.raw()].raw_set() == self.family_components()[f].raw_set().insert(c),
                TransferEdge::Remove(g) => self.family_components().contains_key(g.raw()) && self.family_components().contains_key(f)
                    && self.family_components()[g.raw()].raw_set().insert(c) == self.family_components()[f].raw_set(),
            },
    {
        reveal(EntityDatabase::edges_wf);
    }

    /// Every family holds the unit component type, in at most 31 types, and
    /// the family of the unit type alone is registered.
    pub proof fn lemma_families_hold_unit(self, f: u64)
        requires
            self.wf(),
            self.family_components().contains_key(f),
        ensures
            self.family_components()[f].raw_set().contains(self.unit_raw()),
            self.family_components()[f].raws().len() < 32,
            self.family_components().contains_key(self.unit_family().raw()),
            self.family_components()[self.unit_family().raw()].raws() == seq![self.unit_raw()],
    {
        reveal(EntityDatabase::families_wf);
        assert(self.tables_spec().contains_key(f));
        assert(self.family_ok(f));
    }
}

} // verus!
