//! Sets of family ids.
//!
//! The families that hold a component, or a set of components, are kept in a
//! concurrent set of raw family ids, together with an order independent id of
//! the families the set was made with.

use vstd::prelude::*;
use dashmap::DashSet;
use crate::id::FamilyId;
use crate::commutative::{CommutativeId, commutative_hash, lemma_commutative_hash_order_independent};

verus! {

#[verifier::external_type_specification]
#[verifier::external_body]
#[verifier::reject_recursive_types(K)]
#[verifier::reject_recursive_types(S)]
pub struct ExDashSet<K, S>(DashSet<K, S>);

/// The raw family ids held by a concurrent set.
pub uninterp spec fn dash_set_contents(set: DashSet<u64>) -> Set<u64>;

/// Calls `DashSet::new`: the new set holds nothing.
#[verifier::external_body]
fn dash_set_new() -> (r: DashSet<u64>)
    ensures
        dash_set_contents(r) == Set::<u64>::empty(),
{
    DashSet::new()
}

/// Calls `DashSet::insert`: afterwards the set holds `key` besides what it held,
/// and the call returns true when `key` was not held before.
#[verifier::external_body]
fn dash_set_insert(set: &mut DashSet<u64>, key: u64) -> (r: bool)
    ensures
        dash_set_contents(*final(set)) == dash_set_contents(*old(set)).insert(key),
        r == !dash_set_contents(*old(set)).contains(key),
{
    set.insert(key)
}

/// Calls `DashSet::contains`: true when the set holds `key`.
#[verifier::external_body]
fn dash_set_contains(set: &DashSet<u64>, key: u64) -> (r: bool)
    ensures
        r == dash_set_contents(*set).contains(key),
{
    set.contains(&key)
}

/// Walks the set with `DashSet::iter`, copying each id out: every id held comes
/// out once. The order is the set's own, which depends on its hasher, so nothing
/// is said of it.
#[verifier::external_body]
fn dash_set_items(set: &DashSet<u64>) -> (r: Vec<u64>)
    ensures
        r@.to_set() == dash_set_contents(*set),
        r@.no_duplicates(),
{
    set.iter().map(|item| *item).collect()
}

/// Two sequences without duplicates that hold the same elements hold them
/// the same number of times.
pub proof fn lemma_unique_seqs_same_multiset(a: Seq<u64>, b: Seq<u64>)
    requires
        a.no_duplicates(),
        b.no_duplicates(),
        a.to_set() == b.to_set(),
    ensures
        a.to_multiset() == b.to_multiset(),
{
    broadcast use vstd::seq_lib::group_to_multiset_ensures;
    a.lemma_multiset_has_no_duplicates();
    b.lemma_multiset_has_no_duplicates();
    assert forall|x: u64| a.to_multiset().count(x) == b.to_multiset().count(x) by {
        assert(a.to_set().contains(x) == a.contains(x));
        assert(b.to_set().contains(x) == b.contains(x));
    }
    assert(a.to_multiset() =~= b.to_multiset());
}

/// The raw ids of a sequence of families.
pub open spec fn family_raws(families: Seq<FamilyId>) -> Seq<u64> {
    families.map_values(|f: FamilyId| f.raw())
}

/// A set of families, with the order independent id of the families it was made with.
pub struct FamilyIdSet {
    set_id: CommutativeId,
    set: DashSet<u64>,
}

impl FamilyIdSet {
    /// The raw ids of the families in the set.
    pub closed spec fn contents(self) -> Set<u64> {
        dash_set_contents(self.set)
    }

    /// The id of the families the set was made with.
    pub closed spec fn set_id_spec(self) -> CommutativeId {
        self.set_id
    }

    /// The set of the given families; its id is the order independent hash of
    /// their distinct raw ids.
    pub fn from_families(families: &[FamilyId]) -> (r: FamilyIdSet)
        ensures
            r.contents() == family_raws(families@).to_set(),
            forall|s: Seq<u64>| #![trigger commutative_hash(s)]
                s.no_duplicates() && s.to_set() == r.contents() ==> r.set_id_spec().0 == commutative_hash(s),
    {
        let mut set = dash_set_new();
        let mut i: usize = 0;
        while i < families.len()
            invariant
                i <= families@.len(),
                dash_set_contents(set) == family_raws(families@.take(i as int)).to_set(),
            decreases families@.len() - i,
        {
            dash_set_insert(&mut set, families[i].0.0);
            proof {
                assert(family_raws(families@.take(i as int + 1)) =~= family_raws(families@.take(i as int)).push(families@[i as int].raw()));
                family_raws(families@.take(i as int)).lemma_push_to_set_commute(families@[i as int].raw());
            }
            i = i + 1;
        }
        assert(families@.take(families@.len() as int) =~= families@);
        let items = dash_set_items(&set);
        let set_id = CommutativeId::from_raw_ids(items.as_slice());
        proof {
            assert forall|s: Seq<u64>| #![trigger commutative_hash(s)]
                s.no_duplicates() && s.to_set() == dash_set_contents(set) implies set_id.0 == commutative_hash(s) by {
                lemma_unique_seqs_same_multiset(items@, s);
                lemma_commutative_hash_order_independent(items@, s);
            }
        }
        FamilyIdSet { set_id, set }
    }

    /// True when the set holds the family.
    pub fn contains(&self, id: &FamilyId) -> (r: bool)
        ensures
            r == self.contents().contains(id.raw()),
    {
        dash_set_contains(&self.set, id.0.0)
    }

    /// Adds the family to the set; the id of the set stays that of the families
    /// it was made with.
    pub fn insert(&mut self, family_id: FamilyId)
        ensures
            final(self).contents() == old(self).contents().insert(family_id.raw()),
            final(self).set_id_spec() == old(self).set_id_spec(),
    {
        dash_set_insert(&mut self.set, family_id.0.0);
    }

    /// The families of the set, each once, in no particular order.
    pub fn clone_into_vec(&self) -> (r: Vec<FamilyId>)
        ensures
            family_raws(r@).to_set() == self.contents(),
            family_raws(r@).no_duplicates(),
    {
        let items = dash_set_items(&self.set);
        let mut out: Vec<FamilyId> = Vec::new();
        let mut i: usize = 0;
        while i < items.len()
            invariant
                i <= items@.len(),
                family_raws(out@) == items@.take(i as int),
            decreases items@.len() - i,
        {
            let ghost before = out@;
            out.push(FamilyId(CommutativeId(items[i])));
            assert(family_raws(out@) =~= family_raws(before).push(items@[i as int]));
            assert(items@.take(i as int + 1) =~= items@.take(i as int).push(items@[i as int]));
            i = i + 1;
        }
        assert(items@.take(items@.len() as int) =~= items@);
        out
    }

    /// The id of the families the set was made with.
    pub fn set_id(&self) -> (r: CommutativeId)
        ensures
            r == self.set_id_spec(),
    {
        self.set_id
    }
}

} // verus!
