//! Components, component types and sets of component types.

use vstd::prelude::*;
use crate::tyid::{StableTypeId, fnv1a_64};
use vstd::string::StringSliceAdditionalSpecFns;
use crate::id::FamilyId;
use crate::commutative::{CommutativeId, commutative_hash};
use itertools::Itertools;
use vstd::arithmetic::power2::pow2;

verus! {

/// The core component trait.
///
/// Users implement this trait on any struct or enum they wish to use as
/// components in an entity database.
pub trait Component: Default + core::fmt::Debug + 'static {
    fn is_query_component() -> (r: bool)
        default_ensures
            r == false,
    {
        false
    }
}

/// The unit component: every entity gets it when it is created.
impl Component for () {}

/// A unique identifier for a component type.
#[derive(Copy, Clone, Debug, PartialEq, Eq, Structural, PartialOrd, Ord, Hash)]
pub struct ComponentType(pub StableTypeId);

impl ComponentType {
    pub open spec fn raw_spec(self) -> u64 {
        self.0.0
    }

    pub fn inner(&self) -> (r: StableTypeId)
        ensures
            r == self.0,
    {
        self.0
    }

    pub fn from_stable(value: StableTypeId) -> (r: ComponentType)
        ensures
            r.0 == value,
    {
        ComponentType(value)
    }

    /// The component type whose type has the given name.
    pub fn from_type_name(name: &str) -> (r: ComponentType)
        ensures
            r.0.0 == fnv1a_64(name.spec_bytes()),
    {
        ComponentType(StableTypeId::from_type_name(name))
    }

    pub fn raw(&self) -> (r: u64)
        ensures
            r == self.0.0,
    {
        self.0.0
    }
}

/// Describes a component being added to or removed from an entity.
#[derive(Copy, Clone, Debug, PartialEq, Eq, Structural, PartialOrd, Ord, Hash)]
pub enum ComponentDelta {
    Add(ComponentType),
    Rem(ComponentType),
}

/// The raw ids of a sequence of component types.
pub open spec fn raws_of(types: Seq<ComponentType>) -> Seq<u64> {
    types.map_values(|c: ComponentType| c.0.0)
}

/// True when the raw ids are strictly increasing.
pub open spec fn strictly_sorted(raws: Seq<u64>) -> bool {
    forall|i: int, j: int| 0 <= i < j < raws.len() ==> raws[i] < raws[j]
}

/// Two strictly increasing sequences with the same elements are equal.
pub proof fn lemma_sorted_unique(a: Seq<u64>, b: Seq<u64>)
    requires
        strictly_sorted(a),
        strictly_sorted(b),
        a.to_set() == b.to_set(),
    ensures
        a == b,
    decreases a.len(),
{
    if a.len() == 0 {
        if b.len() > 0 {
            assert(b.to_set().contains(b[0]));
        }
        assert(a =~= b);
    } else {
        assert(a.to_set().contains(a[0]));
        assert(b.contains(a[0]));
        assert(b.len() > 0);
        assert(b.to_set().contains(b[0]));
        assert(a.contains(b[0]));
        let i = a.index_of(b[0]);
        let j = b.index_of(a[0]);
        if i > 0 {
            assert(a[0] < a[i]);
        }
        if j > 0 {
            assert(b[0] < b[j]);
        }
        assert(a[0] == b[0]);
        let a1 = a.drop_first();
        let b1 = b.drop_first();
        assert(a1.to_set() =~= b1.to_set()) by {
            assert forall|x: u64| a1.to_set().contains(x) <==> b1.to_set().contains(x) by {
                if a1.contains(x) {
                    let k = a1.index_of(x);
                    assert(a[k + 1] == x);
                    assert(a[0] < x);
                    assert(b.to_set().contains(x));
                    let m = b.index_of(x);
                    assert(m != 0);
                    assert(b1[m - 1] == x);
                }
                if b1.contains(x) {
                    let k = b1.index_of(x);
                    assert(b[k + 1] == x);
                    assert(b[0] < x);
                    assert(a.to_set().contains(x));
                    let m = a.index_of(x);
                    assert(m != 0);
                    assert(a1[m - 1] == x);
                }
            }
        }
        lemma_sorted_unique(a1, b1);
        assert(a =~= b) by {
            assert forall|k: int| 0 <= k < a.len() implies a[k] == b[k] by {
                if k > 0 {
                    assert(a[k] == a1[k - 1]);
                    assert(b[k] == b1[k - 1]);
                }
            }
        }
    }
}

/// The members of a set of raw type ids in increasing order.
pub open spec fn sorted_raws(s: Set<u64>) -> Seq<u64> {
    choose|q: Seq<u64>| strictly_sorted(q) && q.to_set() == s
}

/// The family of exactly the component types whose raw ids make up `s`.
pub open spec fn family_of_raw_set(s: Set<u64>) -> FamilyId {
    FamilyId(CommutativeId(commutative_hash(sorted_raws(s))))
}

/// The positions `idx` are increasing and below `n`.
pub open spec fn increasing_positions(idx: Seq<int>, n: int) -> bool {
    &&& forall|k: int| 0 <= k < idx.len() ==> 0 <= #[trigger] idx[k] < n
    &&& forall|a: int, b: int| 0 <= a < b < idx.len() ==> #[trigger] idx[a] < #[trigger] idx[b]
}

/// The elements of `items` at the positions `idx`, in that order.
pub open spec fn pick<T>(items: Seq<T>, idx: Seq<int>) -> Seq<T> {
    idx.map_values(|i: int| items[i])
}

/// `sub` holds elements of `items` at increasing positions, in their order.
pub open spec fn is_pick_of<T>(sub: Seq<T>, items: Seq<T>) -> bool {
    exists|idx: Seq<int>| #[trigger] increasing_positions(idx, items.len() as int) && sub == pick(items, idx)
}

/// Calls itertools' `powerset` on the component types and collects what it
/// yields. As its documentation states, there are 2^n subsets, each keeps the
/// elements it holds in their order, and every choice of elements comes out;
/// the order in which the subsets come is not stated. The 2^n subsets must fit
/// in memory, hence the bound on `n`.
#[verifier::external_body]
fn powerset_of(items: &Vec<ComponentType>) -> (r: Vec<Vec<ComponentType>>)
    requires
        items@.len() < 32,
    ensures
        r@.len() == pow2(items@.len()),
        forall|k: int| 0 <= k < r@.len() ==> is_pick_of(#[trigger] r@[k]@, items@),
        forall|idx: Seq<int>| #[trigger] increasing_positions(idx, items@.len() as int) ==>
            exists|k: int| 0 <= k < r@.len() && #[trigger] r@[k]@ == pick(items@, idx),
{
    items.iter().cloned().powerset().collect()
}

/// The raw ids of a pick are the pick of the raw ids.
pub proof fn lemma_pick_raws(items: Seq<ComponentType>, idx: Seq<int>)
    requires
        increasing_positions(idx, items.len() as int),
    ensures
        raws_of(pick(items, idx)) == pick(raws_of(items), idx),
{
    assert(raws_of(pick(items, idx)) =~= pick(raws_of(items), idx));
}

/// Picking elements of a strictly increasing sequence at increasing positions
/// gives a strictly increasing sequence.
pub proof fn lemma_pick_sorted(raws: Seq<u64>, idx: Seq<int>)
    requires
        strictly_sorted(raws),
        increasing_positions(idx, raws.len() as int),
    ensures
        strictly_sorted(pick(raws, idx)),
{
    assert forall|i: int, j: int| 0 <= i < j < pick(raws, idx).len() implies pick(raws, idx)[i] < pick(raws, idx)[j] by {
        assert(idx[i] < idx[j]);
        assert(0 <= idx[i] < raws.len());
        assert(0 <= idx[j] < raws.len());
    }
}

/// A set of component types, kept sorted by raw id and without duplicates.
#[derive(Debug)]
pub struct ComponentTypeSet {
    types: Vec<ComponentType>,
}

impl ComponentTypeSet {
    #[verifier::type_invariant]
    closed spec fn sorted_without_duplicates(self) -> bool {
        strictly_sorted(raws_of(self.types@))
    }

    /// The raw ids of the members, in increasing order.
    pub closed spec fn raws(self) -> Seq<u64> {
        raws_of(self.types@)
    }

    /// The members, in increasing order of raw id.
    pub closed spec fn members(self) -> Seq<ComponentType> {
        self.types@
    }

    /// The raw ids of the members, as a set.
    pub open spec fn raw_set(self) -> Set<u64> {
        self.raws().to_set()
    }

    /// The family made of exactly these component types.
    pub open spec fn family_spec(self) -> FamilyId {
        FamilyId(CommutativeId(commutative_hash(self.raws())))
    }

    /// The empty set.
    pub fn new() -> (r: ComponentTypeSet)
        ensures
            r.raws() == Seq::<u64>::empty(),
    {
        ComponentTypeSet { types: Vec::new() }
    }

    /// The set holding only `component`.
    pub fn single(component: ComponentType) -> (r: ComponentTypeSet)
        ensures
            r.raws() == seq![component.0.0],
            r.raws() == sorted_raws(r.raw_set()),
            strictly_sorted(r.raws()),
    {
        let r = ComponentTypeSet { types: vec![component] };
        assert(r.raws() =~= seq![component.0.0]);
        proof { r.lemma_canonical(); }
        r
    }

    /// The number of component types in the set.
    pub fn len(&self) -> (r: usize)
        ensures
            r == self.raws().len(),
    {
        self.types.len()
    }

    /// The component type at position `i` in increasing order of raw id.
    pub fn get(&self, i: usize) -> (r: ComponentType)
        requires
            i < self.raws().len(),
        ensures
            r == self.members()[i as int],
            r.0.0 == self.raws()[i as int],
    {
        self.types[i]
    }

    /// The members, in increasing order of raw id.
    pub fn to_vec(&self) -> (r: Vec<ComponentType>)
        ensures
            r@ == self.members(),
            raws_of(r@) == self.raws(),
    {
        let mut out: Vec<ComponentType> = Vec::new();
        let mut i: usize = 0;
        while i < self.types.len()
            invariant
                i <= self.types@.len(),
                out@ == self.types@.take(i as int),
            decreases self.types@.len() - i,
        {
            out.push(self.types[i]);
            assert(self.types@.take(i as int + 1) =~= self.types@.take(i as int).push(self.types@[i as int]));
            i = i + 1;
        }
        assert(self.types@.take(self.types@.len() as int) =~= self.types@);
        out
    }

    /// A copy of this set.
    pub fn duplicate(&self) -> (r: ComponentTypeSet)
        ensures
            r.raws() == self.raws(),
            r.members() == self.members(),
    {
        proof { use_type_invariant(self); }
        ComponentTypeSet { types: self.to_vec() }
    }

    /// Position at which `raw` is, or would be inserted.
    fn search(&self, raw: u64) -> (r: usize)
        ensures
            r <= self.raws().len(),
            forall|k: int| 0 <= k < r ==> self.raws()[k] < raw,
            forall|k: int| r <= k < self.raws().len() ==> self.raws()[k] >= raw,
    {
        proof { use_type_invariant(self); }
        let mut i: usize = 0;
        while i < self.types.len()
            invariant
                i <= self.types@.len(),
                strictly_sorted(raws_of(self.types@)),
                forall|k: int| 0 <= k < i ==> raws_of(self.types@)[k] < raw,
            decreases self.types@.len() - i,
        {
            if self.types[i].0.0 >= raw {
                assert forall|k: int| i <= k < raws_of(self.types@).len() implies raws_of(self.types@)[k] >= raw by {
                    if k > i {
                        assert(raws_of(self.types@)[i as int] < raws_of(self.types@)[k]);
                    }
                }
                return i;
            }
            i = i + 1;
        }
        i
    }

    /// True when the set holds `component`.
    pub fn contains(&self, component: &ComponentType) -> (r: bool)
        ensures
            r == self.raws().contains(component.0.0),
    {
        proof { use_type_invariant(self); }
        let i = self.search(component.0.0);
        if i < self.types.len() && self.types[i].0.0 == component.0.0 {
            assert(self.raws()[i as int] == component.0.0);
            true
        } else {
            assert(!self.raws().contains(component.0.0)) by {
                if self.raws().contains(component.0.0) {
                    let k = self.raws().index_of(component.0.0);
                    if k < i as int {
                    } else if k == i as int {
                    } else {
                        assert(self.raws()[i as int] < self.raws()[k]);
                    }
                }
            }
            false
        }
    }

    /// Adds `component`, returning false when it was already present.
    pub fn insert(&mut self, component: ComponentType) -> (r: bool)
        ensures
            r == !old(self).raws().contains(component.0.0),
            final(self).raw_set() == old(self).raw_set().insert(component.0.0),
            final(self).raws().len() == old(self).raws().len() + (if r { 1int } else { 0int }),
            final(self).raws() == sorted_raws(final(self).raw_set()),
            strictly_sorted(final(self).raws()),
    {
        proof { use_type_invariant(&*self); }
        let present = self.contains(&component);
        if present {
            assert(old(self).raw_set().insert(component.0.0) =~= old(self).raw_set());
            proof { self.lemma_canonical(); }
            return false;
        }
        let i = self.search(component.0.0);
        let ghost old_types = self.types@;
        let mut types: Vec<ComponentType> = Vec::new();
        std::mem::swap(&mut types, &mut self.types);
        types.insert(i, component);
        proof {
            let nr = raws_of(types@);
            let or = raws_of(old_types);
            assert(nr.len() == or.len() + 1);
            assert forall|k: int| 0 <= k < nr.len() implies #[trigger] nr[k] == (if k < i { or[k] } else if k == i { component.0.0 } else { or[k - 1] }) by {}
            assert(strictly_sorted(nr)) by {
                assert forall|a: int, b: int| 0 <= a < b < nr.len() implies nr[a] < nr[b] by {
                    assert(nr[a] == (if a < i { or[a] } else if a == i { component.0.0 } else { or[a - 1] }));
                    assert(nr[b] == (if b < i { or[b] } else if b == i { component.0.0 } else { or[b - 1] }));
                    if a < i && b > i {
                        assert(or[a] < component.0.0);
                        assert(or[b - 1] >= component.0.0);
                    }
                }
            }
            assert(nr.to_set() =~= or.to_set().insert(component.0.0)) by {
                assert forall|x: u64| nr.to_set().contains(x) <==> or.to_set().insert(component.0.0).contains(x) by {
                    if nr.contains(x) {
                        let k = nr.index_of(x);
                        if k < i { assert(or[k] == x); } else if k > i { assert(or[k - 1] == x); }
                    }
                    if or.contains(x) {
                        let k = or.index_of(x);
                        if k < i { assert(nr[k] == x); } else { assert(nr[k + 1] == x); }
                    }
                    if x == component.0.0 {
                        assert(nr[i as int] == x);
                    }
                }
            }
        }
        self.types = types;
        proof {
            use_type_invariant(&*self);
            self.lemma_canonical();
        }
        true
    }

    /// The set of the given component types.
    pub fn from_types(types: &[ComponentType]) -> (r: ComponentTypeSet)
        ensures
            r.raw_set() == raws_of(types@).to_set(),
            r.raws() == sorted_raws(r.raw_set()),
            strictly_sorted(r.raws()),
    {
        let mut set = ComponentTypeSet::new();
        let mut i: usize = 0;
        while i < types.len()
            invariant
                i <= types@.len(),
                set.raw_set() == raws_of(types@.take(i as int)).to_set(),
            decreases types@.len() - i,
        {
            let ghost before = set.raw_set();
            set.insert(types[i]);
            proof {
                assert(raws_of(types@.take(i as int + 1)) =~= raws_of(types@.take(i as int)).push(types@[i as int].0.0));
                raws_of(types@.take(i as int)).lemma_push_to_set_commute(types@[i as int].0.0);
            }
            i = i + 1;
        }
        assert(types@.take(types@.len() as int) =~= types@);
        proof {
            use_type_invariant(&set);
            set.lemma_canonical();
        }
        set
    }

    /// The set holding the members of `self` and `component`.
    pub fn with(&self, component: ComponentType) -> (r: ComponentTypeSet)
        ensures
            r.raw_set() == self.raw_set().insert(component.0.0),
            r.raws().len() <= self.raws().len() + 1,
            r.raws() == sorted_raws(r.raw_set()),
            strictly_sorted(r.raws()),
    {
        let mut set = self.duplicate();
        set.insert(component);
        proof {
            use_type_invariant(&set);
            set.lemma_canonical();
        }
        set
    }

    /// The raw ids of a set are the members of its raw id set, in increasing order.
    proof fn lemma_canonical(&self)
        requires
            strictly_sorted(self.raws()),
        ensures
            self.raws() == sorted_raws(self.raw_set()),
    {
        let q = sorted_raws(self.raw_set());
        assert(strictly_sorted(self.raws()) && self.raws().to_set() == self.raw_set());
        lemma_sorted_unique(q, self.raws());
    }


    /// True when both sets hold the same component types.
    pub fn same_as(&self, other: &ComponentTypeSet) -> (r: bool)
        ensures
            r == (self.raws() == other.raws()),
    {
        if self.types.len() != other.types.len() {
            assert(raws_of(self.types@).len() != raws_of(other.types@).len());
            return false;
        }
        let mut i: usize = 0;
        while i < self.types.len()
            invariant
                i <= self.types@.len(),
                self.types@.len() == other.types@.len(),
                forall|k: int| 0 <= k < i ==> raws_of(self.types@)[k] == raws_of(other.types@)[k],
            decreases self.types@.len() - i,
        {
            if self.types[i].0.0 != other.types[i].0.0 {
                assert(raws_of(self.types@)[i as int] != raws_of(other.types@)[i as int]);
                return false;
            }
            i = i + 1;
        }
        assert(raws_of(self.types@) =~= raws_of(other.types@));
        true
    }

    /// Every subset of this set, each as a set of its own: there are 2^n of them
    /// and each choice of members is among them. The 2^n subsets must fit in
    /// memory, hence the bound on `n`.
    pub fn power_set(&self) -> (r: Vec<ComponentTypeSet>)
        requires
            self.raws().len() < 32,
        ensures
            r@.len() == pow2(self.raws().len()),
            forall|k: int| 0 <= k < r@.len() ==> is_pick_of(#[trigger] r@[k].raws(), self.raws()),
            forall|idx: Seq<int>| #[trigger] increasing_positions(idx, self.raws().len() as int) ==>
                exists|k: int| 0 <= k < r@.len() && #[trigger] r@[k].raws() == pick(self.raws(), idx),
    {
        proof { use_type_invariant(self); }
        let items = self.to_vec();
        let subsets = powerset_of(&items);
        let mut out: Vec<ComponentTypeSet> = Vec::new();
        let mut k: usize = 0;
        while k < subsets.len()
            invariant
                k <= subsets@.len(),
                out@.len() == k,
                items@ == self.members(),
                raws_of(items@) == self.raws(),
                strictly_sorted(self.raws()),
                forall|j: int| 0 <= j < k ==> #[trigger] out@[j].raws() == raws_of(subsets@[j]@),
                forall|j: int| 0 <= j < subsets@.len() ==> is_pick_of(#[trigger] subsets@[j]@, items@),
            decreases subsets@.len() - k,
        {
            assert(is_pick_of(subsets@[k as int]@, items@));
            let ghost idx = choose|idx: Seq<int>| #[trigger] increasing_positions(idx, items@.len() as int) && subsets@[k as int]@ == pick(items@, idx);
            let subset = ComponentTypeSet::from_types(subsets[k].as_slice());
            proof {
                use_type_invariant(&subset);
                lemma_pick_raws(items@, idx);
                lemma_pick_sorted(self.raws(), idx);
                lemma_sorted_unique(subset.raws(), raws_of(subsets@[k as int]@));
            }
            out.push(subset);
            k = k + 1;
        }
        proof {
            assert forall|j: int| 0 <= j < out@.len() implies is_pick_of(#[trigger] out@[j].raws(), self.raws()) by {
                assert(is_pick_of(subsets@[j]@, items@));
                let idx = choose|idx: Seq<int>| #[trigger] increasing_positions(idx, items@.len() as int) && subsets@[j]@ == pick(items@, idx);
                lemma_pick_raws(items@, idx);
                assert(out@[j].raws() == pick(self.raws(), idx));
            }
            assert forall|idx: Seq<int>| #[trigger] increasing_positions(idx, self.raws().len() as int) implies
                exists|j: int| 0 <= j < out@.len() && #[trigger] out@[j].raws() == pick(self.raws(), idx) by {
                assert(increasing_positions(idx, items@.len() as int));
                let j = choose|j: int| 0 <= j < subsets@.len() && #[trigger] subsets@[j]@ == pick(items@, idx);
                lemma_pick_raws(items@, idx);
                assert(out@[j].raws() == pick(self.raws(), idx));
            }
        }
        out
    }

    /// The family made of exactly these component types.
    pub fn family_id(&self) -> (r: FamilyId)
        ensures
            r == self.family_spec(),
    {
        let mut raws: Vec<u64> = Vec::new();
        let mut i: usize = 0;
        while i < self.types.len()
            invariant
                i <= self.types@.len(),
                raws@ == raws_of(self.types@).take(i as int),
            decreases self.types@.len() - i,
        {
            raws.push(self.types[i].0.0);
            assert(raws_of(self.types@).take(i as int + 1) =~= raws_of(self.types@).take(i as int).push(self.types@[i as int].0.0));
            i = i + 1;
        }
        assert(raws_of(self.types@).take(self.types@.len() as int) =~= raws_of(self.types@));
        FamilyId::from_raw_ids(raws.as_slice())
    }
}

} // verus!
