//! Selections: what a transformation or a query takes from the database.

use vstd::prelude::*;
use crate::component::ComponentType;
use crate::id::EntityId;

verus! {

/// Describes all the component types something is interested in.
pub trait Selects {
    /// The component types read.
    const READS: &'static [ComponentType];
    /// The component types written.
    const WRITES: &'static [ComponentType];
    /// The global component types used.
    const GLOBAL: &'static [ComponentType];

    /// Every component type accessed: those read, then those written.
    fn reads() -> (r: Vec<ComponentType>)
        ensures
            r@ == Self::READS@ + Self::WRITES@,
    {
        let mut out: Vec<ComponentType> = Vec::new();
        let mut i: usize = 0;
        while i < Self::READS.len()
            invariant
                i <= Self::READS@.len(),
                out@ == Self::READS@.take(i as int),
            decreases Self::READS@.len() - i,
        {
            out.push(Self::READS[i]);
            assert(Self::READS@.take(i as int + 1) =~= Self::READS@.take(i as int).push(Self::READS@[i as int]));
            i = i + 1;
        }
        let mut j: usize = 0;
        while j < Self::WRITES.len()
            invariant
                j <= Self::WRITES@.len(),
                out@ == Self::READS@ + Self::WRITES@.take(j as int),
            decreases Self::WRITES@.len() - j,
        {
            out.push(Self::WRITES[j]);
            assert(Self::WRITES@.take(j as int + 1) =~= Self::WRITES@.take(j as int).push(Self::WRITES@[j as int]));
            j = j + 1;
        }
        assert(Self::READS@.take(Self::READS@.len() as int) =~= Self::READS@);
        assert(Self::WRITES@.take(Self::WRITES@.len() as int) =~= Self::WRITES@);
        out
    }

    /// The component types written.
    fn writes() -> (r: Vec<ComponentType>)
        ensures
            r@ == Self::WRITES@,
    {
        let mut out: Vec<ComponentType> = Vec::new();
        let mut j: usize = 0;
        while j < Self::WRITES.len()
            invariant
                j <= Self::WRITES@.len(),
                out@ == Self::WRITES@.take(j as int),
            decreases Self::WRITES@.len() - j,
        {
            out.push(Self::WRITES[j]);
            assert(Self::WRITES@.take(j as int + 1) =~= Self::WRITES@.take(j as int).push(Self::WRITES@[j as int]));
            j = j + 1;
        }
        assert(Self::WRITES@.take(Self::WRITES@.len() as int) =~= Self::WRITES@);
        out
    }
}

/// A field of a selection, and how it is borrowed from the database.
pub trait DerefSelectionField {
    type Ref;
    type Type;
    type BorrowType;
}

/// Marks the fields a selection may hold.
pub trait SelectionField {}

/// A question asked of an index kept beside the database, for the entities
/// interested in the component type `C`.
pub trait IndexQuery<C>: Sized {
    type Index;

    /// The entities of `index` that answer the query.
    fn on_index(query: Self, index: &Self::Index) -> Vec<EntityId>;
}

/// An index kept beside the database, organising the entities it is
/// interested in by their component of type `C`.
pub trait DbIndex<C> {
    /// Every entity indexed.
    fn indexed(&self) -> Vec<EntityId>;

    /// Called whenever a component of type `C` changes.
    fn on_change(&self, entity: &EntityId, new_value: &C);
}

} // verus!
