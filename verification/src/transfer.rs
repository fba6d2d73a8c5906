//! Transfer graphs: the cached moves between families.
//!
//! When an entity gains or loses a component it moves to another family; the
//! transfer graph of a family remembers, per component type, which family that is.

use vstd::prelude::*;
use std::collections::HashMap;
use crate::id::FamilyId;
use crate::component::ComponentType;

verus! {

broadcast use vstd::std_specs::hash::group_hash_axioms;

/// Where an entity goes when it gains (`Add`) or loses (`Remove`) a component.
#[derive(Debug, Clone, Copy, PartialEq, Eq, Structural)]
pub enum TransferEdge {
    Add(FamilyId),
    Remove(FamilyId),
}

/// The transfer edges of one family, by raw component type id.
#[derive(Debug)]
pub struct TransferGraph {
    links: HashMap<u64, TransferEdge>,
}

impl View for TransferGraph {
    type V = Map<u64, TransferEdge>;

    closed spec fn view(&self) -> Map<u64, TransferEdge> {
        self.links@
    }
}

impl TransferGraph {
    /// A graph without edges.
    pub fn new() -> (r: TransferGraph)
        ensures
            r@ == Map::<u64, TransferEdge>::empty(),
    {
        TransferGraph { links: HashMap::new() }
    }

    /// The edge for `component`, if one was recorded.
    pub fn get(&self, component: &ComponentType) -> (r: Option<TransferEdge>)
        ensures
            r == (if self@.contains_key(component.0.0) { Some(self@[component.0.0]) } else { None::<TransferEdge> }),
    {
        match self.links.get(&component.0.0) {
            Some(edge) => Some(*edge),
            None => None,
        }
    }

    /// Records `edge` for `component`, returning the edge it replaces.
    pub fn set(&mut self, component: &ComponentType, edge: TransferEdge) -> (r: Option<TransferEdge>)
        ensures
            final(self)@ == old(self)@.insert(component.0.0, edge),
            r == (if old(self)@.contains_key(component.0.0) { Some(old(self)@[component.0.0]) } else { None::<TransferEdge> }),
    {
        self.links.insert(component.0.0, edge)
    }
}

/// Law: the edge recorded for a component is the one read back for it, and
/// recording it leaves the edges of other components as they were.
pub proof fn lemma_set_then_get(g: Map<u64, TransferEdge>, c: u64, edge: TransferEdge, other: u64)
    ensures
        g.insert(c, edge)[c] == edge,
        other != c ==> (g.insert(c, edge).contains_key(other) == g.contains_key(other)
            && (g.contains_key(other) ==> g.insert(c, edge)[other] == g[other])),
{
}

} // verus!
