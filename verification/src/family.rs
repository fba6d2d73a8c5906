//! Families: entities that hold exactly the same set of components.

use vstd::prelude::*;
use std::collections::HashMap;
use crate::id::FamilyId;
use crate::component::{ComponentType, ComponentTypeSet};

verus! {

broadcast use vstd::std_specs::hash::group_hash_axioms;

/// How adding or removing a component changes an entity's family.
#[derive(Copy, Clone, Debug, PartialEq, Eq, Structural)]
pub enum FamilyDelta {
    Add(FamilyId),
    Remove(FamilyId),
}

/// Describes how to transfer an entity between families given a new or removed component.
#[derive(Copy, Clone, Debug, PartialEq, Eq, Structural)]
pub struct FamilyGraphEdge {
    pub component: ComponentType,
    pub delta: FamilyDelta,
}

/// A collection of entities with the same components; when components are
/// added or removed from an entity, the entity is moved between families.
#[derive(Debug)]
pub struct Family {
    components: ComponentTypeSet,
    /// Transfers to other families, by raw component type id.
    transfer_graph: HashMap<u64, FamilyGraphEdge>,
}

impl Family {
    pub closed spec fn components_spec(self) -> ComponentTypeSet {
        self.components
    }

    pub closed spec fn edges(self) -> Map<u64, FamilyGraphEdge> {
        self.transfer_graph@
    }

    /// The family of the given components, without transfer edges yet.
    pub fn from_components(components: ComponentTypeSet) -> (r: Family)
        ensures
            r.components_spec() == components,
            r.edges() == Map::<u64, FamilyGraphEdge>::empty(),
    {
        Family { components, transfer_graph: HashMap::new() }
    }

    /// A copy of the component types of this family.
    pub fn components(&self) -> (r: ComponentTypeSet)
        ensures
            r.raws() == self.components_spec().raws(),
            r.members() == self.components_spec().members(),
    {
        self.components.duplicate()
    }

    /// The transfer edge for `component`, if one was recorded.
    pub fn try_get_transfer_edge(&self, component: &ComponentType) -> (r: Option<FamilyGraphEdge>)
        ensures
            r == (if self.edges().contains_key(component.0.0) { Some(self.edges()[component.0.0]) } else { None::<FamilyGraphEdge> }),
    {
        match self.transfer_graph.get(&component.0.0) {
            Some(edge) => Some(*edge),
            None => None,
        }
    }

    /// Records the transfer edge of its component.
    pub fn set_transfer_edge(&mut self, edge: FamilyGraphEdge)
        ensures
            final(self).edges() == old(self).edges().insert(edge.component.0.0, edge),
            final(self).components_spec() == old(self).components_spec(),
    {
        self.transfer_graph.insert(edge.component.0.0, edge);
    }
}

} // verus!
