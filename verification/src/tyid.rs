//! Stable identifiers of compile time types.
//!
//! A `StableTypeId` is the 64 bit FNV-1a hash of the name that the compiler
//! gives a type. It should be common across builds,
//! though that is not guaranteed across compiler versions.

use vstd::prelude::*;
use vstd::string::StringSliceAdditionalSpecFns;
use std::collections::HashMap;

verus! {

broadcast use vstd::std_specs::hash::group_hash_axioms;

pub const FNV_OFFSET_BASIS_64: u64 = 0xcbf29ce484222325;
pub const FNV_PRIME_64: u64 = 0x00000100000001B3;

/// The 64 bit FNV-1a hash of a byte sequence: starting from the offset basis,
/// each byte is xored into the hash, which is then multiplied by the prime,
/// wrapping at 2^64.
pub open spec fn fnv1a_64(bytes: Seq<u8>) -> u64
    decreases bytes.len(),
{
    if bytes.len() == 0 {
        FNV_OFFSET_BASIS_64
    } else {
        let h = fnv1a_64(bytes.drop_last()) ^ (bytes.last() as u64);
        ((h as int * FNV_PRIME_64 as int) % 0x1_0000_0000_0000_0000) as u64
    }
}

/// Calls `const_fnv1a_hash::fnv1a_hash_str_64`, which hashes the UTF-8 bytes of
/// `s` with 64 bit FNV-1a; the contract claims exactly that.
#[verifier::external_body]
fn fnv1a_hash_str_64(s: &str) -> (r: u64)
    ensures
        r == fnv1a_64(s.spec_bytes()),
{
    const_fnv1a_hash::fnv1a_hash_str_64(s)
}

/// A stable `TypeId`: the FNV-1a hash of a type's name.
#[derive(Copy, Clone, Debug, PartialEq, Eq, Structural, PartialOrd, Ord, Hash)]
pub struct StableTypeId(pub u64);

impl StableTypeId {
    /// The identifier of the type with the given name.
    pub fn from_type_name(name: &str) -> (r: StableTypeId)
        ensures
            r.0 == fnv1a_64(name.spec_bytes()),
    {
        StableTypeId(fnv1a_hash_str_64(name))
    }

    pub fn raw(&self) -> (r: u64)
        ensures
            r == self.0,
    {
        self.0
    }

    pub fn raw_id(&self) -> (r: u64)
        ensures
            r == self.0,
    {
        self.0
    }

    /// The name registered for this identifier, if any.
    pub fn name(&self, registry: &TypeNameRegistry) -> (r: Option<&'static str>)
        ensures
            r == (if registry@.contains_key(self.0) { Some(registry@[self.0]) } else { None::<&'static str> }),
    {
        match registry.names.get(&self.0) {
            Some(name) => Some(*name),
            None => None,
        }
    }

    /// Registers `name` as the name of the type it identifies, for richer debug output.
    pub fn register_debug_info(registry: &mut TypeNameRegistry, name: &'static str)
        ensures
            final(registry)@ == old(registry)@.insert(fnv1a_64(name.spec_bytes()), name),
    {
        let tyid = Self::from_type_name(name);
        registry.register(tyid, name);
    }
}

/// Associates type identifiers with the names of their types.
pub struct TypeNameRegistry {
    names: HashMap<u64, &'static str>,
}

impl View for TypeNameRegistry {
    type V = Map<u64, &'static str>;

    closed spec fn view(&self) -> Map<u64, &'static str> {
        self.names@
    }
}

impl TypeNameRegistry {
    pub fn new() -> (r: TypeNameRegistry)
        ensures
            r@ == Map::<u64, &'static str>::empty(),
    {
        TypeNameRegistry { names: HashMap::new() }
    }

    /// Records `name` as the name of the type with identifier `tyid`.
    pub fn register(&mut self, tyid: StableTypeId, name: &'static str)
        ensures
            final(self)@ == old(self)@.insert(tyid.0, name),
    {
        self.names.insert(tyid.0, name);
    }
}

/// Law: after a type's name is registered, its identifier names it until a
/// name with the same identifier is registered; identifiers never registered
/// name nothing.
pub proof fn lemma_register_then_name(names: Map<u64, &'static str>, name: &'static str, later: Seq<&'static str>, id: u64)
    ensures
        ({
            let after = registered(names.insert(fnv1a_64(name.spec_bytes()), name), later);
            (forall|i: int| 0 <= i < later.len() ==> fnv1a_64(#[trigger] later[i].spec_bytes()) != fnv1a_64(name.spec_bytes()))
                ==> after.contains_key(fnv1a_64(name.spec_bytes())) && after[fnv1a_64(name.spec_bytes())] == name
        }),
        !names.contains_key(id) && (forall|i: int| 0 <= i < later.len() ==> fnv1a_64(#[trigger] later[i].spec_bytes()) != id)
            ==> !registered(names, later).contains_key(id),
    decreases later.len(),
{
    if later.len() > 0 {
        lemma_register_then_name(names, name, later.drop_last(), id);
        let l = later.drop_last();
        assert forall|i: int| 0 <= i < l.len() implies #[trigger] l[i] == later[i] by {}
    }
}

/// The names after registering each of `names_in_order`, in order, on top of `names`.
pub open spec fn registered(names: Map<u64, &'static str>, names_in_order: Seq<&'static str>) -> Map<u64, &'static str>
    decreases names_in_order.len(),
{
    if names_in_order.len() == 0 {
        names
    } else {
        let before = registered(names, names_in_order.drop_last());
        before.insert(fnv1a_64(names_in_order.last().spec_bytes()), names_in_order.last())
    }
}

} // verus!
