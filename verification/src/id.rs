//! Identifiers for entities, families, columns and component types.

use vstd::prelude::*;
use crate::commutative::{CommutativeId, combine_spec, commutative_hash};
use crate::component::ComponentType;

verus! {

/// Number of distinct values of a `u64`, the modulus of all wrapping arithmetic here.
pub open spec fn word_modulus() -> int {
    0x1_0000_0000_0000_0000
}

// ---------------------------------------------------------------------------
// IdUnion
// ---------------------------------------------------------------------------

/// Low 32 bits of a raw identifier: the index of a generational id,
/// or the primary half of a relational id.
pub open spec fn raw_low(raw: u64) -> u32 {
    (raw & 0xFFFF_FFFFu64) as u32
}

/// Bits 32..48 of a raw identifier: the generation of a generational id.
pub open spec fn raw_generation(raw: u64) -> u16 {
    ((raw >> 32u64) & 0xFFFFu64) as u16
}

/// Bits 48..56 of a raw identifier: the unused byte of a generational id.
pub open spec fn raw_padding(raw: u64) -> u8 {
    ((raw >> 48u64) & 0xFFu64) as u8
}

/// Bits 56..64 of a raw identifier: the flags of a generational id.
pub open spec fn raw_flags(raw: u64) -> u8 {
    (raw >> 56u64) as u8
}

/// High 32 bits of a raw identifier: the secondary half of a relational id.
pub open spec fn raw_high(raw: u64) -> u32 {
    (raw >> 32u64) as u32
}

/// The raw word that holds the generational tuple `(id, generation, padding, flags)`.
pub open spec fn pack_generational(id: u32, generation: u16, padding: u8, flags: u8) -> u64 {
    (id as u64) | ((generation as u64) << 32u64) | ((padding as u64) << 48u64) | ((flags as u64) << 56u64)
}

/// The raw word that holds the relational pair `(primary, secondary)`.
pub open spec fn pack_relational(primary: u32, secondary: u32) -> u64 {
    (primary as u64) | ((secondary as u64) << 32u64)
}

/// Unpacking a packed generational tuple gives back each of its parts.
pub proof fn lemma_generational_roundtrip(id: u32, generation: u16, padding: u8, flags: u8)
    ensures
        raw_low(pack_generational(id, generation, padding, flags)) == id,
        raw_generation(pack_generational(id, generation, padding, flags)) == generation,
        raw_padding(pack_generational(id, generation, padding, flags)) == padding,
        raw_flags(pack_generational(id, generation, padding, flags)) == flags,
{
    assert(((((id as u64) | ((generation as u64) << 32u64) | ((padding as u64) << 48u64) | ((flags as u64) << 56u64)) & 0xFFFF_FFFFu64) as u32) == id) by (bit_vector);
    assert((((((id as u64) | ((generation as u64) << 32u64) | ((padding as u64) << 48u64) | ((flags as u64) << 56u64)) >> 32u64) & 0xFFFFu64) as u16) == generation) by (bit_vector);
    assert((((((id as u64) | ((generation as u64) << 32u64) | ((padding as u64) << 48u64) | ((flags as u64) << 56u64)) >> 48u64) & 0xFFu64) as u8) == padding) by (bit_vector);
    assert(((((id as u64) | ((generation as u64) << 32u64) | ((padding as u64) << 48u64) | ((flags as u64) << 56u64)) >> 56u64) as u8) == flags) by (bit_vector);
}

/// Packing the parts of a raw word gives back the word.
pub proof fn lemma_generational_unpack(raw: u64)
    ensures
        pack_generational(raw_low(raw), raw_generation(raw), raw_padding(raw), raw_flags(raw)) == raw,
{
    assert((((raw & 0xFFFF_FFFFu64) as u32) as u64 | ((((raw >> 32u64) & 0xFFFFu64) as u16) as u64) << 32u64
        | ((((raw >> 48u64) & 0xFFu64) as u8) as u64) << 48u64 | (((raw >> 56u64) as u8) as u64) << 56u64) == raw) by (bit_vector);
}

/// The core identifier word.
///
/// It is read either as a generational id `(id, generation, padding, flags)`,
/// as a relational pair `(primary, secondary)`, or as the raw 64 bit word; the
/// parts occupy the word from its least significant byte upward. Equality,
/// ordering and hashing go by the raw word.
#[derive(Copy, Clone, Debug, PartialEq, Eq, Structural, PartialOrd, Ord, Hash)]
pub struct IdUnion {
    pub aligned: u64,
}

impl IdUnion {
    pub open spec fn raw(self) -> u64 {
        self.aligned
    }

    /// An identifier word holding the generational tuple.
    pub fn generational(id: u32, generation: u16, padding: u8, flags: u8) -> (r: IdUnion)
        ensures
            r.raw() == pack_generational(id, generation, padding, flags),
            raw_low(r.raw()) == id,
            raw_generation(r.raw()) == generation,
            raw_padding(r.raw()) == padding,
            raw_flags(r.raw()) == flags,
    {
        proof { lemma_generational_roundtrip(id, generation, padding, flags); }
        IdUnion {
            aligned: (id as u64) | ((generation as u64) << 32u64) | ((padding as u64) << 48u64) | ((flags as u64) << 56u64),
        }
    }

    /// An identifier word holding the relational pair.
    pub fn relational(primary: u32, secondary: u32) -> (r: IdUnion)
        ensures
            r.raw() == pack_relational(primary, secondary),
            raw_low(r.raw()) == primary,
            raw_high(r.raw()) == secondary,
    {
        assert(((((primary as u64) | ((secondary as u64) << 32u64)) & 0xFFFF_FFFFu64) as u32) == primary) by (bit_vector);
        assert(((((primary as u64) | ((secondary as u64) << 32u64)) >> 32u64) as u32) == secondary) by (bit_vector);
        IdUnion { aligned: (primary as u64) | ((secondary as u64) << 32u64) }
    }

    /// An identifier word holding the given raw value.
    pub fn from_u64(raw: u64) -> (r: IdUnion)
        ensures
            r.raw() == raw,
    {
        IdUnion { aligned: raw }
    }

    /// The generational reading of this word.
    pub fn as_generational(&self) -> (r: GenerationalId)
        ensures
            r.inner == *self,
    {
        GenerationalId { inner: *self }
    }

    /// The relational reading of this word.
    pub fn as_relational(&self) -> (r: RelationalId)
        ensures
            r.inner == *self,
    {
        RelationalId { inner: *self }
    }

    /// The raw 64 bit reading of this word.
    pub fn as_u64(&self) -> (r: u64)
        ensures
            r == self.raw(),
    {
        self.aligned
    }

    /// The generational tuple `(id, generation, padding, flags)`.
    pub fn generational_parts(&self) -> (r: (u32, u16, u8, u8))
        ensures
            r == (raw_low(self.raw()), raw_generation(self.raw()), raw_padding(self.raw()), raw_flags(self.raw())),
    {
        let raw = self.aligned;
        ((raw & 0xFFFF_FFFFu64) as u32, ((raw >> 32u64) & 0xFFFFu64) as u16, ((raw >> 48u64) & 0xFFu64) as u8, (raw >> 56u64) as u8)
    }
}

/// An identifier read as `(id, generation, padding, flags)`.
pub struct GenerationalId {
    pub inner: IdUnion,
}

impl GenerationalId {
    pub fn id(&self) -> (r: u32)
        ensures
            r == raw_low(self.inner.raw()),
    {
        (self.inner.aligned & 0xFFFF_FFFFu64) as u32
    }

    pub fn generation(&self) -> (r: u16)
        ensures
            r == raw_generation(self.inner.raw()),
    {
        ((self.inner.aligned >> 32u64) & 0xFFFFu64) as u16
    }

    pub fn flags(&self) -> (r: u8)
        ensures
            r == raw_flags(self.inner.raw()),
    {
        (self.inner.aligned >> 56u64) as u8
    }
}

/// An identifier read as a `(primary, secondary)` link.
pub struct RelationalId {
    pub inner: IdUnion,
}

impl RelationalId {
    pub fn primary(&self) -> (r: u32)
        ensures
            r == raw_low(self.inner.raw()),
    {
        (self.inner.aligned & 0xFFFF_FFFFu64) as u32
    }

    pub fn secondary(&self) -> (r: u32)
        ensures
            r == raw_high(self.inner.raw()),
    {
        (self.inner.aligned >> 32u64) as u32
    }
}

/// An `EntityId` uniquely identifies a single entity.
///
/// Its word is read as a generational id: an index together with a generation
/// that changes each time the index is handed out again.
#[derive(Copy, Clone, Debug, PartialEq, Eq, Structural, PartialOrd, Ord, Hash)]
pub struct EntityId(pub IdUnion);

impl EntityId {
    pub open spec fn raw(self) -> u64 {
        self.0.aligned
    }

    pub open spec fn index_spec(self) -> u32 {
        raw_low(self.raw())
    }

    pub open spec fn generation_spec(self) -> u16 {
        raw_generation(self.raw())
    }

    /// The entity with the given index, generation 0 and no flags.
    pub open spec fn of_index(index: u32) -> EntityId {
        EntityId(IdUnion { aligned: pack_generational(index, 0, 0, 0) })
    }

    /// The same index with the generation one higher, wrapping at 2^16;
    /// the padding and flag bytes stay as they were.
    pub open spec fn next_generation_spec(self) -> EntityId {
        EntityId(IdUnion { aligned: pack_generational(
            raw_low(self.raw()),
            ((raw_generation(self.raw()) as int + 1) % 0x1_0000) as u16,
            raw_padding(self.raw()),
            raw_flags(self.raw()),
        ) })
    }

    pub fn inner(&self) -> (r: IdUnion)
        ensures
            r == self.0,
    {
        self.0
    }

    /// The entity with the given index, generation 0 and no flags.
    pub fn from_index(index: u32) -> (r: EntityId)
        ensures
            r == EntityId::of_index(index),
            r.index_spec() == index,
            r.generation_spec() == 0,
    {
        EntityId(IdUnion::generational(index, 0, 0, 0))
    }

    /// The index of this entity.
    pub fn index(&self) -> (r: u32)
        ensures
            r == self.index_spec(),
    {
        self.0.as_generational().id()
    }

    /// The generation of this entity.
    pub fn generation(&self) -> (r: u16)
        ensures
            r == self.generation_spec(),
    {
        self.0.as_generational().generation()
    }

    /// Returns an entity with the same index as `self` and its generation
    /// incremented, wrapping after 65535 generations.
    pub fn next_generation(&self) -> (r: EntityId)
        ensures
            r == self.next_generation_spec(),
            r.index_spec() == self.index_spec(),
            r.generation_spec() == (self.generation_spec() as int + 1) % 0x1_0000,
    {
        let (id, generation, padding, flags) = self.0.generational_parts();
        EntityId(IdUnion::generational(id, generation.wrapping_add(1), padding, flags))
    }
}

/// Law: the next generation of an entity keeps its index and never equals it.
pub proof fn lemma_next_generation_differs(e: EntityId)
    ensures
        e.next_generation_spec().index_spec() == e.index_spec(),
        e.next_generation_spec() != e,
{
    let g = raw_generation(e.raw());
    let ng = ((g as int + 1) % 0x1_0000) as u16;
    lemma_generational_roundtrip(raw_low(e.raw()), ng, raw_padding(e.raw()), raw_flags(e.raw()));
    assert(ng != g);
}

/// A `ComponentId` identifies a single component within a column of components;
/// it is read the same way as an [EntityId].
#[derive(Copy, Clone, Debug, PartialEq, Eq, Structural, PartialOrd, Ord, Hash)]
pub struct ComponentId(pub IdUnion);

/// Identifies a family: the set of entities that hold exactly the same components.
///
/// It is the order independent hash of the raw ids of those component types.
#[derive(Copy, Clone, Debug, PartialEq, Eq, Structural, PartialOrd, Ord, Hash)]
pub struct FamilyId(pub CommutativeId);

impl FamilyId {
    pub open spec fn raw(self) -> u64 {
        self.0.0
    }

    pub fn inner(&self) -> (r: CommutativeId)
        ensures
            r == self.0,
    {
        self.0
    }

    /// The family whose components have the given raw type ids.
    pub fn from_raw_ids(ids: &[u64]) -> (r: FamilyId)
        ensures
            r.raw() == commutative_hash(ids@),
    {
        FamilyId(CommutativeId::from_raw_ids(ids))
    }
}

/// Keys one column of one family's table: each family has at most one column
/// of a given component type.
#[derive(Copy, Clone, Debug, PartialEq, Eq, Structural, PartialOrd, Ord, Hash)]
pub struct ColumnKey(pub CommutativeId);

impl ColumnKey {
    pub open spec fn key_of(family: FamilyId, component_raw: u64) -> ColumnKey {
        ColumnKey(CommutativeId(combine_spec(family.raw(), component_raw)))
    }

    /// The key of the column of the given component type in the given family.
    pub fn new(family: FamilyId, component_raw: u64) -> (r: ColumnKey)
        ensures
            r == ColumnKey::key_of(family, component_raw),
    {
        ColumnKey(family.inner().and(&CommutativeId(component_raw)))
    }

    pub fn raw(&self) -> (r: u64)
        ensures
            r == self.0.0,
    {
        self.0.raw()
    }
}

/// The entity with the given index, generation 0 and no flags.
impl From<u32> for EntityId {
    fn from(value: u32) -> (r: EntityId) {
        EntityId::from_index(value)
    }
}

impl vstd::std_specs::convert::FromSpecImpl<u32> for EntityId {
    open spec fn obeys_from_spec() -> bool {
        true
    }

    open spec fn from_spec(value: u32) -> EntityId {
        EntityId::of_index(value)
    }
}

/// The id of the column of a component type in a family: the family's id
/// combined with the type's raw id.
impl From<(FamilyId, ComponentType)> for CommutativeId {
    fn from(value: (FamilyId, ComponentType)) -> (r: CommutativeId) {
        value.0.0.and(&CommutativeId(value.1.0.0))
    }
}

impl vstd::std_specs::convert::FromSpecImpl<(FamilyId, ComponentType)> for CommutativeId {
    open spec fn obeys_from_spec() -> bool {
        true
    }

    open spec fn from_spec(value: (FamilyId, ComponentType)) -> CommutativeId {
        CommutativeId(combine_spec(value.0.0.0, value.1.0.0))
    }
}

/// The generational reading of an identifier word.
impl<'a> From<&'a IdUnion> for GenerationalId {
    fn from(value: &'a IdUnion) -> (r: GenerationalId) {
        value.as_generational()
    }
}

impl<'a> vstd::std_specs::convert::FromSpecImpl<&'a IdUnion> for GenerationalId {
    open spec fn obeys_from_spec() -> bool {
        true
    }

    open spec fn from_spec(value: &'a IdUnion) -> GenerationalId {
        GenerationalId { inner: *value }
    }
}

/// The relational reading of an identifier word.
impl<'a> From<&'a IdUnion> for RelationalId {
    fn from(value: &'a IdUnion) -> (r: RelationalId) {
        value.as_relational()
    }
}

impl<'a> vstd::std_specs::convert::FromSpecImpl<&'a IdUnion> for RelationalId {
    open spec fn obeys_from_spec() -> bool {
        true
    }

    open spec fn from_spec(value: &'a IdUnion) -> RelationalId {
        RelationalId { inner: *value }
    }
}

} // verus!
