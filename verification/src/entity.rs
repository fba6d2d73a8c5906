//! Allocation of entity ids.
//!
//! Fresh ids take consecutive indices; freed ids are handed out again, most
//! recently freed first, with their generation advanced so that the new id
//! differs from the old one.

use vstd::prelude::*;
use crate::id::EntityId;

verus! {

#[derive(Debug, Clone, Copy, PartialEq, Eq, Structural)]
pub enum EntityAllocError {
    PoisonedFreeList,
}

/// Frees a batch of entity ids.
pub trait FreeEntityWith<T> {
    fn free(&mut self, free: T) -> Result<(), EntityAllocError>;
}

/// Hands out entity ids and takes them back for reuse.
#[derive(Debug)]
pub struct EntityAllocator {
    count: u32,
    free: Vec<EntityId>,
}

impl EntityAllocator {
    /// The number of fresh indices handed out so far, modulo 2^32.
    pub closed spec fn count(self) -> u32 {
        self.count
    }

    /// The ids waiting to be handed out again; the last is handed out first.
    pub closed spec fn free_list(self) -> Seq<EntityId> {
        self.free@
    }

    /// The id the next allocation hands out.
    pub open spec fn next_id(self) -> EntityId {
        if self.free_list().len() > 0 {
            self.free_list().last().next_generation_spec()
        } else {
            EntityId::of_index(self.count())
        }
    }

    /// Every freed id has an index that was handed out before.
    pub open spec fn wf(self) -> bool {
        forall|i: int| 0 <= i < self.free_list().len() ==> #[trigger] self.free_list()[i].index_spec() < self.count()
    }

    /// An allocator that has handed out nothing.
    pub fn new() -> (r: EntityAllocator)
        ensures
            r.count() == 0,
            r.free_list() == Seq::<EntityId>::empty(),
            r.wf(),
    {
        EntityAllocator { count: 0, free: Vec::new() }
    }

    /// Hands out an id: the next generation of the most recently freed id, or
    /// else the id of the next fresh index (the index counter wraps at 2^32).
    pub fn allocate(&mut self) -> (r: Result<EntityId, EntityAllocError>)
        ensures
            old(self).free_list().len() > 0 ==> {
                &&& r == Ok::<EntityId, EntityAllocError>(old(self).free_list().last().next_generation_spec())
                &&& final(self).free_list() == old(self).free_list().drop_last()
                &&& final(self).count() == old(self).count()
            },
            old(self).free_list().len() == 0 ==> {
                &&& r == Ok::<EntityId, EntityAllocError>(EntityId::of_index(old(self).count()))
                &&& final(self).free_list() == old(self).free_list()
                &&& final(self).count() == (old(self).count() as int + 1) % 0x1_0000_0000
            },
            old(self).wf() && old(self).count() < u32::MAX ==> final(self).wf(),
    {
        match self.free.pop() {
            Some(id) => Ok(id.next_generation()),
            None => {
                let count = self.count;
                self.count = self.count.wrapping_add(1u32);
                Ok(EntityId::from_index(count))
            },
        }
    }

    /// Takes the ids back for reuse, in the order given.
    pub fn free_all(&mut self, ids: &[EntityId]) -> (r: Result<(), EntityAllocError>)
        ensures
            r is Ok,
            final(self).free_list() == old(self).free_list() + ids@,
            final(self).count() == old(self).count(),
            old(self).wf() && (forall|i: int| 0 <= i < ids@.len() ==> #[trigger] ids@[i].index_spec() < old(self).count())
                ==> final(self).wf(),
    {
        let mut i: usize = 0;
        while i < ids.len()
            invariant
                i <= ids@.len(),
                self.free@ == old(self).free@ + ids@.take(i as int),
                self.count == old(self).count,
            decreases ids@.len() - i,
        {
            self.free.push(ids[i]);
            assert(ids@.take(i as int + 1) =~= ids@.take(i as int).push(ids@[i as int]));
            i = i + 1;
        }
        assert(ids@.take(ids@.len() as int) =~= ids@);
        proof {
            if old(self).wf() && (forall|i: int| 0 <= i < ids@.len() ==> #[trigger] ids@[i].index_spec() < old(self).count()) {
                assert forall|i: int| 0 <= i < self.free_list().len() implies #[trigger] self.free_list()[i].index_spec() < self.count() by {
                    if i >= old(self).free_list().len() {
                        assert(self.free_list()[i] == ids@[i - old(self).free_list().len()]);
                    }
                }
            }
        }
        Ok(())
    }
}

impl FreeEntityWith<Vec<EntityId>> for EntityAllocator {
    /// Puts the ids on the free list, after those already there, in order.
    fn free(&mut self, free: Vec<EntityId>) -> (r: Result<(), EntityAllocError>)
        ensures
            r is Ok,
            final(self).free_list() == old(self).free_list() + free@,
            final(self).count() == old(self).count(),
            old(self).wf() && (forall|i: int| 0 <= i < free@.len() ==> #[trigger] free@[i].index_spec() < old(self).count())
                ==> final(self).wf(),
    {
        let ids = free.as_slice();
        assert(ids@ == free@);
        self.free_all(ids)
    }
}

/// Law: an id handed out from a fresh index differs from every id waiting on
/// the free list, so it is not the id of any entity freed before.
pub proof fn lemma_fresh_id_not_freed(a: EntityAllocator)
    requires
        a.wf(),
    ensures
        forall|i: int| 0 <= i < a.free_list().len() ==> #[trigger] a.free_list()[i] != EntityId::of_index(a.count()),
{
    assert forall|i: int| 0 <= i < a.free_list().len() implies #[trigger] a.free_list()[i] != EntityId::of_index(a.count()) by {
        crate::id::lemma_generational_roundtrip(a.count(), 0, 0, 0);
        assert(a.free_list()[i].index_spec() < a.count());
    }
}

/// Law: freeing an id and allocating again hands back the same index with a
/// different generation.
pub proof fn lemma_free_then_alloc(e: EntityId)
    ensures
        e.next_generation_spec().index_spec() == e.index_spec(),
        e.next_generation_spec() != e,
{
    crate::id::lemma_next_generation_differs(e);
}

} // verus!
