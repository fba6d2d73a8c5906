//! Run-time tracked borrows of table columns.
//!
//! A sentinel counts the borrows of a column: a positive count is the number of
//! shared borrows, zero means not borrowed, and -1 means one exclusive borrow.

use vstd::prelude::*;
use std::sync::Arc;
use std::sync::atomic::{AtomicIsize, Ordering};

verus! {

pub const ONE_SHARED_BORROW: isize = 1isize;
pub const NOT_BORROWED: isize = 0isize;
pub const MUTABLE_BORROW: isize = -1isize;

/// The count after one more shared borrow of a column whose count is `cur`, or
/// `None` when no shared borrow may be taken: the column is exclusively borrowed,
/// or the count is at its maximum.
pub open spec fn shared_borrow_step(cur: isize) -> Option<isize> {
    if cur < NOT_BORROWED || cur + 1 > isize::MAX {
        None
    } else {
        Some((cur + 1) as isize)
    }
}

/// Law: any number of shared borrows may be taken together: a shared borrow
/// is refused only while the column is exclusively borrowed or the count is at
/// its maximum, and otherwise adds one to the count.
pub proof fn lemma_shared_borrows_stack(cur: isize)
    ensures
        NOT_BORROWED <= cur < isize::MAX ==> shared_borrow_step(cur) == Some((cur + 1) as isize),
        cur < NOT_BORROWED ==> shared_borrow_step(cur) is None,
        cur == isize::MAX ==> shared_borrow_step(cur) is None,
{
}

/// True when the borrow count denotes an exclusive borrow.
pub fn is_mut_borrow(value: isize) -> (r: bool)
    ensures
        r == (value < NOT_BORROWED),
{
    value < NOT_BORROWED
}

/// The count after one more shared borrow, see [shared_borrow_step].
pub fn next_shared_count(cur: isize) -> (r: Option<isize>)
    ensures
        r == shared_borrow_step(cur),
        NOT_BORROWED <= cur < isize::MAX ==> r == Some((cur + 1) as isize),
        cur < NOT_BORROWED || cur == isize::MAX ==> r is None,
{
    if is_mut_borrow(cur) {
        return None;
    }
    cur.checked_add(1isize)
}

/// Calls `AtomicIsize::fetch_update`, asking [next_shared_count] for the new
/// value. As std documents, the result is `Ok` with the previous value when the
/// closure returned `Some` for it (the value was then replaced), and `Err` with
/// the previous value when the closure returned `None`. Which value it saw
/// depends on the other threads, so nothing more is claimed.
#[verifier::external_body]
fn atomic_take_shared(a: &AtomicIsize) -> (r: Result<isize, isize>)
    ensures
        r matches Ok(prev) ==> shared_borrow_step(prev) is Some,
        r matches Err(prev) ==> shared_borrow_step(prev) is None,
{
    a.fetch_update(Ordering::SeqCst, Ordering::SeqCst, |cur| next_shared_count(cur))
}

/// Calls `AtomicIsize::compare_exchange`: as std documents, the result is `Ok`
/// with the previous value, equal to `current`, when the value was replaced by
/// `new`, and `Err` with the previous value, different from `current`, when not.
#[verifier::external_body]
fn atomic_compare_exchange(a: &AtomicIsize, current: isize, new: isize) -> (r: Result<isize, isize>)
    ensures
        r matches Ok(prev) ==> prev == current,
        r matches Err(prev) ==> prev != current,
{
    a.compare_exchange(current, new, Ordering::SeqCst, Ordering::SeqCst)
}

/// Calls `AtomicIsize::fetch_sub(1)`, which wraps on overflow and never panics.
#[verifier::external_body]
fn atomic_decrement(a: &AtomicIsize)
    opens_invariants none
    no_unwind
{
    a.fetch_sub(1isize, Ordering::SeqCst);
}

/// Calls `AtomicIsize::fetch_add(1)`, which wraps on overflow and never panics.
#[verifier::external_body]
fn atomic_increment(a: &AtomicIsize)
    opens_invariants none
    no_unwind
{
    a.fetch_add(1isize, Ordering::SeqCst);
}

/// Calls `std::mem::forget`, so that the borrow's release does not run.
#[verifier::external_body]
fn forget_shared_borrow(b: BorrowRef) {
    std::mem::forget(b)
}

/// The shared borrow counter of one column.
#[derive(Debug)]
pub struct BorrowSentinel(pub Arc<AtomicIsize>);

impl BorrowSentinel {
    /// A sentinel for a column that is not borrowed.
    pub fn new() -> (r: BorrowSentinel) {
        BorrowSentinel(Arc::new(AtomicIsize::new(NOT_BORROWED)))
    }

    /// Another handle on the same counter.
    pub fn share(&self) -> (r: BorrowSentinel)
        ensures
            r == *self,
    {
        BorrowSentinel(Arc::clone(&self.0))
    }
}

/// A shared borrow of a column, released when dropped.
pub struct BorrowRef {
    sentinel: BorrowSentinel,
    /// The count the borrow replaced when it was taken.
    replaced: Ghost<isize>,
}

impl BorrowRef {
    pub closed spec fn sentinel_spec(&self) -> BorrowSentinel {
        self.sentinel
    }

    /// The count this borrow replaced when it was taken: the counter then held
    /// this value and was moved one step up.
    pub closed spec fn replaced(&self) -> isize {
        self.replaced@
    }

    /// Takes a shared borrow, unless the column is exclusively borrowed.
    ///
    /// The count is replaced by [shared_borrow_step] of itself in one atomic
    /// step; `None` is returned when that step is `None`.
    pub fn new(borrow: BorrowSentinel) -> (r: Option<BorrowRef>)
        ensures
            r matches Some(b) ==> b.sentinel_spec() == borrow && shared_borrow_step(b.replaced()) is Some,
    {
        match atomic_take_shared(&borrow.0) {
            Ok(prev) => Some(BorrowRef { sentinel: borrow, replaced: Ghost(prev) }),
            Err(_) => None,
        }
    }

    /// Turns this shared borrow into an exclusive one, when it is the only
    /// borrow of the column; otherwise it is handed back unchanged.
    pub fn ascend(self) -> (r: Result<BorrowRefMut, BorrowRef>)
        ensures
            r matches Ok(m) ==> m.sentinel_spec() == self.sentinel_spec() && m.replaced() == ONE_SHARED_BORROW,
            r matches Err(b) ==> b == self,
    {
        match atomic_compare_exchange(&self.sentinel.0, ONE_SHARED_BORROW, MUTABLE_BORROW) {
            Ok(prev) => {
                let sentinel = self.sentinel.share();
                forget_shared_borrow(self);
                Ok(BorrowRefMut { sentinel, replaced: Ghost(prev) })
            },
            Err(_) => Err(self),
        }
    }
}

impl Drop for BorrowRef {
    fn drop(&mut self)
        opens_invariants none
        no_unwind
    {
        atomic_decrement(&self.sentinel.0);
    }
}

/// An exclusive borrow of a column, released when dropped.
pub struct BorrowRefMut {
    sentinel: BorrowSentinel,
    /// The count the borrow replaced with the exclusive mark when it was taken.
    replaced: Ghost<isize>,
}

impl BorrowRefMut {
    pub closed spec fn sentinel_spec(&self) -> BorrowSentinel {
        self.sentinel
    }

    /// The count this borrow replaced with the exclusive mark when it was taken.
    pub closed spec fn replaced(&self) -> isize {
        self.replaced@
    }

    /// Takes an exclusive borrow when the column is not borrowed at all.
    pub fn new(borrow: BorrowSentinel) -> (r: Option<BorrowRefMut>)
        ensures
            r matches Some(b) ==> b.sentinel_spec() == borrow && b.replaced() == NOT_BORROWED,
    {
        match atomic_compare_exchange(&borrow.0, NOT_BORROWED, MUTABLE_BORROW) {
            Ok(prev) => Some(BorrowRefMut { sentinel: borrow, replaced: Ghost(prev) }),
            Err(_) => None,
        }
    }
}

impl Drop for BorrowRefMut {
    fn drop(&mut self)
        opens_invariants none
        no_unwind
    {
        atomic_increment(&self.sentinel.0);
    }
}

/// A borrow of either kind.
pub enum RawBorrow {
    Immutable(BorrowRef),
    Mutable(BorrowRefMut),
}

#[derive(Debug, Clone, Copy, PartialEq, Eq, Structural)]
pub enum BorrowError {
    AlreadyBorrowed,
}

} // verus!
