//! Order independent hashing of identifier collections.
//!
//! Two values combine as `a + b + a * b` modulo 2^64, which is
//! `(a + 1) * (b + 1) - 1`; the operation is commutative and associative, so
//! folding a collection of raw ids gives the same identifier whatever the order
//! of the collection.

use vstd::prelude::*;
use vstd::arithmetic::div_mod::{lemma_fundamental_div_mod, lemma_mod_multiples_vanish, lemma_mod_bound};
use vstd::arithmetic::mul::{lemma_mul_is_commutative, lemma_mul_is_associative};

verus! {

/// The seed of every folded commutative identifier.
pub const COMMUTATIVE_HASH_PRIME: u64 = 0x29233AAB26330D;

pub open spec fn modulus() -> int {
    0x1_0000_0000_0000_0000
}

/// `a + b + a * b` modulo 2^64.
pub open spec fn combine_spec(a: u64, b: u64) -> u64 {
    (((a as int + 1) * (b as int + 1) - 1) % modulus()) as u64
}

/// Folds `ids` into `seed`, from the first element to the last.
pub open spec fn fold_ids(seed: u64, ids: Seq<u64>) -> u64
    decreases ids.len(),
{
    if ids.len() == 0 {
        seed
    } else {
        combine_spec(fold_ids(seed, ids.drop_last()), ids.last())
    }
}

/// The identifier of a collection of raw ids.
pub open spec fn commutative_hash(ids: Seq<u64>) -> u64 {
    fold_ids(COMMUTATIVE_HASH_PRIME, ids)
}

proof fn lemma_congruent_times_minus_one(x: int, y: int, z: int)
    requires
        x % modulus() == y % modulus(),
    ensures
        (x * z - 1) % modulus() == (y * z - 1) % modulus(),
{
    let m = modulus();
    lemma_fundamental_div_mod(x, m);
    lemma_fundamental_div_mod(y, m);
    let qx = x / m;
    let qy = y / m;
    let r = x % m;
    assert(x * z - 1 == m * (qx * z) + (r * z - 1)) by (nonlinear_arith)
        requires x == m * qx + r;
    assert(y * z - 1 == m * (qy * z) + (r * z - 1)) by (nonlinear_arith)
        requires y == m * qy + r;
    lemma_mod_multiples_vanish(qx * z, r * z - 1, m);
    lemma_mod_multiples_vanish(qy * z, r * z - 1, m);
}

/// Combining is commutative.
pub proof fn lemma_combine_commutative(a: u64, b: u64)
    ensures
        combine_spec(a, b) == combine_spec(b, a),
{
    lemma_mul_is_commutative(a as int + 1, b as int + 1);
}

/// Combining is associative.
pub proof fn lemma_combine_associative(a: u64, b: u64, c: u64)
    ensures
        combine_spec(combine_spec(a, b), c) == combine_spec(a, combine_spec(b, c)),
{
    let m = modulus();
    let pa = a as int + 1;
    let pb = b as int + 1;
    let pc = c as int + 1;
    assert(pa * pb - 1 >= 0) by (nonlinear_arith) requires pa >= 1, pb >= 1;
    assert(pb * pc - 1 >= 0) by (nonlinear_arith) requires pb >= 1, pc >= 1;
    lemma_mod_bound(pa * pb - 1, m);
    lemma_mod_bound(pb * pc - 1, m);
    let ab = combine_spec(a, b);
    let bc = combine_spec(b, c);
    assert(ab as int == (pa * pb - 1) % m);
    assert(bc as int == (pb * pc - 1) % m);
    // (ab + 1) is congruent to pa * pb
    lemma_mod_multiples_vanish(0, pa * pb - 1, m);
    assert((ab as int + 1 - 1) % m == (pa * pb - 1) % m);
    lemma_congruent_plus_one(ab as int + 1, pa * pb);
    lemma_congruent_times_minus_one(ab as int + 1, pa * pb, pc);
    lemma_congruent_plus_one(bc as int + 1, pb * pc);
    lemma_congruent_times_minus_one(bc as int + 1, pb * pc, pa);
    lemma_mul_is_associative(pa, pb, pc);
    lemma_mul_is_commutative(bc as int + 1, pa);
    lemma_mul_is_commutative(pb * pc, pa);
}

proof fn lemma_congruent_plus_one(x: int, y: int)
    requires
        (x - 1) % modulus() == (y - 1) % modulus(),
    ensures
        x % modulus() == y % modulus(),
{
    let m = modulus();
    lemma_fundamental_div_mod(x - 1, m);
    lemma_fundamental_div_mod(y - 1, m);
    let r = (x - 1) % m;
    lemma_mod_bound(x - 1, m);
    assert(x == m * ((x - 1) / m) + (r + 1));
    assert(y == m * ((y - 1) / m) + (r + 1));
    lemma_mod_multiples_vanish((x - 1) / m, r + 1, m);
    lemma_mod_multiples_vanish((y - 1) / m, r + 1, m);
}

/// Folding after combining one more id into the seed is the same as combining it last.
pub proof fn lemma_fold_seed_combine(seed: u64, x: u64, ids: Seq<u64>)
    ensures
        fold_ids(combine_spec(seed, x), ids) == combine_spec(fold_ids(seed, ids), x),
    decreases ids.len(),
{
    if ids.len() > 0 {
        let t = ids.drop_last();
        let y = ids.last();
        lemma_fold_seed_combine(seed, x, t);
        let f = fold_ids(seed, t);
        lemma_combine_associative(f, x, y);
        lemma_combine_commutative(x, y);
        lemma_combine_associative(f, y, x);
    }
}

/// Folding a concatenation folds the second part into the fold of the first.
pub proof fn lemma_fold_concat(seed: u64, a: Seq<u64>, b: Seq<u64>)
    ensures
        fold_ids(seed, a + b) == fold_ids(fold_ids(seed, a), b),
    decreases b.len(),
{
    if b.len() == 0 {
        assert(a + b =~= a);
    } else {
        lemma_fold_concat(seed, a, b.drop_last());
        assert((a + b).drop_last() =~= a + b.drop_last());
        assert((a + b).last() == b.last());
    }
}

/// The id at any position may be taken out of the fold and combined last.
pub proof fn lemma_fold_remove(seed: u64, ids: Seq<u64>, i: int)
    requires
        0 <= i < ids.len(),
    ensures
        fold_ids(seed, ids) == combine_spec(fold_ids(seed, ids.remove(i)), ids[i]),
{
    let front = ids.take(i);
    let back = ids.skip(i + 1);
    let x = ids[i];
    assert(ids =~= (front + seq![x]) + back);
    assert(ids.remove(i) =~= front + back);
    lemma_fold_concat(seed, front + seq![x], back);
    lemma_fold_concat(seed, front, seq![x]);
    assert(seq![x].drop_last() =~= Seq::<u64>::empty());
    assert(seq![x].last() == x);
    assert(fold_ids(fold_ids(seed, front), Seq::<u64>::empty()) == fold_ids(seed, front));
    assert(fold_ids(fold_ids(seed, front), seq![x]) == combine_spec(fold_ids(seed, front), x));
    lemma_fold_seed_combine(fold_ids(seed, front), x, back);
    lemma_fold_concat(seed, front, back);
}

/// The folded identifier of a collection does not depend on the order of its elements:
/// two sequences with the same elements, counted with multiplicity, fold to the same value.
pub proof fn lemma_fold_permutation(seed: u64, a: Seq<u64>, b: Seq<u64>)
    requires
        a.to_multiset() == b.to_multiset(),
    ensures
        fold_ids(seed, a) == fold_ids(seed, b),
    decreases a.len(),
{
    broadcast use vstd::seq_lib::group_to_multiset_ensures;
    if a.len() == 0 {
        assert(b.to_multiset().len() == 0);
        assert(b =~= Seq::<u64>::empty());
    } else {
        let x = a.last();
        assert(a.drop_last() =~= a.remove(a.len() - 1));
        assert(a.to_multiset().count(x) > 0);
        assert(b.contains(x));
        let i = b.index_of(x);
        assert(a.drop_last().to_multiset() == a.to_multiset().remove(x));
        assert(b.remove(i).to_multiset() == b.to_multiset().remove(x));
        lemma_fold_permutation(seed, a.drop_last(), b.remove(i));
        lemma_fold_remove(seed, b, i);
    }
}

/// Law: the identifier of a collection of ids is independent of their order.
pub proof fn lemma_commutative_hash_order_independent(a: Seq<u64>, b: Seq<u64>)
    requires
        a.to_multiset() == b.to_multiset(),
    ensures
        commutative_hash(a) == commutative_hash(b),
{
    lemma_fold_permutation(COMMUTATIVE_HASH_PRIME, a, b);
}

/// An identifier built by combining raw ids in an order independent way.
#[derive(Copy, Clone, Debug, PartialEq, Eq, Structural, PartialOrd, Ord, Hash)]
pub struct CommutativeId(pub u64);

impl CommutativeId {
    /// Combines this identifier with another one.
    pub fn and(&self, other: &CommutativeId) -> (r: CommutativeId)
        ensures
            r.0 == combine_spec(self.0, other.0),
    {
        Self::combine(self, other)
    }

    /// `first + other + first * other`, wrapping at 2^64.
    pub fn combine(first: &Self, other: &Self) -> (r: CommutativeId)
        ensures
            r.0 == combine_spec(first.0, other.0),
    {
        let a = first.0;
        let b = other.0;
        let r = a.wrapping_add(b).wrapping_add(b.wrapping_mul(a));
        proof {
            let m = modulus();
            let ab = vstd::wrapping::u64_specs::wrapping_add(a, b);
            let ba = vstd::wrapping::u64_specs::wrapping_mul(b, a);
            assert(ab as int == (a as int + b as int) % m) by {
                if a as int + b as int >= m {
                    lemma_mod_multiples_vanish(1, a as int + b as int - m, m);
                    vstd::arithmetic::div_mod::lemma_small_mod((a as int + b as int - m) as nat, m as nat);
                } else {
                    vstd::arithmetic::div_mod::lemma_small_mod((a as int + b as int) as nat, m as nat);
                }
            }
            assert(ba as int == (b as int * a as int) % m);
            assert(r as int == (ab as int + ba as int) % m) by {
                if ab as int + ba as int >= m {
                    lemma_mod_multiples_vanish(1, ab as int + ba as int - m, m);
                    vstd::arithmetic::div_mod::lemma_small_mod((ab as int + ba as int - m) as nat, m as nat);
                } else {
                    vstd::arithmetic::div_mod::lemma_small_mod((ab as int + ba as int) as nat, m as nat);
                }
            }
            vstd::arithmetic::div_mod::lemma_add_mod_noop(a as int + b as int, b as int * a as int, m);
            assert((a as int + 1) * (b as int + 1) - 1 == (a as int + b as int) + b as int * a as int) by (nonlinear_arith);
        }
        CommutativeId(r)
    }

    /// True when the identifier is not zero.
    pub fn non_zero(&self) -> (r: bool)
        ensures
            r == (self.0 != 0),
    {
        !(self.0 == 0)
    }

    pub fn raw(&self) -> (r: u64)
        ensures
            r == self.0,
    {
        self.0
    }

    /// The identifier of a collection of raw ids, folded from the first to the last.
    pub fn from_raw_ids(ids: &[u64]) -> (r: CommutativeId)
        ensures
            r.0 == commutative_hash(ids@),
    {
        let mut acc = CommutativeId(COMMUTATIVE_HASH_PRIME);
        let mut i: usize = 0;
        while i < ids.len()
            invariant
                i <= ids@.len(),
                acc.0 == fold_ids(COMMUTATIVE_HASH_PRIME, ids@.take(i as int)),
            decreases ids@.len() - i,
        {
            assert(ids@.take(i as int + 1).drop_last() =~= ids@.take(i as int));
            acc = CommutativeId::combine(&acc, &CommutativeId(ids[i]));
            i = i + 1;
        }
        assert(ids@.take(ids@.len() as int) =~= ids@);
        acc
    }

    /// The identifier of a collection of commutative ids, folded from the first to the last.
    pub fn from_ids(ids: &[CommutativeId]) -> (r: CommutativeId)
        ensures
            r.0 == commutative_hash(ids@.map_values(|c: CommutativeId| c.0)),
    {
        let ghost raws = ids@.map_values(|c: CommutativeId| c.0);
        let mut acc = CommutativeId(COMMUTATIVE_HASH_PRIME);
        let mut i: usize = 0;
        while i < ids.len()
            invariant
                i <= ids@.len(),
                raws == ids@.map_values(|c: CommutativeId| c.0),
                acc.0 == fold_ids(COMMUTATIVE_HASH_PRIME, raws.take(i as int)),
            decreases ids@.len() - i,
        {
            assert(raws.take(i as int + 1).drop_last() =~= raws.take(i as int));
            acc = CommutativeId::combine(&acc, &ids[i]);
            i = i + 1;
        }
        assert(raws.take(ids@.len() as int) =~= raws);
        acc
    }
}

} // verus!
