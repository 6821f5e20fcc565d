//! Facts about single bits of a 64-bit word, and about the set of positions
//! at which a word holds a 1.

use vstd::prelude::*;
use vstd::set_lib::{lemma_int_range, lemma_len_subset, set_int_range};
use vstd::std_specs::bits::{axiom_u64_trailing_zeros, u64_trailing_zeros};

verus! {

/// Bit `i` of `v`, counted from the least significant bit, is 1.
pub open spec fn bit_at(v: u64, i: int) -> bool {
    0 <= i < 64 && (v >> (i as u64)) & 1 == 1
}

/// The positions at which `v` holds a 1.
pub open spec fn members(v: u64) -> Set<int> {
    Set::new(|i: int| bit_at(v, i))
}

/// The word with the single bit `i` set.
pub open spec fn mask(i: u8) -> u64
    recommends
        i <= 63,
{
    1u64 << (i as u64)
}

/// A word has at most 64 positions.
pub proof fn lemma_members_bounded(v: u64)
    ensures
        members(v).finite(),
        members(v).len() <= 64,
{
    lemma_int_range(0, 64);
    lemma_len_subset(members(v), set_int_range(0, 64));
}

/// The zero word holds no position.
pub proof fn lemma_members_zero()
    ensures
        members(0) == Set::<int>::empty(),
{
    assert forall|i: int| !bit_at(0, i) by {
        if 0 <= i < 64 {
            let k = i as u64;
            assert((0u64 >> k) & 1 == 0) by (bit_vector);
        }
    }
}

/// Testing a word against a one-bit mask reads that bit.
pub proof fn lemma_mask_test(v: u64, i: u8)
    requires
        i <= 63,
    ensures
        (v & mask(i) != 0) == bit_at(v, i as int),
{
    let k = i as u64;
    assert((v & (1u64 << k) != 0) == ((v >> k) & 1 == 1)) by (bit_vector)
        requires
            k < 64,
    ;
}

/// Or-ing a one-bit mask in adds that position and no other.
pub proof fn lemma_or_mask(v: u64, i: u8)
    requires
        i <= 63,
    ensures
        members(v | mask(i)) == members(v).insert(i as int),
{
    let k = i as u64;
    let w = v | mask(i);
    assert forall|j: int| bit_at(w, j) == (j == i || bit_at(v, j)) by {
        if 0 <= j < 64 {
            let l = j as u64;
            assert(((v | (1u64 << k)) >> l) & 1 == 1 <==> (l == k || (v >> l) & 1 == 1))
                by (bit_vector)
                requires
                    k < 64,
                    l < 64,
            ;
        }
    }
}

/// And-ing with the complement of a one-bit mask takes that position out and
/// no other.
pub proof fn lemma_clear_mask(v: u64, i: u8)
    requires
        i <= 63,
    ensures
        members(v & !mask(i)) == members(v).remove(i as int),
{
    let k = i as u64;
    let w = v & !mask(i);
    assert forall|j: int| bit_at(w, j) == (j != i && bit_at(v, j)) by {
        if 0 <= j < 64 {
            let l = j as u64;
            assert(((v & !(1u64 << k)) >> l) & 1 == 1 <==> (l != k && (v >> l) & 1 == 1))
                by (bit_vector)
                requires
                    k < 64,
                    l < 64,
            ;
        }
    }
}

/// Toggling a bit that is set clears it.
pub proof fn lemma_toggle_set_bit(v: u64, i: u8)
    requires
        i <= 63,
        bit_at(v, i as int),
    ensures
        v ^ mask(i) == v & !mask(i),
{
    let k = i as u64;
    assert(v ^ (1u64 << k) == v & !(1u64 << k)) by (bit_vector)
        requires
            k < 64,
            (v >> k) & 1 == 1,
    ;
}

/// And-ing two words keeps the positions that both hold.
pub proof fn lemma_and(a: u64, b: u64)
    ensures
        members(a & b) == members(a).intersect(members(b)),
{
    assert forall|j: int| bit_at(a & b, j) == (bit_at(a, j) && bit_at(b, j)) by {
        if 0 <= j < 64 {
            let l = j as u64;
            assert(((a & b) >> l) & 1 == 1 <==> ((a >> l) & 1 == 1 && (b >> l) & 1 == 1))
                by (bit_vector);
        }
    }
}

/// In a word that is not zero, the count of trailing zeros is the least
/// position that the word holds.
pub proof fn lemma_lowest(v: u64)
    requires
        v != 0,
    ensures
        u64_trailing_zeros(v) < 64,
        bit_at(v, u64_trailing_zeros(v) as int),
        forall|j: int| bit_at(v, j) ==> u64_trailing_zeros(v) <= j,
{
    axiom_u64_trailing_zeros(v);
    let k = u64_trailing_zeros(v);
    assert forall|j: int| bit_at(v, j) implies k <= j by {
        // below `k` every bit is 0
        let l = j as u64;
        assert(l < k ==> (v >> l) & 1 == 0);
    }
}

/// Taking one from a word that is not zero and and-ing the two clears the
/// lowest bit that is set.
pub proof fn lemma_clear_lowest(v: u64)
    requires
        v != 0,
    ensures
        v & ((v - 1) as u64) == v & !mask(u64_trailing_zeros(v) as u8),
        members(v & ((v - 1) as u64)) == members(v).remove(u64_trailing_zeros(v) as int),
{
    axiom_u64_trailing_zeros(v);
    let k = u64_trailing_zeros(v) as u64;
    let rest = (64 - k) as u64;
    assert(v & ((v - 1) as u64) == v & !(1u64 << k)) by (bit_vector)
        requires
            v != 0,
            k < 64,
            rest == 64 - k,
            (v >> k) & 1 == 1,
            v << rest == 0,
    ;
    lemma_clear_mask(v, k as u8);
}

/// Two words that hold the same positions are the same word.
pub proof fn lemma_members_injective(a: u64, b: u64)
    requires
        members(a) == members(b),
    ensures
        a == b,
{
    if a != b {
        let x = a ^ b;
        assert(x != 0) by (bit_vector)
            requires
                a != b,
                x == a ^ b,
        ;
        axiom_u64_trailing_zeros(x);
        let k = u64_trailing_zeros(x) as u64;
        assert(((a >> k) & 1 == 1) != ((b >> k) & 1 == 1)) by (bit_vector)
            requires
                k < 64,
                ((a ^ b) >> k) & 1 == 1,
        ;
        assert(members(a).contains(k as int) == bit_at(a, k as int));
        assert(members(b).contains(k as int) == bit_at(b, k as int));
    }
}

} // verus!
