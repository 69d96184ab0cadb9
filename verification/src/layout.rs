//! Where the values lie in the stream: how many words they take, and which
//! bits belong to which index.

use vstd::arithmetic::div_mod::{lemma_div_pos_is_pos, lemma_fundamental_div_mod, lemma_mod_bound};
use vstd::prelude::*;

verus! {

/// Number of 64-bit words that hold `capacity` values of `bits` bits each,
/// packed without gaps.
pub open spec fn word_count(capacity: nat, bits: nat) -> nat {
    ((capacity * bits + 63) / 64) as nat
}

/// `word_count` is the ceiling of `capacity * bits / 64`: the words hold all
/// the bits, and one word fewer would not.
pub proof fn lemma_word_count_is_ceiling(capacity: nat, bits: nat)
    ensures
        capacity * bits <= 64 * word_count(capacity, bits),
        64 * word_count(capacity, bits) < capacity * bits + 64,
{
}

/// With a width below 64 the word count never exceeds the capacity.
pub proof fn lemma_word_count_le_capacity(capacity: nat, bits: nat)
    requires
        bits < 64,
    ensures
        word_count(capacity, bits) <= capacity,
{
    assert(capacity * bits <= capacity * 63) by (nonlinear_arith)
        requires
            bits <= 63,
    ;
}

/// The bits of the value at `index` lie inside the words.
pub proof fn lemma_field_in_words(capacity: nat, bits: nat, index: nat)
    requires
        index < capacity,
    ensures
        0 <= index * bits,
        index * bits + bits <= capacity * bits,
        capacity * bits <= 64 * word_count(capacity, bits),
{
    assert(index * bits + bits <= capacity * bits) by (nonlinear_arith)
        requires
            index + 1 <= capacity,
    ;
}

/// The bits of two different indices do not overlap.
pub proof fn lemma_fields_disjoint(bits: nat, i: nat, j: nat)
    requires
        i != j,
    ensures
        i * bits + bits <= j * bits || j * bits + bits <= i * bits,
{
    if i < j {
        assert(i * bits + bits <= j * bits) by (nonlinear_arith)
            requires
                i + 1 <= j,
        ;
    } else {
        assert(j * bits + bits <= i * bits) by (nonlinear_arith)
            requires
                j + 1 <= i,
        ;
    }
}

/// Every bit below `capacity * bits` belongs to the value at index
/// `n / bits`.
pub proof fn lemma_bit_owner(capacity: nat, bits: nat, n: int)
    requires
        0 <= n < capacity * bits,
    ensures
        bits > 0,
        0 <= n / (bits as int) < capacity,
        (n / (bits as int)) * bits <= n < (n / (bits as int)) * bits + bits,
{
    let d = bits as int;
    let i = n / d;
    assert(d > 0) by (nonlinear_arith)
        requires
            0 <= n < capacity * d,
            d >= 0,
    ;
    lemma_fundamental_div_mod(n, d);
    lemma_mod_bound(n, d);
    lemma_div_pos_is_pos(n, d);
    assert(i * d == d * i) by (nonlinear_arith);
    if i >= capacity {
        assert(i * d >= capacity * d) by (nonlinear_arith)
            requires
                i >= capacity,
                d > 0,
        ;
    }
}

/// Computes `word_count` without overflow.
pub(crate) fn words_required(capacity: usize, bits: u8) -> (n: usize)
    requires
        bits < 64,
    ensures
        n == word_count(capacity as nat, bits as nat),
{
    proof {
        lemma_word_count_le_capacity(capacity as nat, bits as nat);
        assert(capacity * bits <= capacity * 63) by (nonlinear_arith)
            requires
                bits <= 63,
        ;
    }
    let total: u128 = (capacity as u128) * (bits as u128);
    ((total + 63) / 64) as usize
}

} // verus!
