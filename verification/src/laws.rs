//! What holds of every `BitLongVec`, and of every write to one.

use crate::bits::{
    lemma_bounded_is_narrow, lemma_low_mask_is_low_bits_mask, lemma_words_equal_by_bits, word_bit,
};
use crate::error::BitLongVecError;
use crate::layout::{lemma_bit_owner, lemma_field_in_words, lemma_fields_disjoint};
use crate::stream::{
    lemma_bit_of_zero_word, lemma_field_agrees, lemma_field_bound, lemma_field_determines_bits,
    lemma_field_is_value, lemma_field_of_zeros, lemma_streams_equal, stream_bit, stream_field,
};
use crate::vector::BitLongVec;
use vstd::prelude::*;

verus! {

/// Writing a value that fits at an index below the capacity replaces that
/// index's value and no other.
pub proof fn lemma_write_updates_view(
    before: BitLongVec,
    after: BitLongVec,
    index: usize,
    value: u64,
)
    requires
        before.wf(),
        index < before.capacity(),
        value <= before.max_possible_value(),
        after.is_write_of(&before, index, value),
    ensures
        after.wf(),
        after@ == before@.update(index as int, value),
{
    let bits = before.bits_per_value() as nat;
    let capacity = before.capacity() as nat;
    lemma_low_mask_is_low_bits_mask(bits as u64);
    lemma_bounded_is_narrow(value, bits as u64);
    assert forall|j: int| 0 <= j < capacity implies after@[j] == before@.update(
        index as int,
        value,
    )[j] by {
        lemma_field_in_words(capacity, bits, j as nat);
        if j == index {
            lemma_field_is_value(after.words(), j * bits, bits, value);
        } else {
            lemma_fields_disjoint(bits, j as nat, index as nat);
            lemma_field_agrees(after.words(), before.words(), j * bits, bits);
        }
    }
}

/// A value written at an index is the value read back from that index.
pub proof fn lemma_set_then_get(before: BitLongVec, after: BitLongVec, index: usize, value: u64)
    requires
        before.wf(),
        index < before.capacity(),
        value <= before.max_possible_value(),
        after.is_write_of(&before, index, value),
    ensures
        after.spec_get(index) == Ok::<u64, BitLongVecError>(value),
{
    lemma_write_updates_view(before, after, index, value);
}

/// Writing at one index changes what is read at no other index.
pub proof fn lemma_set_keeps_others(
    before: BitLongVec,
    after: BitLongVec,
    index: usize,
    value: u64,
    other: usize,
)
    requires
        before.wf(),
        index < before.capacity(),
        value <= before.max_possible_value(),
        after.is_write_of(&before, index, value),
        other != index,
    ensures
        after.spec_get(other) == before.spec_get(other),
{
    lemma_write_updates_view(before, after, index, value);
}

/// Writing at an index changes no word that holds none of the index's bits.
pub proof fn lemma_write_keeps_other_words(
    before: BitLongVec,
    after: BitLongVec,
    index: usize,
    value: u64,
    word: int,
)
    requires
        before.wf(),
        after.is_write_of(&before, index, value),
        0 <= word < before.words().len(),
        64 * word + 64 <= index * before.bits_per_value() || index * before.bits_per_value()
            + before.bits_per_value() <= 64 * word,
    ensures
        after.words()[word] == before.words()[word],
{
    assert forall|k: u64| k < 64 implies word_bit(after.words()[word], k) == word_bit(
        before.words()[word],
        k,
    ) by {
        let n = 64 * word + k;
        assert(n / 64 == word && n % 64 == k);
        assert(stream_bit(after.words(), n) == stream_bit(before.words(), n));
    }
    lemma_words_equal_by_bits(after.words()[word], before.words()[word]);
}

/// Writing a value leaves the bits beyond the last value clear if they were.
pub proof fn lemma_write_keeps_spare_bits(
    before: BitLongVec,
    after: BitLongVec,
    index: usize,
    value: u64,
)
    requires
        before.wf(),
        index < before.capacity(),
        after.is_write_of(&before, index, value),
        before.spare_bits_clear(),
    ensures
        after.spare_bits_clear(),
{
    lemma_field_in_words(
        before.capacity() as nat,
        before.bits_per_value() as nat,
        index as nat,
    );
}

/// Every stored value is at most the maximum for the width.
pub proof fn lemma_values_in_range(vec: BitLongVec)
    requires
        vec.wf(),
    ensures
        vec.fits_width(vec.bits_per_value() as nat),
        forall|i: int| 0 <= i < vec.capacity() ==> #[trigger] vec@[i] <= vec.max_possible_value(),
{
    let bits = vec.bits_per_value() as nat;
    assert forall|i: int| 0 <= i < vec.capacity() implies #[trigger] vec@[i]
        <= vec.max_possible_value() by {
        lemma_field_bound(vec.words(), i * bits, bits);
    }
}

/// The values settle the buffer: two vectors of one capacity and width that
/// hold the same values, and have no bit set beyond the last value, have the
/// same words.
pub proof fn lemma_same_values_same_words(a: BitLongVec, b: BitLongVec)
    requires
        a.wf(),
        b.wf(),
        a.capacity() == b.capacity(),
        a.bits_per_value() == b.bits_per_value(),
        a@ == b@,
        a.spare_bits_clear(),
        b.spare_bits_clear(),
    ensures
        a.words() == b.words(),
{
    let bits = a.bits_per_value() as nat;
    let capacity = a.capacity() as nat;
    assert forall|n: int| 0 <= n < 64 * a.words().len() implies #[trigger] stream_bit(
        a.words(),
        n,
    ) == stream_bit(b.words(), n) by {
        if n < capacity * bits {
            lemma_bit_owner(capacity, bits, n);
            let i = n / (bits as int);
            lemma_field_bound(a.words(), i * bits, bits);
            lemma_field_bound(b.words(), i * bits, bits);
            assert(a@[i] == stream_field(a.words(), i * bits, bits) as u64);
            assert(b@[i] == stream_field(b.words(), i * bits, bits) as u64);
            lemma_field_determines_bits(a.words(), b.words(), i * bits, bits);
        }
    }
    lemma_streams_equal(a.words(), b.words());
}

/// A vector whose words are all zero holds only zeros and has no spare bit
/// set.
pub proof fn lemma_zeros_view(vec: BitLongVec)
    requires
        vec.wf(),
        forall|w: int| 0 <= w < vec.words().len() ==> vec.words()[w] == 0,
    ensures
        vec@ == Seq::new(vec.capacity() as nat, |i: int| 0u64),
        vec.spare_bits_clear(),
{
    let bits = vec.bits_per_value() as nat;
    let capacity = vec.capacity() as nat;
    assert forall|n: int| 0 <= n < 64 * vec.words().len() implies !#[trigger] stream_bit(
        vec.words(),
        n,
    ) by {
        lemma_bit_of_zero_word(vec.words(), n);
    }
    assert forall|i: int| 0 <= i < capacity implies vec@[i] == 0 by {
        lemma_field_in_words(capacity, bits, i as nat);
        lemma_field_of_zeros(vec.words(), i * bits, bits);
    }
}

} // verus!
