//! Single 64-bit words seen as 64 bits, and what the masked shifts that read
//! and write a value do to each bit.

use vstd::arithmetic::power2::pow2;
use vstd::bits::{lemma_u64_pow2_no_overflow, lemma_u64_shl_is_mul, low_bits_mask};
use vstd::prelude::*;

verus! {

/// Bit `k` of `word`, bit 0 being the least significant.
pub open spec fn word_bit(word: u64, k: u64) -> bool {
    (word >> k) & 1 == 1
}

/// The word with ones in its lowest `len` bits and zeros above, for `len`
/// below 64.
pub open spec fn low_mask(len: u64) -> u64 {
    ((1u64 << len) - 1) as u64
}

/// Clearing `len` bits of a word from bit `shift` on and or-ing in `value`
/// shifted left by `shift` puts the bits of `value` there, as far as they
/// stay inside the word, and keeps every other bit.
pub(crate) proof fn lemma_masked_write_bit(old_word: u64, value: u64, shift: u64, len: u64, k: u64)
    by (bit_vector)
    requires
        shift < 64,
        len < 64,
        k < 64,
        value <= low_mask(len),
    ensures
        word_bit((old_word & !(low_mask(len) << shift)) | (value << shift), k) == (if shift <= k && k
            < shift + len {
            word_bit(value, (k - shift) as u64)
        } else {
            word_bit(old_word, k)
        }),
{
}

/// Clearing the lowest `rest` bits of a word and or-ing in `value` shifted
/// right by `done` puts bits `done` and up of `value` there and keeps every
/// other bit.
pub(crate) proof fn lemma_overflow_write_bit(old_word: u64, value: u64, done: u64, rest: u64, k: u64)
    by (bit_vector)
    requires
        0 < done < 64,
        0 < rest < 64,
        done + rest < 64,
        k < 64,
        value <= low_mask((done + rest) as u64),
    ensures
        word_bit((old_word & !low_mask(rest)) | (value >> done), k) == (if k < rest {
            word_bit(value, (k + done) as u64)
        } else {
            word_bit(old_word, k)
        }),
{
}

/// Bit `k` of what is read from bit `shift` of `first` on, `len` bits wide,
/// is bit `shift + k` of `first`, or of `second` what lies beyond the end of
/// `first`.
pub(crate) proof fn lemma_read_bit(first: u64, second: u64, shift: u64, len: u64, k: u64)
    by (bit_vector)
    requires
        shift < 64,
        len < 64,
        k < len,
    ensures
        shift + len <= 64 ==> word_bit((first >> shift) & low_mask(len), k) == word_bit(
            first,
            (shift + k) as u64,
        ),
        shift + len > 64 ==> word_bit(
            ((first >> shift) | (second << (64 - shift) as u64)) & low_mask(len),
            k,
        ) == (if shift + k < 64 {
            word_bit(first, (shift + k) as u64)
        } else {
            word_bit(second, (shift + k - 64) as u64)
        }),
{
}

/// Dropping the lowest bit of a word that fits in `len` bits leaves one that
/// fits in `len - 1` bits.
pub(crate) proof fn lemma_shifted_is_narrower(value: u64, len: u64)
    by (bit_vector)
    requires
        0 < len < 64,
        value >> len == 0,
    ensures
        (value >> 1) >> ((len - 1) as u64) == 0,
{
}

/// Bit `k` of a word shifted right by one is bit `k + 1` of the word.
pub(crate) proof fn lemma_shifted_bit(value: u64, k: u64)
    by (bit_vector)
    requires
        k < 63,
    ensures
        word_bit(value >> 1, k) == word_bit(value, (k + 1) as u64),
{
}

/// A word is its lowest bit plus twice the rest.
pub(crate) proof fn lemma_split_lowest_bit(value: u64)
    by (bit_vector)
    ensures
        value == (if word_bit(value, 0) {
            1u64
        } else {
            0u64
        }) + 2 * (value >> 1),
{
}

/// The zero word has no bit set.
pub(crate) proof fn lemma_zero_has_no_bit(k: u64)
    by (bit_vector)
    requires
        k < 64,
    ensures
        !word_bit(0, k),
{
}

/// A word masked to its lowest `len` bits has no bit set at or above `len`
/// and does not exceed the mask.
pub(crate) proof fn lemma_masked_is_narrow(word: u64, len: u64)
    by (bit_vector)
    requires
        len < 64,
    ensures
        (word & low_mask(len)) >> len == 0,
        word & low_mask(len) <= low_mask(len),
{
}

/// A word that does not exceed the mask of `len` bits has no bit set at or
/// above `len`.
pub(crate) proof fn lemma_bounded_is_narrow(word: u64, len: u64)
    by (bit_vector)
    requires
        len < 64,
        word <= low_mask(len),
    ensures
        word >> len == 0,
{
}

/// Words that agree on every bit from `from` up agree once both are shifted
/// right by `from`.
proof fn lemma_high_bits_equal(a: u64, b: u64, from: u64)
    requires
        from < 64,
        forall|k: u64| from <= k < 64 ==> word_bit(a, k) == word_bit(b, k),
    ensures
        a >> from == b >> from,
    decreases 64 - from,
{
    if from == 63 {
        assert(a >> 63 == b >> 63) by (bit_vector)
            requires
                word_bit(a, 63) == word_bit(b, 63),
        ;
    } else {
        let next = (from + 1) as u64;
        lemma_high_bits_equal(a, b, next);
        assert(a >> from == b >> from) by (bit_vector)
            requires
                from < 63,
                next == from + 1,
                a >> next == b >> next,
                word_bit(a, from) == word_bit(b, from),
        ;
    }
}

/// Words that agree on every bit are equal.
pub proof fn lemma_words_equal_by_bits(a: u64, b: u64)
    requires
        forall|k: u64| k < 64 ==> word_bit(a, k) == word_bit(b, k),
    ensures
        a == b,
{
    lemma_high_bits_equal(a, b, 0);
    assert(a == b) by (bit_vector)
        requires
            a >> 0 == b >> 0,
    ;
}

/// For a width below 64, `low_mask` is `2^len - 1`.
pub proof fn lemma_low_mask_is_low_bits_mask(len: u64)
    requires
        len < 64,
    ensures
        1u64 << len == pow2(len as nat),
        1u64 << len >= 1,
        low_mask(len) == low_bits_mask(len as nat),
{
    lemma_u64_pow2_no_overflow(len as nat);
    lemma_u64_shl_is_mul(1, len);
}

} // verus!
