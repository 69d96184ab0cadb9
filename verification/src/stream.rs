//! A sequence of words seen as one stream of bits, and the numbers written
//! in runs of its bits.

use crate::bits::{
    lemma_shifted_bit, lemma_shifted_is_narrower, lemma_split_lowest_bit,
    lemma_words_equal_by_bits, lemma_zero_has_no_bit, word_bit,
};
use vstd::arithmetic::power2::{lemma2_to64, lemma_pow2_unfold, pow2};
use vstd::prelude::*;

verus! {

/// Bit `n` of the stream obtained by laying the words end to end, the least
/// significant bit of `words[0]` first.
pub open spec fn stream_bit(words: Seq<u64>, n: int) -> bool {
    word_bit(words[n / 64], (n % 64) as u64)
}

/// The number whose binary digits, least significant first, are the `len`
/// bits of the stream that begin at position `start`.
pub open spec fn stream_field(words: Seq<u64>, start: int, len: nat) -> nat
    decreases len,
{
    if len == 0 {
        0
    } else {
        (if stream_bit(words, start) {
            1nat
        } else {
            0nat
        }) + 2 * stream_field(words, start + 1, (len - 1) as nat)
    }
}

/// `after` is `before` with the `len` bits from position `start` replaced by
/// the low `len` bits of `value`, and every other bit left as it was.
pub open spec fn stream_written(
    before: Seq<u64>,
    after: Seq<u64>,
    start: int,
    len: nat,
    value: u64,
) -> bool {
    &&& after.len() == before.len()
    &&& forall|n: int|
        0 <= n < 64 * before.len() ==> #[trigger] stream_bit(after, n) == (if start <= n < start
            + len {
            word_bit(value, (n - start) as u64)
        } else {
            stream_bit(before, n)
        })
}

/// A bit that lies in a zero word is not set.
pub proof fn lemma_bit_of_zero_word(words: Seq<u64>, n: int)
    requires
        0 <= n < 64 * words.len(),
        words[n / 64] == 0,
    ensures
        !stream_bit(words, n),
{
    lemma_zero_has_no_bit((n % 64) as u64);
}

/// A field of `len` bits holds a number below `2^len`.
pub proof fn lemma_field_bound(words: Seq<u64>, start: int, len: nat)
    ensures
        stream_field(words, start, len) < pow2(len),
    decreases len,
{
    if len == 0 {
        lemma2_to64();
    } else {
        lemma_field_bound(words, start + 1, (len - 1) as nat);
        lemma_pow2_unfold(len);
    }
}

/// Two streams that agree on every bit of a field hold the same number in it.
pub proof fn lemma_field_agrees(a: Seq<u64>, b: Seq<u64>, start: int, len: nat)
    requires
        forall|n: int| start <= n < start + len ==> #[trigger] stream_bit(a, n) == stream_bit(b, n),
    ensures
        stream_field(a, start, len) == stream_field(b, start, len),
    decreases len,
{
    if len > 0 {
        lemma_field_agrees(a, b, start + 1, (len - 1) as nat);
    }
}

/// Fields that hold the same number have the same bits.
pub proof fn lemma_field_determines_bits(a: Seq<u64>, b: Seq<u64>, start: int, len: nat)
    requires
        stream_field(a, start, len) == stream_field(b, start, len),
    ensures
        forall|n: int| start <= n < start + len ==> #[trigger] stream_bit(a, n) == stream_bit(b, n),
    decreases len,
{
    if len > 0 {
        lemma_field_determines_bits(a, b, start + 1, (len - 1) as nat);
    }
}

/// Streams of one length that agree on every bit are the same words.
pub proof fn lemma_streams_equal(a: Seq<u64>, b: Seq<u64>)
    requires
        a.len() == b.len(),
        forall|n: int| 0 <= n < 64 * a.len() ==> #[trigger] stream_bit(a, n) == stream_bit(b, n),
    ensures
        a == b,
{
    assert forall|w: int| 0 <= w < a.len() implies a[w] == b[w] by {
        assert forall|k: u64| k < 64 implies word_bit(a[w], k) == word_bit(b[w], k) by {
            let n = 64 * w + k;
            assert(n / 64 == w && n % 64 == k);
            assert(stream_bit(a, n) == stream_bit(b, n));
        }
        lemma_words_equal_by_bits(a[w], b[w]);
    }
    assert(a =~= b);
}

/// A field with no bit set holds zero.
pub proof fn lemma_field_of_zeros(words: Seq<u64>, start: int, len: nat)
    requires
        forall|n: int| start <= n < start + len ==> !#[trigger] stream_bit(words, n),
    ensures
        stream_field(words, start, len) == 0,
    decreases len,
{
    if len > 0 {
        lemma_field_of_zeros(words, start + 1, (len - 1) as nat);
    }
}

/// A field whose bits are those of `value`, which has no bit set at or above
/// `len`, holds exactly `value`.
pub proof fn lemma_field_is_value(words: Seq<u64>, start: int, len: nat, value: u64)
    requires
        len < 64,
        value >> (len as u64) == 0,
        forall|n: int|
            start <= n < start + len ==> #[trigger] stream_bit(words, n) == word_bit(
                value,
                (n - start) as u64,
            ),
    ensures
        stream_field(words, start, len) == value,
    decreases len,
{
    if len == 0 {
        assert(value == 0) by (bit_vector)
            requires
                value >> 0 == 0,
        ;
    } else {
        let rest = value >> 1;
        lemma_shifted_is_narrower(value, len as u64);
        assert forall|n: int| start + 1 <= n < start + 1 + (len - 1) implies #[trigger] stream_bit(
            words,
            n,
        ) == word_bit(rest, (n - (start + 1)) as u64) by {
            lemma_shifted_bit(value, (n - (start + 1)) as u64);
        }
        lemma_field_is_value(words, start + 1, (len - 1) as nat, rest);
        lemma_split_lowest_bit(value);
        assert(stream_bit(words, start) == word_bit(value, 0));
    }
}

} // verus!
