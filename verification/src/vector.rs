//! The vector itself: its construction, `get`, `set` and `resize`.

use crate::bits::{
    lemma_low_mask_is_low_bits_mask, lemma_masked_is_narrow, lemma_masked_write_bit,
    lemma_overflow_write_bit, lemma_read_bit, word_bit,
};
use crate::error::BitLongVecError;
use crate::laws::{lemma_write_keeps_spare_bits, lemma_write_updates_view, lemma_zeros_view};
use crate::layout::{lemma_field_in_words, word_count, words_required};
use crate::stream::{lemma_field_is_value, stream_bit, stream_field, stream_written};
use vstd::bits::low_bits_mask;
use vstd::prelude::*;

verus! {

/// A fixed number of unsigned values of one fixed width below 64 bits, packed
/// without gaps into 64-bit words.
#[derive(Debug, PartialEq)]
pub struct BitLongVec {
    capacity: usize,
    bits_per_value: u8,
    max_possible_value: u64,
    data: Vec<u64>,
}

impl View for BitLongVec {
    type V = Seq<u64>;

    /// The stored values in index order: value `i` is the number written in
    /// the `bits_per_value` bits of the buffer that begin at bit
    /// `i * bits_per_value`.
    open spec fn view(&self) -> Seq<u64> {
        Seq::new(
            self.capacity() as nat,
            |i: int|
                stream_field(
                    self.words(),
                    i * self.bits_per_value(),
                    self.bits_per_value() as nat,
                ) as u64,
        )
    }
}

impl BitLongVec {
    /// Number of values held; `capacity()` in contracts.
    pub closed spec fn spec_capacity(&self) -> usize {
        self.capacity
    }

    /// Width of each value in bits; `bits_per_value()` in contracts.
    pub closed spec fn spec_bits_per_value(&self) -> u8 {
        self.bits_per_value
    }

    /// Largest value that fits in the width; `max_possible_value()` in
    /// contracts.
    pub closed spec fn spec_max_possible_value(&self) -> u64 {
        self.max_possible_value
    }

    /// The words of the buffer.
    pub closed spec fn words(&self) -> Seq<u64> {
        self.data@
    }

    /// What holds of every vector: the width is below 64, the maximum is
    /// `2^width - 1`, and the buffer has exactly the words that the capacity
    /// and the width call for.
    pub open spec fn wf(&self) -> bool {
        &&& self.bits_per_value() < 64
        &&& self.max_possible_value() == low_bits_mask(self.bits_per_value() as nat)
        &&& self.words().len() == word_count(self.capacity() as nat, self.bits_per_value() as nat)
    }

    /// `wf` holds of every value of the type that executable code can hold.
    #[verifier::type_invariant]
    spec fn inv(&self) -> bool {
        self.wf()
    }

    /// No bit of the buffer beyond the last value is set.
    pub open spec fn spare_bits_clear(&self) -> bool {
        forall|n: int|
            self.capacity() * self.bits_per_value() <= n < 64 * self.words().len()
                ==> !#[trigger] stream_bit(self.words(), n)
    }

    /// Every value fits in `bits` bits.
    pub open spec fn fits_width(&self, bits: nat) -> bool {
        forall|i: int| 0 <= i < self.capacity() ==> #[trigger] self@[i] <= low_bits_mask(bits)
    }

    /// `self` is `before` after `value` was written at `index`: capacity and
    /// width are the same, the bits of `index` are those of `value`, and every
    /// other bit of the buffer is as it was.
    pub open spec fn is_write_of(&self, before: &BitLongVec, index: usize, value: u64) -> bool {
        &&& self.capacity() == before.capacity()
        &&& self.bits_per_value() == before.bits_per_value()
        &&& self.max_possible_value() == before.max_possible_value()
        &&& stream_written(
            before.words(),
            self.words(),
            index * before.bits_per_value(),
            before.bits_per_value() as nat,
            value,
        )
    }

    /// What `get` returns: the value at `index`, or `IndexOutOfBounds` where
    /// `index` is not below the capacity.
    pub open spec fn spec_get(&self, index: usize) -> Result<u64, BitLongVecError> {
        if index < self.capacity() {
            Ok(self@[index as int])
        } else {
            Err(BitLongVecError::IndexOutOfBounds)
        }
    }

    /// Creates a vector of `capacity` zeros, each `bits_per_value` bits wide.
    ///
    /// Fails with `InvalidWidth` where `bits_per_value` is 64 or more.
    pub fn with_fixed_capacity(capacity: usize, bits_per_value: u8) -> (res: Result<
        BitLongVec,
        BitLongVecError,
    >)
        ensures
            bits_per_value >= 64 ==> res == Err::<BitLongVec, BitLongVecError>(
                BitLongVecError::InvalidWidth,
            ),
            bits_per_value < 64 ==> res is Ok,
            res matches Ok(v) ==> {
                &&& v.wf()
                &&& v.capacity() == capacity
                &&& v.bits_per_value() == bits_per_value
                &&& v.words() == Seq::new(
                    word_count(capacity as nat, bits_per_value as nat),
                    |i: int| 0u64,
                )
                &&& v@ == Seq::new(capacity as nat, |i: int| 0u64)
                &&& v.spare_bits_clear()
            },
    {
        if bits_per_value >= 64 {
            return Err(BitLongVecError::InvalidWidth);
        }
        let longs_required = words_required(capacity, bits_per_value);
        proof {
            lemma_low_mask_is_low_bits_mask(bits_per_value as u64);
        }
        let max_possible_value: u64 = (1u64 << (bits_per_value as u64)) - 1;
        let data = vec![0u64; longs_required];
        let vec = BitLongVec { capacity, bits_per_value, max_possible_value, data };
        proof {
            assert(vec.words() =~= Seq::new(
                word_count(capacity as nat, bits_per_value as nat),
                |i: int| 0u64,
            ));
            lemma_zeros_view(vec);
        }
        Ok(vec)
    }

    /// Wraps `data`, the buffer of a vector of `capacity` values of
    /// `bits_per_value` bits each, without copying or clearing it.
    ///
    /// Fails with `InvalidWidth` where `bits_per_value` is 64 or more, else
    /// with `CapacityMismatch` where `data` does not have the length that the
    /// capacity and the width call for.
    pub fn from_data(data: Vec<u64>, capacity: usize, bits_per_value: u8) -> (res: Result<
        BitLongVec,
        BitLongVecError,
    >)
        ensures
            bits_per_value >= 64 ==> res == Err::<BitLongVec, BitLongVecError>(
                BitLongVecError::InvalidWidth,
            ),
            bits_per_value < 64 && data@.len() != word_count(
                capacity as nat,
                bits_per_value as nat,
            ) ==> res == Err::<BitLongVec, BitLongVecError>(BitLongVecError::CapacityMismatch),
            bits_per_value < 64 && data@.len() == word_count(
                capacity as nat,
                bits_per_value as nat,
            ) ==> res is Ok,
            res matches Ok(v) ==> {
                &&& v.wf()
                &&& v.capacity() == capacity
                &&& v.bits_per_value() == bits_per_value
                &&& v.words() == data@
            },
    {
        if bits_per_value >= 64 {
            return Err(BitLongVecError::InvalidWidth);
        }
        let longs_required = words_required(capacity, bits_per_value);
        if longs_required != data.len() {
            return Err(BitLongVecError::CapacityMismatch);
        }
        proof {
            lemma_low_mask_is_low_bits_mask(bits_per_value as u64);
        }
        let max_possible_value: u64 = (1u64 << (bits_per_value as u64)) - 1;
        Ok(BitLongVec { capacity, bits_per_value, max_possible_value, data })
    }

    /// Number of values held.
    #[verifier::when_used_as_spec(spec_capacity)]
    pub fn capacity(&self) -> (c: usize)
        ensures
            c == self.spec_capacity(),
    {
        self.capacity
    }

    /// Width of each value in bits.
    #[verifier::when_used_as_spec(spec_bits_per_value)]
    pub fn bits_per_value(&self) -> (b: u8)
        ensures
            b == self.spec_bits_per_value(),
            b < 64,
    {
        proof {
            use_type_invariant(self);
        }
        self.bits_per_value
    }

    /// Largest value that fits in the width.
    #[verifier::when_used_as_spec(spec_max_possible_value)]
    pub fn max_possible_value(&self) -> (m: u64)
        ensures
            m == self.spec_max_possible_value(),
            m == low_bits_mask(self.bits_per_value() as nat),
    {
        proof {
            use_type_invariant(self);
        }
        self.max_possible_value
    }

    /// The buffer of words.
    pub fn data(&self) -> (d: &Vec<u64>)
        ensures
            d@ == self.words(),
            d@.len() == word_count(self.capacity() as nat, self.bits_per_value() as nat),
    {
        proof {
            use_type_invariant(self);
        }
        &self.data
    }

    /// Sets the value at `index` to `value`.
    ///
    /// Fails with `IndexOutOfBounds` where `index` is not below the capacity,
    /// else with `ValueOutOfRange` where `value` exceeds the maximum; the
    /// vector is then unchanged.
    pub fn set(&mut self, index: usize, value: u64) -> (res: Result<(), BitLongVecError>)
        ensures
            index >= old(self).capacity() ==> res == Err::<(), BitLongVecError>(
                BitLongVecError::IndexOutOfBounds,
            ),
            index < old(self).capacity() && value > old(self).max_possible_value() ==> res
                == Err::<(), BitLongVecError>(BitLongVecError::ValueOutOfRange),
            index < old(self).capacity() && value <= old(self).max_possible_value() ==> res is Ok,
            res is Err ==> *final(self) == *old(self),
            res is Ok ==> {
                &&& final(self).is_write_of(old(self), index, value)
                &&& final(self)@ == old(self)@.update(index as int, value)
                &&& old(self).spare_bits_clear() ==> final(self).spare_bits_clear()
            },
    {
        proof {
            use_type_invariant(&*self);
        }
        if index >= self.capacity {
            return Err(BitLongVecError::IndexOutOfBounds);
        }
        if value > self.max_possible_value {
            return Err(BitLongVecError::ValueOutOfRange);
        }
        if self.bits_per_value == 0 {
            proof {
                lemma_write_updates_view(*old(self), *self, index, value);
            }
            return Ok(());
        }
        let bits: u64 = self.bits_per_value as u64;
        let ghost offset: int = index * bits;
        proof {
            lemma_field_in_words(self.capacity as nat, bits as nat, index as nat);
            lemma_low_mask_is_low_bits_mask(bits);
            assert(index * bits <= index * 63) by (nonlinear_arith)
                requires
                    bits <= 63,
            ;
        }
        let bit_index: u128 = (index as u128) * (bits as u128);
        let long_index: usize = (bit_index / 64) as usize;
        let long_bit_start_index: u64 = (bit_index % 64) as u64;
        let old_first: u64 = self.data[long_index];
        let first: u64 = (old_first & !(self.max_possible_value << long_bit_start_index)) | (value
            << long_bit_start_index);
        self.data[long_index] = first;
        let ghost mut old_second: u64 = 0;
        let ghost mut bits_written: u64 = 1;
        let ghost mut bits_remaining: u64 = 1;
        // The value overlaps into the next word.
        if long_bit_start_index + bits > 64 {
            let written: u64 = 64 - long_bit_start_index;
            let remaining: u64 = bits - written;
            proof {
                lemma_low_mask_is_low_bits_mask(remaining);
            }
            let remainder_max_possible_value: u64 = (1u64 << remaining) - 1;
            let old_next: u64 = self.data[long_index + 1];
            let next: u64 = (old_next & !remainder_max_possible_value) | (value >> written);
            self.data[long_index + 1] = next;
            proof {
                old_second = old_next;
                bits_written = written;
                bits_remaining = remaining;
            }
        }
        proof {
            assert forall|n: int| 0 <= n < 64 * old(self).data@.len() implies #[trigger] stream_bit(
                self.data@,
                n,
            ) == (if offset <= n < offset + bits {
                word_bit(value, (n - offset) as u64)
            } else {
                stream_bit(old(self).data@, n)
            }) by {
                let k = (n % 64) as u64;
                if n / 64 == long_index {
                    lemma_masked_write_bit(old_first, value, long_bit_start_index, bits, k);
                } else if n / 64 == long_index + 1 && long_bit_start_index + bits > 64 {
                    lemma_overflow_write_bit(old_second, value, bits_written, bits_remaining, k);
                }
            }
            lemma_write_updates_view(*old(self), *self, index, value);
            if old(self).spare_bits_clear() {
                lemma_write_keeps_spare_bits(*old(self), *self, index, value);
            }
        }
        Ok(())
    }

    /// Returns the value at `index`.
    ///
    /// Fails with `IndexOutOfBounds` where `index` is not below the capacity.
    pub fn get(&self, index: usize) -> (res: Result<u64, BitLongVecError>)
        ensures
            res == self.spec_get(index),
            res matches Ok(value) ==> value <= self.max_possible_value(),
    {
        proof {
            use_type_invariant(self);
        }
        if index >= self.capacity {
            return Err(BitLongVecError::IndexOutOfBounds);
        }
        if self.bits_per_value == 0 {
            return Ok(0);
        }
        let bits: u64 = self.bits_per_value as u64;
        let ghost offset: int = index * bits;
        proof {
            lemma_field_in_words(self.capacity as nat, bits as nat, index as nat);
            assert(index * bits <= index * 63) by (nonlinear_arith)
                requires
                    bits <= 63,
            ;
        }
        let bit_index: u128 = (index as u128) * (bits as u128);
        let long_index: usize = (bit_index / 64) as usize;
        let long_bit_start_index: u64 = (bit_index % 64) as u64;
        let first: u64 = self.data[long_index];
        let mut value: u64 = first >> long_bit_start_index;
        let ghost mut second: u64 = 0;
        // The value overlaps into the next word.
        if long_bit_start_index + bits > 64 {
            let next: u64 = self.data[long_index + 1];
            proof {
                second = next;
            }
            value = value | (next << (64 - long_bit_start_index));
        }
        let result: u64 = value & self.max_possible_value;
        proof {
            lemma_low_mask_is_low_bits_mask(bits);
            lemma_masked_is_narrow(value, bits);
            assert forall|n: int| offset <= n < offset + bits implies #[trigger] stream_bit(
                self.data@,
                n,
            ) == word_bit(result, (n - offset) as u64) by {
                lemma_read_bit(first, second, long_bit_start_index, bits, (n - offset) as u64);
            }
            lemma_field_is_value(self.data@, offset, bits as nat, result);
        }
        Ok(result)
    }

    /// Returns a new vector with the same values, each `bits_per_value` bits
    /// wide; `self` is left as it is.
    ///
    /// Fails with `InvalidWidth` where `bits_per_value` is 64 or more, else
    /// with `ValueOutOfRange` where some value does not fit in the new width.
    pub fn resize(&self, bits_per_value: u8) -> (res: Result<BitLongVec, BitLongVecError>)
        ensures
            bits_per_value >= 64 ==> res == Err::<BitLongVec, BitLongVecError>(
                BitLongVecError::InvalidWidth,
            ),
            bits_per_value < 64 && !self.fits_width(bits_per_value as nat) ==> res == Err::<
                BitLongVec,
                BitLongVecError,
            >(BitLongVecError::ValueOutOfRange),
            bits_per_value < 64 && self.fits_width(bits_per_value as nat) ==> res is Ok,
            res matches Ok(v) ==> {
                &&& v.wf()
                &&& v.capacity() == self.capacity()
                &&& v.bits_per_value() == bits_per_value
                &&& v@ == self@
                &&& v.spare_bits_clear()
            },
    {
        let mut new_vec = BitLongVec::with_fixed_capacity(self.capacity, bits_per_value)?;
        for index in 0..self.capacity
            invariant
                new_vec.wf(),
                new_vec.capacity() == self.capacity(),
                new_vec.bits_per_value() == bits_per_value,
                new_vec.spare_bits_clear(),
                forall|i: int| 0 <= i < index ==> new_vec@[i] == self@[i],
                forall|i: int|
                    0 <= i < index ==> #[trigger] self@[i] <= low_bits_mask(bits_per_value as nat),
        {
            let value = self.get(index)?;
            new_vec.set(index, value)?;
        }
        assert(new_vec@ =~= self@);
        Ok(new_vec)
    }
}

} // verus!
