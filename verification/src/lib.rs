//! A vector of unsigned values of one fixed width below 64 bits, packed
//! without gaps into 64-bit words.
//!
//! Values whose width is not a power of two take less memory this way than
//! in the next larger integer type, at the price of a few shifts and masks
//! in `get` and `set`. A hundred 10-bit values take 16 words, 128 bytes,
//! where a hundred `u16` take 200.
//!
//! Every function is verified: `get` returns what the last `set` of that
//! index wrote, `set` changes no other index, and no input makes either
//! panic.

pub mod bits;
pub mod error;
pub mod laws;
pub mod layout;
pub mod stream;
pub mod vector;

pub use crate::error::BitLongVecError;
pub use crate::vector::BitLongVec;
