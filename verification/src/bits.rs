//! The bits of a byte, counted from the most significant one.

use vstd::prelude::*;

verus! {

/// The byte whose only set bit is the one at `index`; index 0 is the most
/// significant bit, index 7 the least.
pub open spec fn single_bit(index: u8) -> u8 {
    0x80u8 >> index
}

/// Whether the bit of `byte` at `index` is set.
pub open spec fn bit_at(byte: u8, index: u8) -> bool {
    byte & single_bit(index) != 0
}

} // verus!
