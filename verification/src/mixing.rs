//! From a hash state to a cut decision: the byte layout of the state and the
//! mask test on what comes out of the mixing stage.

use crate::encoding::{be_uint, be_value};
use crate::field::{canonical, field_words};
use vstd::prelude::*;

verus! {

/// The number of low bits that must vanish at a cut point; a cut then falls on
/// one position in `2^20` on average.
pub const AVG_CHUNK_SIZE_BITS: usize = 20;

/// The low-bit mask of the cut test, as wide as the unmixed state.
pub const CUT_MASK: u64 = 0xF_FFFF;

/// The low-bit mask of the cut test, as wide as a cipher block.
pub const CUT_MASK_WIDE: u128 = 0xF_FFFF;

/// The cut test on an unmixed state: the bits under the mask vanish.
pub open spec fn state_cuts(state: u64, mask: u64) -> bool {
    state & mask == 0
}

/// The cut test on a cipher block: read as a big-endian integer, its bits under
/// the mask vanish.
pub open spec fn block_cuts(ciphertext: Seq<u8>, mask: u128) -> bool {
    (be_value(ciphertext) as u128) & mask == 0
}

/// The cipher block that stands for a state: its eight bytes, least significant
/// first, then eight zero bytes.
pub open spec fn state_block(state: u64) -> Seq<u8> {
    seq![
        (state % 0x100) as u8,
        (state / 0x100 % 0x100) as u8,
        (state / 0x1_0000 % 0x100) as u8,
        (state / 0x100_0000 % 0x100) as u8,
        (state / 0x1_0000_0000 % 0x100) as u8,
        (state / 0x100_0000_0000 % 0x100) as u8,
        (state / 0x1_0000_0000_0000 % 0x100) as u8,
        (state / 0x100_0000_0000_0000 % 0x100) as u8,
        0u8,
        0u8,
        0u8,
        0u8,
        0u8,
        0u8,
        0u8,
        0u8,
    ]
}

/// Reads a state back from its two words as one integer: the canonical
/// representative.
pub fn state_integer(state: u64) -> (r: u64)
    ensures
        r == canonical(state),
{
    let ghost value = canonical(state);
    let words: Vec<u32> = field_words(state);
    let low: u64 = words[0] as u64;
    let high: u64 = words[1] as u64;
    assert(low == value % 0x1_0000_0000);
    assert(high == value / 0x1_0000_0000);
    assert((high << 32) | low == value) by (bit_vector)
        requires
            low == value % 0x1_0000_0000,
            high == value / 0x1_0000_0000,
    ;
    (high << 32) | low
}

/// Whether an unmixed state marks a cut under the mask.
pub fn eval_state(state: u64, mask: u64) -> (cut: bool)
    ensures
        cut == state_cuts(canonical(state), mask),
{
    let value: u64 = state_integer(state);
    value & mask == 0
}

/// Lays a state out as a cipher block.
pub fn block_of_state(state: u64) -> (block: [u8; 16])
    ensures
        block@ == state_block(canonical(state)),
{
    let ghost value = canonical(state);
    let words: Vec<u32> = field_words(state);
    let low: u64 = words[0] as u64;
    let high: u64 = words[1] as u64;
    assert(low == value % 0x1_0000_0000);
    assert(high == value / 0x1_0000_0000);
    assert({
        &&& low & 0xff == value % 0x100
        &&& (low >> 8) & 0xff == value / 0x100 % 0x100
        &&& (low >> 16) & 0xff == value / 0x1_0000 % 0x100
        &&& (low >> 24) & 0xff == value / 0x100_0000 % 0x100
        &&& low & 0xff < 0x100
        &&& (low >> 8) & 0xff < 0x100
        &&& (low >> 16) & 0xff < 0x100
        &&& (low >> 24) & 0xff < 0x100
    }) by (bit_vector)
        requires
            low == value % 0x1_0000_0000,
    ;
    assert({
        &&& high & 0xff == value / 0x1_0000_0000 % 0x100
        &&& (high >> 8) & 0xff == value / 0x100_0000_0000 % 0x100
        &&& (high >> 16) & 0xff == value / 0x1_0000_0000_0000 % 0x100
        &&& (high >> 24) & 0xff == value / 0x100_0000_0000_0000 % 0x100
        &&& high & 0xff < 0x100
        &&& (high >> 8) & 0xff < 0x100
        &&& (high >> 16) & 0xff < 0x100
        &&& (high >> 24) & 0xff < 0x100
    }) by (bit_vector)
        requires
            high == value / 0x1_0000_0000,
    ;
    let block: [u8; 16] = [
        (low & 0xff) as u8,
        ((low >> 8) & 0xff) as u8,
        ((low >> 16) & 0xff) as u8,
        ((low >> 24) & 0xff) as u8,
        (high & 0xff) as u8,
        ((high >> 8) & 0xff) as u8,
        ((high >> 16) & 0xff) as u8,
        ((high >> 24) & 0xff) as u8,
        0,
        0,
        0,
        0,
        0,
        0,
        0,
        0,
    ];
    assert(block@ =~= state_block(value));
    block
}

/// Whether a cipher block marks a cut under the mask.
pub fn eval_block(ciphertext: &[u8; 16], mask: u128) -> (cut: bool)
    ensures
        cut == block_cuts(ciphertext@, mask),
{
    let value: u128 = be_uint(ciphertext.as_slice());
    value & mask == 0
}

} // verus!
