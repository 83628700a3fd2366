//! Big-endian integers and the byte layout of a field element.

use vstd::arithmetic::power2::{lemma2_to64, lemma_pow2_adds, pow2};
use vstd::prelude::*;

verus! {

/// The natural number that `bytes` spells in base 256, most significant byte
/// first.
pub open spec fn be_value(bytes: Seq<u8>) -> nat
    decreases bytes.len(),
{
    if bytes.len() == 0 {
        0
    } else {
        be_value(bytes.drop_last()) * 256 + bytes.last() as nat
    }
}

/// A big-endian number of `n` bytes is below `2^(8n)`.
pub proof fn lemma_be_value_bound(bytes: Seq<u8>)
    ensures
        be_value(bytes) < pow2(8 * bytes.len()),
    decreases bytes.len(),
{
    lemma2_to64();
    if bytes.len() > 0 {
        lemma_be_value_bound(bytes.drop_last());
        lemma_pow2_adds(8 * bytes.drop_last().len(), 8);
    }
}

/// Reads up to sixteen bytes as one big-endian integer.
pub fn be_uint(bytes: &[u8]) -> (r: u128)
    requires
        bytes.len() <= 16,
    ensures
        r as nat == be_value(bytes@),
{
    let mut value: u128 = 0;
    let mut i: usize = 0;
    while i < bytes.len()
        invariant
            i <= bytes.len() <= 16,
            value as nat == be_value(bytes@.take(i as int)),
        decreases bytes.len() - i,
    {
        proof {
            let next = bytes@.take(i + 1);
            assert(next.drop_last() == bytes@.take(i as int));
            lemma_be_value_bound(bytes@.take(i as int));
            lemma_be_value_bound(next);
            lemma2_to64();
            lemma_pow2_adds(64, 64);
            if i + 1 < 16 {
                lemma_pow2_adds(8 * (i + 1) as nat, (128 - 8 * (i + 1)) as nat);
                vstd::arithmetic::power2::lemma_pow2_pos((128 - 8 * (i + 1)) as nat);
                assert(pow2(8 * (i + 1) as nat) <= pow2(128)) by (nonlinear_arith)
                    requires
                        pow2(128) == pow2(8 * (i + 1) as nat) * pow2((128 - 8 * (i + 1)) as nat),
                        pow2((128 - 8 * (i + 1)) as nat) > 0,
                        pow2(8 * (i + 1) as nat) > 0,
                ;
            }
        }
        value = value * 256 + bytes[i] as u128;
        i += 1;
    }
    proof {
        assert(bytes@.take(bytes.len() as int) == bytes@);
    }
    value
}

} // verus!
