//! Arithmetic in the Goldilocks prime field, on canonical `u64` representatives.
//!
//! The arithmetic itself is done by `risc0_core`; this module states what each
//! operation returns as plain modular arithmetic over the integers.

use risc0_core::field::goldilocks::GoldilocksElem;
use risc0_core::field::Elem;
use vstd::arithmetic::power::pow;
use vstd::prelude::*;

verus! {

/// The Goldilocks prime, `2^64 - 2^32 + 1`.
pub const GOLDILOCKS_PRIME: u64 = 0xFFFF_FFFF_0000_0001;

/// The field's modulus as a mathematical integer.
pub open spec fn modulus() -> int {
    0xFFFF_FFFF_0000_0001
}

/// The canonical representative of the field element that `x` stands for.
pub open spec fn canonical(x: u64) -> u64 {
    (x as int % modulus()) as u64
}

/// Reduces a raw integer into the field.
///
/// Trusted: `GoldilocksElem::new` stores `x % P`, and the conversion back to
/// `u64` hands out the stored value.
#[verifier::external_body]
pub(crate) fn field_new(x: u64) -> (r: u64)
    ensures
        r as int == (x as int) % modulus(),
{
    u64::from(GoldilocksElem::new(x))
}

/// Field addition.
///
/// Trusted: `Add` on two canonical elements of `GoldilocksElem` returns the
/// canonical representative of their sum.
#[verifier::external_body]
pub(crate) fn field_add(a: u64, b: u64) -> (r: u64)
    ensures
        r as int == (a as int + b as int) % modulus(),
{
    u64::from(GoldilocksElem::new(a) + GoldilocksElem::new(b))
}

/// Field subtraction.
///
/// Trusted: `Sub` on two canonical elements of `GoldilocksElem` returns the
/// canonical representative of their difference.
#[verifier::external_body]
pub(crate) fn field_sub(a: u64, b: u64) -> (r: u64)
    ensures
        r as int == (a as int - b as int) % modulus(),
{
    u64::from(GoldilocksElem::new(a) - GoldilocksElem::new(b))
}

/// Field multiplication.
///
/// Trusted: `Mul` on `GoldilocksElem` returns the canonical representative of
/// the product.
#[verifier::external_body]
pub(crate) fn field_mul(a: u64, b: u64) -> (r: u64)
    ensures
        r as int == (a as int * b as int) % modulus(),
{
    u64::from(GoldilocksElem::new(a) * GoldilocksElem::new(b))
}

/// Field exponentiation.
///
/// Trusted: `Elem::pow` multiplies by repeated squaring, starting from one, so
/// it returns the canonical representative of `a` raised to `exp`.
#[verifier::external_body]
pub(crate) fn field_pow(a: u64, exp: usize) -> (r: u64)
    ensures
        r as int == pow(a as int, exp as nat) % modulus(),
{
    u64::from(GoldilocksElem::new(a).pow(exp))
}

/// The two 32-bit words of an element, low word first.
///
/// Trusted: `Elem::to_u32_words` on `GoldilocksElem` returns the low half of the
/// stored value, then the high half.
#[verifier::external_body]
pub(crate) fn field_words(a: u64) -> (r: Vec<u32>)
    ensures
        r@.len() == 2,
        r@[0] as int == ((a as int) % modulus()) % 0x1_0000_0000,
        r@[1] as int == ((a as int) % modulus()) / 0x1_0000_0000,
{
    GoldilocksElem::new(a).to_u32_words()
}

} // verus!
