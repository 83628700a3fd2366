//! Derivation of the fingerprinter's sub-keys from the master key.
//!
//! Both sub-keys come from HKDF-SHA256 with an empty salt and the master key as
//! input keying material; they differ in the label and in the length asked for.

use crate::encoding::{be_uint, be_value, lemma_be_value_bound};
use crate::field::{field_new, modulus};
use hkdf::Hkdf;
use sha2::Sha256;
use vstd::arithmetic::div_mod::lemma_mod_bound;
use vstd::arithmetic::power2::lemma2_to64;
use vstd::pervasive::unreached;
use vstd::prelude::*;

verus! {

#[verifier::external_type_specification]
#[verifier::external_body]
pub struct ExInvalidLength(hkdf::InvalidLength);

/// The most bytes that HKDF-SHA256 hands out for one label: 255 blocks of 32.
pub const HKDF_MAX_OUTPUT: usize = 8160;

/// The output keying material of HKDF-SHA256 with no salt, for the input keying
/// material `ikm`, the label `info` and `len` bytes asked for.
pub uninterp spec fn hkdf_sha256(ikm: Seq<u8>, info: Seq<u8>, len: nat) -> Seq<u8>;

/// Runs HKDF-SHA256 without salt and fills `N` bytes.
///
/// Trusted: `Hkdf::<Sha256>::new` with no salt always succeeds, and
/// `Hkdf::expand` fails exactly when more than 255 hash outputs are asked for;
/// otherwise it fills the whole buffer with a value that depends on the input
/// keying material, the label and the length alone.
#[verifier::external_body]
pub(crate) fn hkdf_expand<const N: usize>(ikm: &[u8], info: &[u8]) -> (r: Result<
    [u8; N],
    hkdf::InvalidLength,
>)
    ensures
        r is Ok <==> N <= HKDF_MAX_OUTPUT,
        r matches Ok(okm) ==> okm@ == hkdf_sha256(ikm@, info@, N as nat),
{
    let hk = Hkdf::<Sha256>::new(None, ikm);
    let mut okm = [0u8; N];
    match hk.expand(info, &mut okm) {
        Ok(()) => Ok(okm),
        Err(e) => Err(e),
    }
}

/// The label of the polynomial key: the ASCII text `chunker-poly-key`.
pub open spec fn poly_label() -> Seq<u8> {
    seq![99u8, 104, 117, 110, 107, 101, 114, 45, 112, 111, 108, 121, 45, 107, 101, 121]
}

/// The label of the AES key: the ASCII text `chunker-aes-key`.
pub open spec fn aes_label() -> Seq<u8> {
    seq![99u8, 104, 117, 110, 107, 101, 114, 45, 97, 101, 115, 45, 107, 101, 121]
}

/// The field element that derived bytes stand for: the bytes read as a
/// big-endian integer and reduced into the field.
pub open spec fn key_of_bytes(okm: Seq<u8>) -> u64 {
    (be_value(okm) as int % modulus()) as u64
}

/// The polynomial key that belongs to a master key, made of eight derived
/// bytes.
pub open spec fn poly_key_of(master: Seq<u8>) -> u64 {
    key_of_bytes(hkdf_sha256(master, poly_label(), 8))
}

/// The AES-128 key that belongs to a master key: sixteen derived bytes.
pub open spec fn aes_key_of(master: Seq<u8>) -> Seq<u8> {
    hkdf_sha256(master, aes_label(), 16)
}

/// Turns eight derived bytes into a canonical field element.
pub fn poly_key_from_bytes(okm: &[u8; 8]) -> (key: u64)
    ensures
        key == key_of_bytes(okm@),
        (key as int) < modulus(),
{
    let raw: u128 = be_uint(okm.as_slice());
    proof {
        lemma_be_value_bound(okm@);
        lemma2_to64();
        lemma_mod_bound(raw as int, modulus());
    }
    field_new(raw as u64)
}

/// Derives the polynomial key, a canonical field element.
pub fn derive_poly_key(master_key: &[u8; 32]) -> (key: u64)
    ensures
        key == poly_key_of(master_key@),
        (key as int) < modulus(),
{
    let label: [u8; 16] = [99, 104, 117, 110, 107, 101, 114, 45, 112, 111, 108, 121, 45, 107, 101, 121];
    assert(label@ =~= poly_label());
    match hkdf_expand::<8>(master_key.as_slice(), label.as_slice()) {
        Ok(okm) => poly_key_from_bytes(&okm),
        Err(_) => unreached(),
    }
}

/// Derives the AES-128 key.
pub fn derive_aes_key(master_key: &[u8; 32]) -> (key: [u8; 16])
    ensures
        key@ == aes_key_of(master_key@),
{
    let label: [u8; 15] = [99, 104, 117, 110, 107, 101, 114, 45, 97, 101, 115, 45, 107, 101, 121];
    assert(label@ =~= aes_label());
    match hkdf_expand::<16>(master_key.as_slice(), label.as_slice()) {
        Ok(okm) => okm,
        Err(_) => unreached(),
    }
}

} // verus!
