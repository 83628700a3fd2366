//! One-block AES-128 encryption, by two independent implementations.

use aes::cipher::generic_array::GenericArray;
use aes::cipher::{BlockEncrypt, KeyInit};
use aes::Aes128;
use aes_crypto::{Aes128Enc, AesBlock, AesEncrypt};
use vstd::prelude::*;

verus! {

/// The ciphertext that the `aes` crate's AES-128 gives for one block under a
/// key.
pub uninterp spec fn aes128_block(key: Seq<u8>, block: Seq<u8>) -> Seq<u8>;

/// The ciphertext that the `aes_crypto` crate's AES-128 gives for one block
/// under a key.
pub uninterp spec fn aes128_enc_block(key: Seq<u8>, block: Seq<u8>) -> Seq<u8>;

/// Encrypts one block with `aes::Aes128`.
///
/// Trusted: `Aes128::new` expands the key and `encrypt_block` replaces the
/// block by its ciphertext, which depends on the key and the block alone.
#[verifier::external_body]
pub(crate) fn aes128_encrypt(key: &[u8; 16], block: &[u8; 16]) -> (r: [u8; 16])
    ensures
        r@ == aes128_block(key@, block@),
{
    let cipher = Aes128::new(&GenericArray::from(*key));
    let mut data = GenericArray::from(*block);
    cipher.encrypt_block(&mut data);
    data.into()
}

/// Encrypts one block with `aes_crypto::Aes128Enc`.
///
/// Trusted: `Aes128Enc::from` expands the key and `encrypt_block` returns the
/// block's ciphertext, which depends on the key and the block alone.
#[verifier::external_body]
pub(crate) fn aes128_enc_encrypt(key: &[u8; 16], block: &[u8; 16]) -> (r: [u8; 16])
    ensures
        r@ == aes128_enc_block(key@, block@),
{
    let cipher = Aes128Enc::from(*key);
    let data: AesBlock = cipher.encrypt_block(AesBlock::from(*block));
    data.into()
}

} // verus!
