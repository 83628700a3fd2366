//! The keyed sliding-window fingerprinters.
//!
//! Three variants share the key derivation and the rolling polynomial hash and
//! differ in how a hash state becomes a cut decision: taken as it is, or first
//! encrypted as one AES-128 block, by either of two AES implementations.

use crate::cipher::{aes128_block, aes128_enc_block, aes128_enc_encrypt, aes128_encrypt};
use crate::kdf::{aes_key_of, derive_aes_key, derive_poly_key, poly_key_of};
use crate::mixing::{
    block_cuts, block_of_state, eval_block, eval_state, state_block, state_cuts, CUT_MASK,
    CUT_MASK_WIDE,
};
use crate::rolling::{
    fingerprint, lemma_slide_all_is_tail, slide, slide_all, tail_window, PolyWindow, WINDOW_SIZE,
};
use vstd::prelude::*;

verus! {

/// A keyed fingerprinter over a sliding window of the last `WINDOW_SIZE` bytes.
///
/// What `eval` answers is a function of the master key and of the bytes in the
/// window alone, so a stream has the same cut points however it is fed.
pub trait FSWChunker: Sized {
    /// The instance's invariant.
    spec fn wf(&self) -> bool;

    /// The master key that the instance was made from.
    spec fn master(&self) -> Seq<u8>;

    /// The bytes in the window, oldest first.
    spec fn window(&self) -> Seq<u8>;

    /// The state of the polynomial hash.
    spec fn state(&self) -> u64;

    /// Whether a window with these bytes marks a cut under this master key.
    spec fn cuts(master: Seq<u8>, window: Seq<u8>) -> bool;

    /// The window never outgrows `WINDOW_SIZE`, and the state is the
    /// fingerprint of the window under the derived polynomial key.
    proof fn lemma_wf(&self)
        requires
            self.wf(),
        ensures
            self.window().len() <= WINDOW_SIZE,
            self.state() as int == fingerprint(poly_key_of(self.master()), self.window()),
    ;

    /// Derives the sub-keys from the master key and starts with an empty
    /// window.
    fn new(master_key: &[u8; 32]) -> (r: Self)
        ensures
            r.wf(),
            r.master() == master_key@,
            r.window() == Seq::<u8>::empty(),
            r.state() == 0,
    ;

    /// Empties the window and zeroes the state. The keys stay.
    fn reset(&mut self)
        requires
            old(self).wf(),
        ensures
            final(self).wf(),
            final(self).master() == old(self).master(),
            final(self).window() == Seq::<u8>::empty(),
            final(self).state() == 0,
    ;

    /// Takes one more byte into the window.
    fn update(&mut self, byte: u8)
        requires
            old(self).wf(),
        ensures
            final(self).wf(),
            final(self).master() == old(self).master(),
            final(self).window() == slide(old(self).window(), byte),
            final(self).state() as int == fingerprint(
                poly_key_of(final(self).master()),
                final(self).window(),
            ),
    ;

    /// Whether the window as it stands marks a cut.
    fn eval(&self) -> (cut: bool)
        requires
            self.wf(),
        ensures
            cut == Self::cuts(self.master(), self.window()),
    ;

    /// The length of the window.
    fn window_size() -> (size: usize)
        ensures
            size == WINDOW_SIZE,
    ;
}

/// Two fingerprinters of any variants, made from one master key and holding the
/// same window, hold the same state: the variants differ in `eval` alone.
pub proof fn lemma_variants_share_state<A: FSWChunker, B: FSWChunker>(a: &A, b: &B)
    requires
        a.wf(),
        b.wf(),
        a.master() == b.master(),
        a.window() == b.window(),
    ensures
        a.state() == b.state(),
{
    a.lemma_wf();
    b.lemma_wf();
}

/// A fingerprinter that has taken in all of `input` since it was made or reset
/// holds the fingerprint of the last bytes of `input`, at most a window of
/// them: once a full window has gone in, the bytes before it have no part in
/// the state.
pub proof fn lemma_rolling_window<C: FSWChunker>(c: &C, input: Seq<u8>)
    requires
        c.wf(),
        c.window() == slide_all(Seq::<u8>::empty(), input),
    ensures
        c.state() as int == fingerprint(poly_key_of(c.master()), tail_window(input)),
        input.len() >= WINDOW_SIZE ==> tail_window(input) == input.subrange(
            input.len() - WINDOW_SIZE,
            input.len() as int,
        ),
{
    c.lemma_wf();
    lemma_slide_all_is_tail(input);
}

/// The fingerprinter that tests the polynomial state itself.
pub struct PHTEChunkerNoAES {
    hash: PolyWindow,
    mask: u64,
    master: Ghost<Seq<u8>>,
}

/// The fingerprinter that encrypts the state with the `aes` crate's AES-128
/// before the test.
pub struct PHTEChunker {
    hash: PolyWindow,
    aes_key: [u8; 16],
    mask: u128,
    master: Ghost<Seq<u8>>,
}

/// The fingerprinter that encrypts the state with the `aes_crypto` crate's
/// AES-128 before the test.
pub struct PHTEChunkerAESCrypto {
    hash: PolyWindow,
    aes_key: [u8; 16],
    mask: u128,
    master: Ghost<Seq<u8>>,
}

impl PHTEChunkerNoAES {
    /// The state of the polynomial hash.
    pub fn state_value(&self) -> (r: u64)
        ensures
            r == self.state(),
    {
        self.hash.state_value()
    }
}

impl FSWChunker for PHTEChunkerNoAES {
    closed spec fn wf(&self) -> bool {
        &&& self.hash.wf()
        &&& self.hash.key() == poly_key_of(self.master@)
        &&& self.mask == CUT_MASK
    }

    closed spec fn master(&self) -> Seq<u8> {
        self.master@
    }

    closed spec fn window(&self) -> Seq<u8> {
        self.hash.window()
    }

    closed spec fn state(&self) -> u64 {
        self.hash.state()
    }

    open spec fn cuts(master: Seq<u8>, window: Seq<u8>) -> bool {
        state_cuts(fingerprint(poly_key_of(master), window) as u64, CUT_MASK)
    }

    proof fn lemma_wf(&self) {
        self.hash.lemma_wf();
    }

    fn new(master_key: &[u8; 32]) -> (r: Self) {
        let poly_key: u64 = derive_poly_key(master_key);
        PHTEChunkerNoAES {
            hash: PolyWindow::new(poly_key),
            mask: CUT_MASK,
            master: Ghost(master_key@),
        }
    }

    fn reset(&mut self) {
        self.hash.reset();
    }

    fn update(&mut self, byte: u8) {
        self.hash.update(byte);
    }

    fn eval(&self) -> (cut: bool) {
        proof {
            self.hash.lemma_wf();
        }
        eval_state(self.hash.state_value(), self.mask)
    }

    fn window_size() -> (size: usize) {
        WINDOW_SIZE
    }
}

impl PHTEChunker {
    /// The state of the polynomial hash.
    pub fn state_value(&self) -> (r: u64)
        ensures
            r == self.state(),
    {
        self.hash.state_value()
    }
}

impl FSWChunker for PHTEChunker {
    closed spec fn wf(&self) -> bool {
        &&& self.hash.wf()
        &&& self.hash.key() == poly_key_of(self.master@)
        &&& self.aes_key@ == aes_key_of(self.master@)
        &&& self.mask == CUT_MASK_WIDE
    }

    closed spec fn master(&self) -> Seq<u8> {
        self.master@
    }

    closed spec fn window(&self) -> Seq<u8> {
        self.hash.window()
    }

    closed spec fn state(&self) -> u64 {
        self.hash.state()
    }

    open spec fn cuts(master: Seq<u8>, window: Seq<u8>) -> bool {
        block_cuts(
            aes128_block(
                aes_key_of(master),
                state_block(fingerprint(poly_key_of(master), window) as u64),
            ),
            CUT_MASK_WIDE,
        )
    }

    proof fn lemma_wf(&self) {
        self.hash.lemma_wf();
    }

    fn new(master_key: &[u8; 32]) -> (r: Self) {
        let aes_key: [u8; 16] = derive_aes_key(master_key);
        let poly_key: u64 = derive_poly_key(master_key);
        PHTEChunker {
            hash: PolyWindow::new(poly_key),
            aes_key,
            mask: CUT_MASK_WIDE,
            master: Ghost(master_key@),
        }
    }

    fn reset(&mut self) {
        self.hash.reset();
    }

    fn update(&mut self, byte: u8) {
        self.hash.update(byte);
    }

    fn eval(&self) -> (cut: bool) {
        proof {
            self.hash.lemma_wf();
        }
        let block: [u8; 16] = block_of_state(self.hash.state_value());
        let ciphertext: [u8; 16] = aes128_encrypt(&self.aes_key, &block);
        eval_block(&ciphertext, self.mask)
    }

    fn window_size() -> (size: usize) {
        WINDOW_SIZE
    }
}

impl PHTEChunkerAESCrypto {
    /// The state of the polynomial hash.
    pub fn state_value(&self) -> (r: u64)
        ensures
            r == self.state(),
    {
        self.hash.state_value()
    }
}

impl FSWChunker for PHTEChunkerAESCrypto {
    closed spec fn wf(&self) -> bool {
        &&& self.hash.wf()
        &&& self.hash.key() == poly_key_of(self.master@)
        &&& self.aes_key@ == aes_key_of(self.master@)
        &&& self.mask == CUT_MASK_WIDE
    }

    closed spec fn master(&self) -> Seq<u8> {
        self.master@
    }

    closed spec fn window(&self) -> Seq<u8> {
        self.hash.window()
    }

    closed spec fn state(&self) -> u64 {
        self.hash.state()
    }

    open spec fn cuts(master: Seq<u8>, window: Seq<u8>) -> bool {
        block_cuts(
            aes128_enc_block(
                aes_key_of(master),
                state_block(fingerprint(poly_key_of(master), window) as u64),
            ),
            CUT_MASK_WIDE,
        )
    }

    proof fn lemma_wf(&self) {
        self.hash.lemma_wf();
    }

    fn new(master_key: &[u8; 32]) -> (r: Self) {
        let aes_key: [u8; 16] = derive_aes_key(master_key);
        let poly_key: u64 = derive_poly_key(master_key);
        PHTEChunkerAESCrypto {
            hash: PolyWindow::new(poly_key),
            aes_key,
            mask: CUT_MASK_WIDE,
            master: Ghost(master_key@),
        }
    }

    fn reset(&mut self) {
        self.hash.reset();
    }

    fn update(&mut self, byte: u8) {
        self.hash.update(byte);
    }

    fn eval(&self) -> (cut: bool) {
        proof {
            self.hash.lemma_wf();
        }
        let block: [u8; 16] = block_of_state(self.hash.state_value());
        let ciphertext: [u8; 16] = aes128_enc_encrypt(&self.aes_key, &block);
        eval_block(&ciphertext, self.mask)
    }

    fn window_size() -> (size: usize) {
        WINDOW_SIZE
    }
}

} // verus!
