//! The rolling polynomial hash over a sliding window of bytes.
//!
//! The hash of a window is the polynomial whose coefficients are the window's
//! bytes, oldest byte at the highest power, evaluated at the key in the
//! Goldilocks field. One update costs a subtraction, two multiplications and an
//! addition, whatever the window's length.

use crate::field::{field_add, field_mul, field_new, field_pow, field_sub, modulus};
use std::collections::VecDeque;
use vstd::arithmetic::div_mod::{
    lemma_add_mod_noop, lemma_mod_bound, lemma_mul_mod_noop_left, lemma_mul_mod_noop_right,
    lemma_small_mod, lemma_sub_mod_noop,
};
use vstd::arithmetic::power::{lemma_pow0, pow};
use vstd::prelude::*;

verus! {

/// The number of bytes that the fingerprint looks back on.
pub const WINDOW_SIZE: usize = 64;

/// The polynomial with the bytes of `w` as coefficients, evaluated at `k` over
/// the integers by Horner's rule: the last byte is the constant term.
pub open spec fn horner(k: int, w: Seq<u8>) -> int
    decreases w.len(),
{
    if w.len() == 0 {
        0
    } else {
        horner(k, w.drop_last()) * k + w.last() as int
    }
}

/// The same polynomial written as a sum: byte `i` of `n` is multiplied by `k`
/// to the power `n - 1 - i`.
pub open spec fn power_sum(k: int, w: Seq<u8>) -> int
    decreases w.len(),
{
    if w.len() == 0 {
        0
    } else {
        w.first() as int * pow(k, (w.len() - 1) as nat) + power_sum(k, w.drop_first())
    }
}

/// The fingerprint of a window under the key `k`: a canonical field element.
pub open spec fn fingerprint(k: u64, w: Seq<u8>) -> int {
    horner(k as int, w) % modulus()
}

/// The window after one more byte: the oldest byte leaves once the window is
/// full.
pub open spec fn slide(w: Seq<u8>, byte: u8) -> Seq<u8> {
    if w.len() < WINDOW_SIZE as nat {
        w.push(byte)
    } else {
        w.drop_first().push(byte)
    }
}

/// The window after all of `bytes` have gone in, in order.
pub open spec fn slide_all(w: Seq<u8>, bytes: Seq<u8>) -> Seq<u8>
    decreases bytes.len(),
{
    if bytes.len() == 0 {
        w
    } else {
        slide(slide_all(w, bytes.drop_last()), bytes.last())
    }
}

/// The last bytes of `bytes`, at most a window of them.
pub open spec fn tail_window(bytes: Seq<u8>) -> Seq<u8> {
    if bytes.len() <= WINDOW_SIZE as nat {
        bytes
    } else {
        bytes.subrange(bytes.len() - WINDOW_SIZE as int, bytes.len() as int)
    }
}

/// Taking the oldest byte out of a window takes its top term out of the
/// polynomial.
pub proof fn lemma_horner_front(k: int, w: Seq<u8>)
    requires
        w.len() > 0,
    ensures
        horner(k, w) == w.first() as int * pow(k, (w.len() - 1) as nat) + horner(
            k,
            w.drop_first(),
        ),
    decreases w.len(),
{
    if w.len() == 1 {
        lemma_pow0(k);
        assert(w.drop_last().len() == 0);
        assert(w.drop_first().len() == 0);
        assert(horner(k, w.drop_last()) == 0);
    } else {
        let init = w.drop_last();
        let rest = w.drop_first();
        lemma_horner_front(k, init);
        assert(rest.drop_last() == init.drop_first());
        assert(rest.last() == w.last());
        assert(init.first() == w.first());
        let top = w.first() as int;
        let p = pow(k, (w.len() - 2) as nat);
        assert(pow(k, (w.len() - 1) as nat) == k * p) by {
            reveal(pow);
        }
        let inner = horner(k, init.drop_first());
        assert((top * p + inner) * k == top * (k * p) + inner * k) by (nonlinear_arith);
    }
}

/// Horner's rule and the sum of powers give the same polynomial.
pub proof fn lemma_horner_is_power_sum(k: int, w: Seq<u8>)
    ensures
        horner(k, w) == power_sum(k, w),
    decreases w.len(),
{
    if w.len() > 0 {
        lemma_horner_front(k, w);
        lemma_horner_is_power_sum(k, w.drop_first());
    }
}

/// Feeding any bytes to an empty window leaves their last bytes in it, at most
/// a window of them.
pub proof fn lemma_slide_all_is_tail(bytes: Seq<u8>)
    ensures
        slide_all(Seq::<u8>::empty(), bytes) == tail_window(bytes),
    decreases bytes.len(),
{
    if bytes.len() > 0 {
        lemma_slide_all_is_tail(bytes.drop_last());
        assert(slide(tail_window(bytes.drop_last()), bytes.last()) =~= tail_window(bytes));
    } else {
        assert(tail_window(bytes) =~= Seq::<u8>::empty());
    }
}

/// A sliding window of bytes with its fingerprint under a fixed key.
pub struct PolyWindow {
    window: VecDeque<u8>,
    state: u64,
    poly_key: u64,
    poly_key_power: u64,
}

impl PolyWindow {
    /// The key at which the polynomial is evaluated.
    pub closed spec fn key(&self) -> u64 {
        self.poly_key
    }

    /// The bytes in the window, oldest first.
    pub closed spec fn window(&self) -> Seq<u8> {
        self.window@
    }

    /// The current hash value.
    pub closed spec fn state(&self) -> u64 {
        self.state
    }

    /// The key and its stored power are canonical, the window holds at most
    /// `WINDOW_SIZE` bytes, and the state is the fingerprint of the window.
    pub closed spec fn wf(&self) -> bool {
        &&& (self.poly_key as int) < modulus()
        &&& self.poly_key_power as int == pow(self.poly_key as int, (WINDOW_SIZE - 1) as nat)
            % modulus()
        &&& self.window@.len() <= WINDOW_SIZE
        &&& self.state as int == fingerprint(self.poly_key, self.window@)
    }

    /// What well-formedness says, over the public views.
    pub proof fn lemma_wf(&self)
        requires
            self.wf(),
        ensures
            (self.key() as int) < modulus(),
            self.window().len() <= WINDOW_SIZE,
            self.state() as int == fingerprint(self.key(), self.window()),
    {
    }

    /// An empty window under the key `key`, reduced into the field.
    pub fn new(key: u64) -> (r: Self)
        ensures
            r.wf(),
            r.key() as int == key as int % modulus(),
            r.window() == Seq::<u8>::empty(),
            r.state() == 0,
    {
        let poly_key: u64 = field_new(key);
        let poly_key_power: u64 = field_pow(poly_key, WINDOW_SIZE - 1);
        proof {
            lemma_mod_bound(key as int, modulus());
        }
        PolyWindow {
            window: VecDeque::with_capacity(WINDOW_SIZE),
            state: 0,
            poly_key,
            poly_key_power,
        }
    }

    /// Empties the window. The key stays.
    pub fn reset(&mut self)
        requires
            old(self).wf(),
        ensures
            final(self).wf(),
            final(self).key() == old(self).key(),
            final(self).window() == Seq::<u8>::empty(),
            final(self).state() == 0,
    {
        self.window.clear();
        self.state = 0;
    }

    /// Slides the window over one more byte and brings the state up to date.
    pub fn update(&mut self, byte: u8)
        requires
            old(self).wf(),
        ensures
            final(self).wf(),
            final(self).key() == old(self).key(),
            final(self).window() == slide(old(self).window(), byte),
            final(self).state() as int == fingerprint(final(self).key(), final(self).window()),
    {
        let ghost before = self.window@;
        let ghost k = self.poly_key as int;
        let ghost m = modulus();
        let full: bool = self.window.len() == WINDOW_SIZE;
        let to_remove: u64 = if full {
            match self.window.pop_front() {
                Some(oldest) => field_new(oldest as u64),
                None => 0,
            }
        } else {
            0
        };
        let to_add: u64 = field_new(byte as u64);
        self.window.push_back(byte);

        let leaving: u64 = field_mul(to_remove, self.poly_key_power);
        let kept: u64 = field_sub(self.state, leaving);
        let shifted: u64 = field_mul(kept, self.poly_key);
        self.state = field_add(shifted, to_add);

        proof {
            let after = self.window@;
            assert(after == slide(before, byte));
            assert(after.drop_last() == if full {
                before.drop_first()
            } else {
                before
            });
            let rest = horner(k, after.drop_last());
            lemma_small_mod(byte as nat, m as nat);
            if full {
                let top = before.first() as int;
                let kw = pow(k, (WINDOW_SIZE - 1) as nat);
                lemma_small_mod(top as nat, m as nat);
                lemma_horner_front(k, before);
                assert(horner(k, before) - top * kw == rest);
                lemma_mul_mod_noop_right(top, kw, m);
                lemma_sub_mod_noop(horner(k, before), top * kw, m);
            } else {
                assert(to_remove as int * self.poly_key_power as int == 0) by (nonlinear_arith)
                    requires
                        to_remove == 0,
                ;
                lemma_small_mod(old(self).state as nat, m as nat);
            }
            assert(kept as int == rest % m);
            lemma_mul_mod_noop_left(rest, k, m);
            lemma_add_mod_noop(rest * k, byte as int, m);
        }
    }

    /// The current hash value.
    pub fn state_value(&self) -> (r: u64)
        ensures
            r == self.state(),
    {
        self.state
    }
}

/// Evaluates the polynomial of `bytes` at the key directly, term by term.
pub fn horner_eval(key: u64, bytes: &[u8]) -> (r: u64)
    ensures
        r as int == fingerprint(key, bytes@),
{
    let mut acc: u64 = 0;
    let mut i: usize = 0;
    while i < bytes.len()
        invariant
            i <= bytes.len(),
            acc as int == fingerprint(key, bytes@.take(i as int)),
        decreases bytes.len() - i,
    {
        let ghost done = bytes@.take(i as int);
        let ghost next = bytes@.take(i + 1);
        let term: u64 = field_new(bytes[i] as u64);
        let shifted: u64 = field_mul(acc, key);
        acc = field_add(shifted, term);
        proof {
            let m = modulus();
            assert(next.drop_last() == done);
            lemma_small_mod(bytes[i as int] as nat, m as nat);
            lemma_mul_mod_noop_left(horner(key as int, done), key as int, m);
            lemma_add_mod_noop(horner(key as int, done) * key as int, bytes[i as int] as int, m);
        }
        i += 1;
    }
    proof {
        assert(bytes@.take(bytes.len() as int) == bytes@);
    }
    acc
}

} // verus!
