//! Where a stream is cut, as a function of the master key and the bytes.
//!
//! A chunk ends at the first position, counted from its own start, that is at
//! least `MIN_CHUNK_SIZE` and at which either the fingerprinter's window marks
//! a cut or the chunk has grown to `MAX_CHUNK_SIZE`. What is left when the
//! stream ends before such a position is the residue.

use crate::chunker::FSWChunker;
use crate::rolling::WINDOW_SIZE;
use vstd::prelude::*;

verus! {

/// No chunk but the last of a stream is shorter than this.
pub const MIN_CHUNK_SIZE: usize = 512 * 1024;

/// No chunk is longer than this.
pub const MAX_CHUNK_SIZE: usize = 8 * 1024 * 1024;

/// Whether a chunk that starts with the bytes `s` may end after `n` of them:
/// it has reached the greatest size, or the window that ends there marks a cut.
pub open spec fn cut_at<C: FSWChunker>(master: Seq<u8>, s: Seq<u8>, n: int) -> bool {
    n == MAX_CHUNK_SIZE || C::cuts(master, s.subrange(n - WINDOW_SIZE, n))
}

/// The first position from `from` on at which `s` may be cut, if it has one.
pub open spec fn next_cut<C: FSWChunker>(master: Seq<u8>, s: Seq<u8>, from: int) -> Option<int>
    decreases s.len() + 1 - from,
{
    if from > s.len() {
        None
    } else if cut_at::<C>(master, s, from) {
        Some(from)
    } else {
        next_cut::<C>(master, s, from + 1)
    }
}

/// The length of the first chunk of `s`, if `s` holds a whole chunk.
pub open spec fn first_cut<C: FSWChunker>(master: Seq<u8>, s: Seq<u8>) -> Option<int> {
    next_cut::<C>(master, s, MIN_CHUNK_SIZE as int)
}

/// The whole chunks at the start of `s`, in order.
pub open spec fn full_chunks<C: FSWChunker>(master: Seq<u8>, s: Seq<u8>) -> Seq<Seq<u8>>
    decreases s.len(),
    via full_chunks_decreases::<C>
{
    match first_cut::<C>(master, s) {
        Some(n) => seq![s.take(n)] + full_chunks::<C>(master, s.skip(n)),
        None => Seq::empty(),
    }
}

/// What is left of `s` behind its whole chunks.
pub open spec fn residue<C: FSWChunker>(master: Seq<u8>, s: Seq<u8>) -> Seq<u8>
    decreases s.len(),
    via residue_decreases::<C>
{
    match first_cut::<C>(master, s) {
        Some(n) => residue::<C>(master, s.skip(n)),
        None => s,
    }
}

/// The chunks of a whole stream: its whole chunks, then the residue if it is
/// not empty.
pub open spec fn chunks_of<C: FSWChunker>(master: Seq<u8>, s: Seq<u8>) -> Seq<Seq<u8>> {
    let last = residue::<C>(master, s);
    if last.len() > 0 {
        full_chunks::<C>(master, s).push(last)
    } else {
        full_chunks::<C>(master, s)
    }
}

/// A position that `next_cut` finds is a cut within the bytes, not before
/// `from`, and the first such; where it finds none, there is none.
pub proof fn lemma_next_cut<C: FSWChunker>(master: Seq<u8>, s: Seq<u8>, from: int)
    ensures
        match next_cut::<C>(master, s, from) {
            Some(n) => {
                &&& from <= n <= s.len()
                &&& cut_at::<C>(master, s, n)
                &&& forall|m: int| from <= m < n ==> !cut_at::<C>(master, s, m)
                &&& from <= MAX_CHUNK_SIZE ==> n <= MAX_CHUNK_SIZE
            },
            None => {
                &&& forall|m: int| from <= m <= s.len() ==> !cut_at::<C>(master, s, m)
                &&& from <= MAX_CHUNK_SIZE ==> s.len() < MAX_CHUNK_SIZE
            },
        },
    decreases s.len() + 1 - from,
{
    if from <= s.len() && !cut_at::<C>(master, s, from) {
        lemma_next_cut::<C>(master, s, from + 1);
    }
}

#[via_fn]
proof fn full_chunks_decreases<C: FSWChunker>(master: Seq<u8>, s: Seq<u8>) {
    lemma_next_cut::<C>(master, s, MIN_CHUNK_SIZE as int);
}

#[via_fn]
proof fn residue_decreases<C: FSWChunker>(master: Seq<u8>, s: Seq<u8>) {
    lemma_next_cut::<C>(master, s, MIN_CHUNK_SIZE as int);
}

/// Whether a position is a cut depends on the bytes before it alone.
pub proof fn lemma_cut_at_prefix<C: FSWChunker>(master: Seq<u8>, s: Seq<u8>, t: Seq<u8>, n: int)
    requires
        WINDOW_SIZE <= n <= s.len(),
    ensures
        cut_at::<C>(master, s + t, n) == cut_at::<C>(master, s, n),
{
    assert((s + t).subrange(n - WINDOW_SIZE, n) =~= s.subrange(n - WINDOW_SIZE, n));
}

/// The first cut from `from` on is where `next_cut` stops.
pub proof fn lemma_next_cut_is<C: FSWChunker>(master: Seq<u8>, s: Seq<u8>, from: int, n: int)
    requires
        from <= n <= s.len(),
        cut_at::<C>(master, s, n),
        forall|m: int| from <= m < n ==> !cut_at::<C>(master, s, m),
    ensures
        next_cut::<C>(master, s, from) == Some(n),
    decreases n - from,
{
    if from < n {
        lemma_next_cut_is::<C>(master, s, from + 1, n);
    }
}

/// Where no position from `from` on is a cut, `next_cut` finds none.
pub proof fn lemma_next_cut_none<C: FSWChunker>(master: Seq<u8>, s: Seq<u8>, from: int)
    requires
        forall|m: int| from <= m <= s.len() ==> !cut_at::<C>(master, s, m),
    ensures
        next_cut::<C>(master, s, from) is None,
    decreases s.len() + 1 - from,
{
    if from <= s.len() {
        lemma_next_cut_none::<C>(master, s, from + 1);
    }
}

/// More bytes behind a whole chunk do not move its end.
pub proof fn lemma_first_cut_extend<C: FSWChunker>(master: Seq<u8>, s: Seq<u8>, t: Seq<u8>)
    requires
        first_cut::<C>(master, s) is Some,
    ensures
        first_cut::<C>(master, s + t) == first_cut::<C>(master, s),
{
    let n = first_cut::<C>(master, s)->0;
    lemma_next_cut::<C>(master, s, MIN_CHUNK_SIZE as int);
    assert forall|m: int| MIN_CHUNK_SIZE <= m < n implies !cut_at::<C>(master, s + t, m) by {
        lemma_cut_at_prefix::<C>(master, s, t, m);
    }
    lemma_cut_at_prefix::<C>(master, s, t, n);
    lemma_next_cut_is::<C>(master, s + t, MIN_CHUNK_SIZE as int, n);
}

/// Every whole chunk has a length between the two bounds, and the residue is
/// shorter than the greatest size and holds no whole chunk.
pub proof fn lemma_full_chunks_bounds<C: FSWChunker>(master: Seq<u8>, s: Seq<u8>)
    ensures
        forall|i: int|
            0 <= i < full_chunks::<C>(master, s).len() ==> MIN_CHUNK_SIZE <= (
            #[trigger] full_chunks::<C>(master, s)[i]).len() <= MAX_CHUNK_SIZE,
        residue::<C>(master, s).len() < MAX_CHUNK_SIZE,
        first_cut::<C>(master, residue::<C>(master, s)) is None,
    decreases s.len(),
{
    lemma_next_cut::<C>(master, s, MIN_CHUNK_SIZE as int);
    match first_cut::<C>(master, s) {
        Some(n) => {
            lemma_full_chunks_bounds::<C>(master, s.skip(n));
            let rest = full_chunks::<C>(master, s.skip(n));
            assert forall|i: int| 0 <= i < full_chunks::<C>(master, s).len() implies MIN_CHUNK_SIZE
                <= (#[trigger] full_chunks::<C>(master, s)[i]).len() <= MAX_CHUNK_SIZE by {
                if i > 0 {
                    assert(full_chunks::<C>(master, s)[i] == rest[i - 1]);
                }
            }
        },
        None => {},
    }
}

/// The whole chunks and the residue, joined in order, are the stream.
pub proof fn lemma_full_chunks_join<C: FSWChunker>(master: Seq<u8>, s: Seq<u8>)
    ensures
        full_chunks::<C>(master, s).flatten() + residue::<C>(master, s) == s,
    decreases s.len(),
{
    lemma_next_cut::<C>(master, s, MIN_CHUNK_SIZE as int);
    match first_cut::<C>(master, s) {
        Some(n) => {
            lemma_full_chunks_join::<C>(master, s.skip(n));
            let rest = full_chunks::<C>(master, s.skip(n));
            let all = full_chunks::<C>(master, s);
            assert(all.first() == s.take(n));
            assert(all.drop_first() =~= rest);
            assert(all.flatten() == s.take(n) + rest.flatten());
            assert(s.take(n) + rest.flatten() + residue::<C>(master, s.skip(n)) =~= s.take(n) + (
            rest.flatten() + residue::<C>(master, s.skip(n))));
            assert(s.take(n) + s.skip(n) =~= s);
        },
        None => {
            assert(Seq::<u8>::empty() + s =~= s);
        },
    }
}

/// Cutting a stream that comes in two parts: the whole chunks of the first
/// part stay, and the rest is cut as if the residue of the first part stood
/// before the second.
pub proof fn lemma_full_chunks_append<C: FSWChunker>(master: Seq<u8>, a: Seq<u8>, b: Seq<u8>)
    ensures
        full_chunks::<C>(master, a + b) == full_chunks::<C>(master, a) + full_chunks::<C>(
            master,
            residue::<C>(master, a) + b,
        ),
        residue::<C>(master, a + b) == residue::<C>(master, residue::<C>(master, a) + b),
    decreases a.len(),
{
    lemma_next_cut::<C>(master, a, MIN_CHUNK_SIZE as int);
    match first_cut::<C>(master, a) {
        Some(n) => {
            lemma_first_cut_extend::<C>(master, a, b);
            assert((a + b).take(n) =~= a.take(n));
            assert((a + b).skip(n) =~= a.skip(n) + b);
            lemma_full_chunks_append::<C>(master, a.skip(n), b);
            let tail = full_chunks::<C>(master, residue::<C>(master, a) + b);
            assert(seq![a.take(n)] + (full_chunks::<C>(master, a.skip(n)) + tail) =~= (seq![
                a.take(n),
            ] + full_chunks::<C>(master, a.skip(n))) + tail);
        },
        None => {
            assert(Seq::<Seq<u8>>::empty() + full_chunks::<C>(master, a + b) =~= full_chunks::<C>(
                master,
                a + b,
            ));
        },
    }
}

/// Whatever the bytes and the key, the chunks of a stream, joined in order,
/// are the stream.
pub proof fn lemma_chunks_join<C: FSWChunker>(master: Seq<u8>, s: Seq<u8>)
    ensures
        chunks_of::<C>(master, s).flatten() == s,
{
    lemma_full_chunks_join::<C>(master, s);
    let whole = full_chunks::<C>(master, s);
    let last = residue::<C>(master, s);
    if last.len() > 0 {
        whole.lemma_flatten_push(last);
    } else {
        assert(whole.flatten() + last =~= whole.flatten());
    }
}

/// No chunk of a stream is empty or longer than the greatest size, and every
/// chunk but the last has at least the least size.
pub proof fn lemma_chunks_bounds<C: FSWChunker>(master: Seq<u8>, s: Seq<u8>)
    ensures
        forall|i: int|
            0 <= i < chunks_of::<C>(master, s).len() ==> 1 <= (#[trigger] chunks_of::<C>(
                master,
                s,
            )[i]).len() <= MAX_CHUNK_SIZE,
        forall|i: int|
            0 <= i < chunks_of::<C>(master, s).len() - 1 ==> MIN_CHUNK_SIZE <= (
            #[trigger] chunks_of::<C>(master, s)[i]).len(),
{
    lemma_full_chunks_bounds::<C>(master, s);
    let whole = full_chunks::<C>(master, s);
    let all = chunks_of::<C>(master, s);
    assert forall|i: int| 0 <= i < all.len() implies 1 <= (#[trigger] all[i]).len()
        <= MAX_CHUNK_SIZE by {
        if i < whole.len() {
            assert(all[i] == whole[i]);
        }
    }
    assert forall|i: int| 0 <= i < all.len() - 1 implies MIN_CHUNK_SIZE <= (#[trigger] all[i]).len() by {
        assert(all[i] == whole[i]);
    }
}

/// The chunks of a stream do not depend on the pieces in which it comes: the
/// whole chunks of a first piece, then the chunks of what that piece left
/// followed by the second piece, are the chunks of the two pieces joined.
pub proof fn lemma_chunks_of_pieces<C: FSWChunker>(master: Seq<u8>, a: Seq<u8>, b: Seq<u8>)
    ensures
        chunks_of::<C>(master, a + b) == full_chunks::<C>(master, a) + chunks_of::<C>(
            master,
            residue::<C>(master, a) + b,
        ),
{
    lemma_full_chunks_append::<C>(master, a, b);
    let head = full_chunks::<C>(master, a);
    let carried = residue::<C>(master, a) + b;
    let last = residue::<C>(master, carried);
    assert(head + full_chunks::<C>(master, carried).push(last) =~= (head + full_chunks::<C>(
        master,
        carried,
    )).push(last));
}

/// The whole chunks that come out when `pieces` are taken one after another,
/// each behind what the pieces before it left, starting with `held` left over.
pub open spec fn fed_chunks<C: FSWChunker>(
    master: Seq<u8>,
    held: Seq<u8>,
    pieces: Seq<Seq<u8>>,
) -> Seq<Seq<u8>>
    decreases pieces.len(),
{
    if pieces.len() == 0 {
        Seq::empty()
    } else {
        full_chunks::<C>(master, held + pieces.first()) + fed_chunks::<C>(
            master,
            residue::<C>(master, held + pieces.first()),
            pieces.drop_first(),
        )
    }
}

/// What is left over when `pieces` have been taken one after another, starting
/// with `held` left over.
pub open spec fn fed_residue<C: FSWChunker>(
    master: Seq<u8>,
    held: Seq<u8>,
    pieces: Seq<Seq<u8>>,
) -> Seq<u8>
    decreases pieces.len(),
{
    if pieces.len() == 0 {
        held
    } else {
        fed_residue::<C>(
            master,
            residue::<C>(master, held + pieces.first()),
            pieces.drop_first(),
        )
    }
}

/// A stream that is taken piece by piece is cut as the pieces joined are cut,
/// whatever the number of the pieces and their lengths.
pub proof fn lemma_pieces_join<C: FSWChunker>(
    master: Seq<u8>,
    held: Seq<u8>,
    pieces: Seq<Seq<u8>>,
)
    requires
        first_cut::<C>(master, held) is None,
    ensures
        fed_chunks::<C>(master, held, pieces) == full_chunks::<C>(
            master,
            held + pieces.flatten(),
        ),
        fed_residue::<C>(master, held, pieces) == residue::<C>(master, held + pieces.flatten()),
    decreases pieces.len(),
{
    if pieces.len() == 0 {
        assert(held + pieces.flatten() =~= held);
    } else {
        let first = pieces.first();
        let rest = pieces.drop_first();
        let left = residue::<C>(master, held + first);
        lemma_full_chunks_bounds::<C>(master, held + first);
        lemma_pieces_join::<C>(master, left, rest);
        lemma_full_chunks_append::<C>(master, held + first, rest.flatten());
        assert(held + pieces.flatten() =~= (held + first) + rest.flatten());
    }
}

/// Two ways of cutting one stream into pieces give the same chunks and leave
/// the same bytes over.
pub proof fn lemma_pieces_do_not_matter<C: FSWChunker>(
    master: Seq<u8>,
    pieces: Seq<Seq<u8>>,
    others: Seq<Seq<u8>>,
)
    requires
        pieces.flatten() == others.flatten(),
    ensures
        fed_chunks::<C>(master, Seq::empty(), pieces) == fed_chunks::<C>(
            master,
            Seq::empty(),
            others,
        ),
        fed_residue::<C>(master, Seq::empty(), pieces) == fed_residue::<C>(
            master,
            Seq::empty(),
            others,
        ),
{
    lemma_pieces_join::<C>(master, Seq::empty(), pieces);
    lemma_pieces_join::<C>(master, Seq::empty(), others);
}

} // verus!
