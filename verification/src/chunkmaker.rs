//! The stream partitioner.
//!
//! A `ChunkMaker` takes a stream in pieces of any size and hands out its chunks
//! as they become complete. It keeps the bytes of the chunk in progress and one
//! fingerprinter, which it leaves alone until the chunk is one byte short of the
//! least size and then primes with the bytes that a full window needs.

use crate::chunk::Chunk;
use crate::chunker::FSWChunker;
use crate::partition::{
    chunks_of, cut_at, first_cut, full_chunks, lemma_chunks_bounds, lemma_chunks_join,
    lemma_cut_at_prefix, lemma_first_cut_extend, lemma_full_chunks_join, lemma_next_cut,
    lemma_next_cut_is, lemma_next_cut_none, residue, MAX_CHUNK_SIZE, MIN_CHUNK_SIZE,
};
use crate::rolling::WINDOW_SIZE;
use vstd::prelude::*;

verus! {

/// The size of the buffer that a stream is best read through.
pub const BUFFER_SIZE: usize = 1024 * 1024;

/// The bytes that the fingerprinter's window holds when the chunk in progress
/// is `s`: none before the chunk is one byte short of the least size, then the
/// last bytes of the chunk, as many as have gone in and at most a window.
pub open spec fn window_of(s: Seq<u8>) -> Seq<u8> {
    if s.len() < MIN_CHUNK_SIZE - 1 {
        Seq::empty()
    } else if s.len() < MIN_CHUNK_SIZE {
        s.subrange(MIN_CHUNK_SIZE - WINDOW_SIZE, s.len() as int)
    } else {
        s.subrange(s.len() - WINDOW_SIZE, s.len() as int)
    }
}

/// Whether `chunks` are the chunks with the payloads `parts`, in order, of a
/// stream in which the first of them starts at offset `start`: each carries its
/// payload and the offset of the byte just past it.
pub open spec fn chunks_match(chunks: Seq<Chunk>, start: int, parts: Seq<Seq<u8>>) -> bool {
    &&& chunks.len() == parts.len()
    &&& forall|i: int|
        0 <= i < chunks.len() ==> {
            &&& (#[trigger] chunks[i]).payload() == parts[i]
            &&& chunks[i].end() == start + parts.take(i + 1).flatten().len()
        }
}

/// The payloads of `chunks`, joined in order.
pub open spec fn joined(chunks: Seq<Chunk>) -> Seq<u8> {
    chunks.map_values(|c: Chunk| c.payload()).flatten()
}

/// One more chunk behind matching chunks, with the next payload and the offset
/// just past it, matches too.
proof fn lemma_chunks_match_push(
    chunks: Seq<Chunk>,
    start: int,
    parts: Seq<Seq<u8>>,
    chunk: Chunk,
    part: Seq<u8>,
)
    requires
        chunks_match(chunks, start, parts),
        chunk.payload() == part,
        chunk.end() == start + parts.flatten().len() + part.len(),
    ensures
        chunks_match(chunks.push(chunk), start, parts.push(part)),
{
    let more = chunks.push(chunk);
    let longer = parts.push(part);
    parts.lemma_flatten_push(part);
    assert forall|i: int| 0 <= i < more.len() implies {
        &&& (#[trigger] more[i]).payload() == longer[i]
        &&& more[i].end() == start + longer.take(i + 1).flatten().len()
    } by {
        if i < chunks.len() {
            assert(more[i] == chunks[i]);
            assert(longer.take(i + 1) =~= parts.take(i + 1));
        } else {
            assert(longer.take(i + 1) =~= longer);
        }
    }
}

/// Appends `bytes` to `v`.
fn append(v: &mut Vec<u8>, bytes: &[u8])
    ensures
        final(v)@ == old(v)@ + bytes@,
{
    v.extend_from_slice(bytes);
    assert(v@ =~= old(v)@ + bytes@);
}

/// Cuts one stream into chunks with the fingerprinter `C`.
pub struct ChunkMaker<C: FSWChunker> {
    chunker: C,
    chunk_data: Vec<u8>,
    index: usize,
}

impl<C: FSWChunker> ChunkMaker<C> {
    /// The master key that the fingerprinter was made from.
    pub closed spec fn master(&self) -> Seq<u8> {
        self.chunker.master()
    }

    /// The bytes of the chunk in progress.
    pub closed spec fn pending(&self) -> Seq<u8> {
        self.chunk_data@
    }

    /// The number of bytes taken from the stream so far.
    pub closed spec fn position(&self) -> usize {
        self.index
    }

    /// The chunk in progress holds no whole chunk, lies within the bytes taken
    /// so far, and the fingerprinter's window is the one that belongs to it.
    pub closed spec fn wf(&self) -> bool {
        &&& self.chunker.wf()
        &&& self.chunk_data@.len() <= self.index
        &&& self.chunk_data@.len() < MAX_CHUNK_SIZE
        &&& first_cut::<C>(self.chunker.master(), self.chunk_data@) is None
        &&& self.chunker.window() == window_of(self.chunk_data@)
    }

    /// What well-formedness says of the chunk in progress.
    pub proof fn lemma_wf(&self)
        requires
            self.wf(),
        ensures
            self.pending().len() <= self.position(),
            self.pending().len() < MAX_CHUNK_SIZE,
            first_cut::<C>(self.master(), self.pending()) is None,
    {
    }

    /// A partitioner at the start of a stream, keyed by `master_key`.
    pub fn new(master_key: &[u8; 32]) -> (r: Self)
        ensures
            r.wf(),
            r.master() == master_key@,
            r.pending() == Seq::<u8>::empty(),
            r.position() == 0,
    {
        let chunker: C = C::new(master_key);
        ChunkMaker { chunker, chunk_data: Vec::new(), index: 0 }
    }

    /// The number of bytes taken from the stream so far.
    pub fn offset(&self) -> (offset: usize)
        ensures
            offset == self.position(),
    {
        self.index
    }

    /// The number of bytes in the chunk in progress.
    pub fn pending_len(&self) -> (len: usize)
        ensures
            len == self.pending().len(),
    {
        self.chunk_data.len()
    }

    /// Feeds the fingerprinter the bytes that stand before the first position
    /// at which the chunk may end, one short of a full window.
    fn prime(&mut self)
        requires
            old(self).chunker.wf(),
            old(self).chunker.window() == Seq::<u8>::empty(),
            old(self).chunk_data@.len() == MIN_CHUNK_SIZE - 1,
        ensures
            final(self).chunker.wf(),
            final(self).chunker.master() == old(self).chunker.master(),
            final(self).chunker.window() == window_of(final(self).chunk_data@),
            final(self).chunk_data == old(self).chunk_data,
            final(self).index == old(self).index,
    {
        let first: usize = MIN_CHUNK_SIZE - C::window_size();
        let mut i: usize = 0;
        while i < WINDOW_SIZE - 1
            invariant
                i <= WINDOW_SIZE - 1,
                first == MIN_CHUNK_SIZE - WINDOW_SIZE,
                self.chunker.wf(),
                self.chunker.master() == old(self).chunker.master(),
                self.chunk_data == old(self).chunk_data,
                self.index == old(self).index,
                self.chunk_data@.len() == MIN_CHUNK_SIZE - 1,
                self.chunker.window() == self.chunk_data@.subrange(first as int, first + i),
            decreases WINDOW_SIZE - 1 - i,
        {
            let byte: u8 = self.chunk_data[first + i];
            self.chunker.update(byte);
            assert(self.chunker.window() =~= self.chunk_data@.subrange(
                first as int,
                first + i + 1,
            ));
            i += 1;
        }
    }

    /// Looks for the end of the chunk in progress among `bytes[pos..]`, which
    /// follow it in the stream. Where it finds the end, it takes the bytes up
    /// to it, hands out the chunk and starts a new one; else it takes all the
    /// bytes into the chunk in progress. It returns how far it has read.
    fn search(&mut self, bytes: &[u8], pos: usize) -> (r: (usize, Option<Chunk>))
        requires
            old(self).wf(),
            old(self).chunk_data@.len() >= MIN_CHUNK_SIZE - 1,
            pos < bytes.len(),
            old(self).index + (bytes.len() - pos) <= usize::MAX,
        ensures
            final(self).wf(),
            final(self).master() == old(self).master(),
            pos < r.0 <= bytes.len(),
            final(self).index == old(self).index + (r.0 - pos),
            match r.1 {
                Some(chunk) => {
                    let whole = old(self).chunk_data@ + bytes@.subrange(pos as int, r.0 as int);
                    &&& chunk.payload() == whole
                    &&& chunk.end() == final(self).index
                    &&& first_cut::<C>(old(self).master(), whole) == Some(whole.len() as int)
                    &&& final(self).chunk_data@ == Seq::<u8>::empty()
                },
                None => {
                    &&& r.0 == bytes.len()
                    &&& final(self).chunk_data@ == old(self).chunk_data@ + bytes@.subrange(
                        pos as int,
                        bytes.len() as int,
                    )
                },
            },
    {
        let ghost master = self.chunker.master();
        let ghost held = self.chunk_data@;
        let base: usize = self.chunk_data.len();
        proof {
            lemma_next_cut::<C>(master, held, MIN_CHUNK_SIZE as int);
            assert(held + bytes@.subrange(pos as int, pos as int) =~= held);
        }
        let mut i: usize = pos;
        while i < bytes.len()
            invariant
                pos <= i <= bytes.len(),
                pos < bytes.len(),
                base == held.len(),
                MIN_CHUNK_SIZE - 1 <= base,
                base + (i - pos) < MAX_CHUNK_SIZE,
                old(self).index + (bytes.len() - pos) <= usize::MAX,
                held == old(self).chunk_data@,
                held.len() <= old(self).index,
                master == old(self).chunker.master(),
                self.chunk_data@ == held,
                self.index == old(self).index + (i - pos),
                self.chunker.wf(),
                self.chunker.master() == master,
                self.chunker.window() == window_of(held + bytes@.subrange(pos as int, i as int)),
                forall|m: int|
                    MIN_CHUNK_SIZE <= m <= base + (i - pos) ==> !cut_at::<C>(
                        master,
                        held + bytes@.subrange(pos as int, i as int),
                        m,
                    ),
            decreases bytes.len() - i,
        {
            let ghost before = held + bytes@.subrange(pos as int, i as int);
            let ghost after = held + bytes@.subrange(pos as int, i + 1);
            let byte: u8 = bytes[i];
            self.index += 1;
            self.chunker.update(byte);
            proof {
                self.chunker.lemma_wf();
                assert(after =~= before + seq![byte]);
                assert(self.chunker.window() =~= window_of(after));
                assert(window_of(after) =~= after.subrange(
                    after.len() - WINDOW_SIZE,
                    after.len() as int,
                ));
                assert forall|m: int| MIN_CHUNK_SIZE <= m < after.len() implies !cut_at::<C>(
                    master,
                    after,
                    m,
                ) by {
                    lemma_cut_at_prefix::<C>(master, before, seq![byte], m);
                }
            }
            if base + (i - pos) + 1 == MAX_CHUNK_SIZE || self.chunker.eval() {
                append(&mut self.chunk_data, &bytes[pos..i + 1]);
                let chunk: Chunk = Chunk::new(self.index, &mut self.chunk_data);
                self.chunker.reset();
                proof {
                    lemma_next_cut_is::<C>(
                        master,
                        after,
                        MIN_CHUNK_SIZE as int,
                        after.len() as int,
                    );
                }
                return (i + 1, Some(chunk));
            }
            i += 1;
        }
        append(&mut self.chunk_data, &bytes[pos..bytes.len()]);
        proof {
            lemma_next_cut_none::<C>(master, self.chunk_data@, MIN_CHUNK_SIZE as int);
        }
        (bytes.len(), None)
    }

    /// Takes the next bytes of the stream and hands out the chunks that they
    /// complete, in order.
    ///
    /// The chunks are the whole chunks of the chunk in progress followed by
    /// `bytes`, and what is left behind them is the new chunk in progress: so
    /// it makes no difference in what pieces a stream is fed.
    pub fn feed(&mut self, bytes: &[u8]) -> (chunks: Vec<Chunk>)
        requires
            old(self).wf(),
            old(self).position() + bytes.len() <= usize::MAX,
        ensures
            final(self).wf(),
            final(self).master() == old(self).master(),
            final(self).position() == old(self).position() + bytes.len(),
            final(self).pending() == residue::<C>(
                old(self).master(),
                old(self).pending() + bytes@,
            ),
            chunks_match(
                chunks@,
                old(self).position() - old(self).pending().len(),
                full_chunks::<C>(old(self).master(), old(self).pending() + bytes@),
            ),
    {
        let ghost master = self.chunker.master();
        let ghost total = self.chunk_data@ + bytes@;
        let ghost start = self.index - self.chunk_data@.len();
        let ghost done = Seq::<Seq<u8>>::empty();
        let mut chunks: Vec<Chunk> = Vec::new();
        let mut pos: usize = 0;
        proof {
            assert(bytes@.skip(0) =~= bytes@);
            assert(done + full_chunks::<C>(master, total) =~= full_chunks::<C>(master, total));
        }
        while pos < bytes.len()
            invariant
                pos <= bytes.len(),
                self.wf(),
                self.chunker.master() == master,
                master == old(self).chunker.master(),
                total == old(self).chunk_data@ + bytes@,
                start == old(self).index - old(self).chunk_data@.len(),
                old(self).index + bytes.len() <= usize::MAX,
                self.index == old(self).index + pos,
                self.index == start + done.flatten().len() + self.chunk_data@.len(),
                chunks_match(chunks@, start, done),
                full_chunks::<C>(master, total) == done + full_chunks::<C>(
                    master,
                    self.chunk_data@ + bytes@.skip(pos as int),
                ),
                residue::<C>(master, total) == residue::<C>(
                    master,
                    self.chunk_data@ + bytes@.skip(pos as int),
                ),
            decreases bytes.len() - pos,
        {
            let ghost held = self.chunk_data@;
            let ghost rest = held + bytes@.skip(pos as int);
            let len: usize = self.chunk_data.len();
            if len < MIN_CHUNK_SIZE - 1 {
                let wanted: usize = MIN_CHUNK_SIZE - 1 - len;
                let available: usize = bytes.len() - pos;
                let taken: usize = if available < wanted {
                    available
                } else {
                    wanted
                };
                append(&mut self.chunk_data, &bytes[pos..pos + taken]);
                self.index += taken;
                pos += taken;
                if taken == wanted {
                    self.prime();
                }
                proof {
                    assert(self.chunk_data@ + bytes@.skip(pos as int) =~= rest);
                }
            } else {
                let (next, found) = self.search(bytes, pos);
                proof {
                    let part = bytes@.subrange(pos as int, next as int);
                    assert(held + part + bytes@.skip(next as int) =~= rest);
                }
                match found {
                    Some(chunk) => {
                        proof {
                            let whole = held + bytes@.subrange(pos as int, next as int);
                            let behind = bytes@.skip(next as int);
                            lemma_first_cut_extend::<C>(master, whole, behind);
                            assert((whole + behind).take(whole.len() as int) =~= whole);
                            assert((whole + behind).skip(whole.len() as int) =~= behind);
                            assert(self.chunk_data@ + behind =~= behind);
                            assert(done + (seq![whole] + full_chunks::<C>(master, behind))
                                =~= done.push(whole) + full_chunks::<C>(master, behind));
                            done.lemma_flatten_push(whole);
                            lemma_chunks_match_push(chunks@, start, done, chunk, whole);
                            done = done.push(whole);
                        }
                        chunks.push(chunk);
                    },
                    None => {},
                }
                pos = next;
            }
        }
        proof {
            assert(self.chunk_data@ + bytes@.skip(pos as int) =~= self.chunk_data@);
            assert(done + Seq::<Seq<u8>>::empty() =~= done);
        }
        chunks
    }

    /// Ends the stream: hands out the chunk in progress, if it holds any byte,
    /// and starts over with an empty one.
    pub fn finish(&mut self) -> (last: Option<Chunk>)
        requires
            old(self).wf(),
        ensures
            final(self).wf(),
            final(self).master() == old(self).master(),
            final(self).position() == old(self).position(),
            final(self).pending() == Seq::<u8>::empty(),
            match last {
                Some(chunk) => {
                    &&& old(self).pending().len() > 0
                    &&& chunk.payload() == old(self).pending()
                    &&& chunk.end() == old(self).position()
                },
                None => old(self).pending().len() == 0,
            },
    {
        if self.chunk_data.len() == 0 {
            None
        } else {
            let chunk: Chunk = Chunk::new(self.index, &mut self.chunk_data);
            self.chunker.reset();
            Some(chunk)
        }
    }

    /// Cuts a stream that is at hand as a whole: takes all of `data`, ends the
    /// stream, and hands out every chunk, in order.
    ///
    /// The chunks are a function of the master key, the variant and the bytes
    /// alone. Joined in order they are the bytes; none is empty or longer than
    /// `MAX_CHUNK_SIZE`, and none but the last is shorter than `MIN_CHUNK_SIZE`.
    pub fn chunkify(&mut self, data: &[u8]) -> (chunks: Vec<Chunk>)
        requires
            old(self).wf(),
            old(self).position() + data.len() <= usize::MAX,
        ensures
            final(self).wf(),
            final(self).master() == old(self).master(),
            final(self).position() == old(self).position() + data.len(),
            final(self).pending() == Seq::<u8>::empty(),
            chunks_match(
                chunks@,
                old(self).position() - old(self).pending().len(),
                chunks_of::<C>(old(self).master(), old(self).pending() + data@),
            ),
            joined(chunks@) == old(self).pending() + data@,
            forall|i: int|
                0 <= i < chunks@.len() ==> 1 <= (#[trigger] chunks@[i]).payload().len()
                    <= MAX_CHUNK_SIZE,
            forall|i: int|
                0 <= i < chunks@.len() - 1 ==> MIN_CHUNK_SIZE <= (
                #[trigger] chunks@[i]).payload().len(),
    {
        let ghost master = self.chunker.master();
        let ghost total = self.chunk_data@ + data@;
        let ghost start = self.index - self.chunk_data@.len();
        let ghost whole = full_chunks::<C>(master, total);
        let mut chunks: Vec<Chunk> = self.feed(data);
        proof {
            lemma_chunks_join::<C>(master, total);
            lemma_chunks_bounds::<C>(master, total);
            lemma_full_chunks_join::<C>(master, total);
            assert(whole.flatten().len() + self.chunk_data@.len() == total.len());
        }
        match self.finish() {
            Some(last) => {
                proof {
                    lemma_chunks_match_push(chunks@, start, whole, last, last.payload());
                }
                chunks.push(last);
            },
            None => {},
        }
        proof {
            let parts = chunks_of::<C>(master, total);
            assert(chunks@.map_values(|c: Chunk| c.payload()) =~= parts);
            assert forall|i: int| 0 <= i < chunks@.len() implies 1 <= (
            #[trigger] chunks@[i]).payload().len() <= MAX_CHUNK_SIZE by {
                assert(chunks@[i].payload() == parts[i]);
            }
            assert forall|i: int| 0 <= i < chunks@.len() - 1 implies MIN_CHUNK_SIZE <= (
            #[trigger] chunks@[i]).payload().len() by {
                assert(chunks@[i].payload() == parts[i]);
            }
        }
        chunks
    }
}

} // verus!
