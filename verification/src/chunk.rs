//! The chunked transfer pipeline.
//!
//! An upload arrives as a sequence of in-memory byte chunks; a
//! [`ChunkedWriter`] appends each chunk in the order received, so the whole
//! payload never has to be assembled by the producer. A stored file is sent
//! back as a sequence of chunks produced lazily by a [`ChunkedReader`]; the
//! concatenation of the chunks it emits is exactly the file's content.

use vstd::prelude::*;

verus! {

/// How many bytes a reader emits per chunk at most.
pub const DEFAULT_CHUNK_SIZE: usize = 4096;

/// Consumes a sequence of byte chunks and appends each in the order
/// received. The destination's final content is the concatenation of all
/// chunks; the count of chunks received so far is tracked, so a consumer can
/// observe that the payload arrived incrementally.
pub struct ChunkedWriter {
    data: Vec<u8>,
    chunks_received: usize,
}

impl View for ChunkedWriter {
    type V = Seq<u8>;

    /// The bytes written so far, in order.
    closed spec fn view(&self) -> Seq<u8> {
        self.data@
    }
}

impl ChunkedWriter {
    /// How many chunks have been appended so far.
    pub closed spec fn chunk_count(&self) -> nat {
        self.chunks_received as nat
    }

    /// A writer that has received nothing.
    pub fn new() -> (w: ChunkedWriter)
        ensures
            w@ == Seq::<u8>::empty(),
            w.chunk_count() == 0,
    {
        ChunkedWriter { data: Vec::new(), chunks_received: 0 }
    }

    /// Append one chunk: the bytes written become the old bytes followed by
    /// the chunk, and one more chunk is on record.
    pub fn write_chunk(&mut self, chunk: &[u8])
        requires
            old(self).chunk_count() < usize::MAX,
        ensures
            final(self)@ == old(self)@ + chunk@,
            final(self).chunk_count() == old(self).chunk_count() + 1,
    {
        let mut k: usize = 0;
        while k < chunk.len()
            invariant
                k <= chunk@.len(),
                self.data@ == old(self).data@ + chunk@.take(k as int),
                self.chunks_received == old(self).chunks_received,
            decreases chunk@.len() - k,
        {
            self.data.push(chunk[k]);
            proof {
                assert(chunk@.take(k as int).push(chunk@[k as int]) =~= chunk@.take(k + 1));
            }
            k += 1;
        }
        proof {
            assert(chunk@.take(chunk@.len() as int) =~= chunk@);
        }
        self.chunks_received = self.chunks_received + 1;
    }

    /// How many chunks were appended.
    pub fn chunks_received(&self) -> (n: usize)
        ensures
            n == self.chunk_count(),
    {
        self.chunks_received
    }

    /// How many bytes were written in all.
    pub fn byte_len(&self) -> (n: usize)
        ensures
            n == self@.len(),
    {
        self.data.len()
    }

    /// Hand over the accumulated content: exactly the concatenation of the
    /// chunks received, in order.
    pub fn into_content(self) -> (content: Vec<u8>)
        ensures
            content@ == self@,
    {
        self.data
    }
}

/// Produces a stored file's content as a lazy, finite, forward-only sequence
/// of byte chunks: each call hands out the next slice of the content, and the
/// concatenation of all emitted chunks is exactly the content.
pub struct ChunkedReader {
    content: Vec<u8>,
    pos: usize,
    chunk_size: usize,
}

impl ChunkedReader {
    /// The reader's invariant: the cursor sits inside the content and chunks
    /// are non-empty.
    pub closed spec fn wf(&self) -> bool {
        self.pos <= self.content@.len() && self.chunk_size >= 1
    }

    /// The whole content the reader was opened on.
    pub closed spec fn full(&self) -> Seq<u8> {
        self.content@
    }

    /// The bytes not yet emitted.
    pub closed spec fn remaining(&self) -> Seq<u8> {
        self.content@.skip(self.pos as int)
    }

    /// The most bytes one chunk carries.
    pub closed spec fn chunk_len(&self) -> nat {
        self.chunk_size as nat
    }

    /// A reader positioned at the start of `content`, emitting at most
    /// `chunk_size` bytes per chunk.
    pub fn new(content: Vec<u8>, chunk_size: usize) -> (r: ChunkedReader)
        requires
            chunk_size >= 1,
        ensures
            r.wf(),
            r.full() == content@,
            r.remaining() == content@,
            r.chunk_len() == chunk_size,
    {
        let r = ChunkedReader { content, pos: 0, chunk_size };
        proof {
            assert(r.remaining() =~= r.full());
        }
        r
    }

    /// Emit the next chunk. At the end of the content nothing is emitted and
    /// nothing changes; otherwise the chunk is the next run of bytes — a full
    /// `chunk_len()` bytes, or fewer only when it exhausts the content — and
    /// the cursor advances past it.
    pub fn next_chunk(&mut self) -> (r: Option<Vec<u8>>)
        requires
            old(self).wf(),
        ensures
            final(self).wf(),
            final(self).full() == old(self).full(),
            final(self).chunk_len() == old(self).chunk_len(),
            old(self).remaining().len() == 0 ==> r is None && final(self).remaining()
                == old(self).remaining(),
            old(self).remaining().len() > 0 ==> (r matches Some(c) && 1 <= c@.len()
                <= old(self).chunk_len() && c@.len() <= old(self).remaining().len() && c@
                == old(self).remaining().take(c@.len() as int)
                && final(self).remaining() == old(self).remaining().skip(c@.len() as int) && (c@.len()
                < old(self).chunk_len() ==> final(self).remaining().len() == 0)),
    {
        let avail = self.content.len() - self.pos;
        if avail == 0 {
            return None;
        }
        let take_n = if avail < self.chunk_size {
            avail
        } else {
            self.chunk_size
        };
        let mut c: Vec<u8> = Vec::new();
        let mut k: usize = 0;
        while k < take_n
            invariant
                k <= take_n,
                self.pos + take_n <= self.content@.len(),
                self.content@.len() <= usize::MAX,
                c@ == self.content@.subrange(self.pos as int, self.pos + k),
                self == old(self),
            decreases take_n - k,
        {
            c.push(self.content[self.pos + k]);
            proof {
                assert(self.content@.subrange(self.pos as int, self.pos + k).push(
                    self.content@[self.pos + k],
                ) =~= self.content@.subrange(self.pos as int, self.pos + k + 1));
            }
            k += 1;
        }
        proof {
            assert(c@ =~= old(self).remaining().take(take_n as int));
        }
        self.pos = self.pos + take_n;
        proof {
            assert(self.remaining() =~= old(self).remaining().skip(take_n as int));
        }
        Some(c)
    }

    /// Drain the reader: the bytes collected are exactly what remained, and
    /// nothing remains afterwards.
    pub fn read_to_end(&mut self) -> (out: Vec<u8>)
        requires
            old(self).wf(),
        ensures
            final(self).wf(),
            final(self).full() == old(self).full(),
            out@ == old(self).remaining(),
            final(self).remaining().len() == 0,
    {
        let mut out: Vec<u8> = Vec::new();
        loop
            invariant
                self.wf(),
                self.full() == old(self).full(),
                self.chunk_len() == old(self).chunk_len(),
                out@ + self.remaining() == old(self).remaining(),
            ensures
                self.wf(),
                self.full() == old(self).full(),
                out@ + self.remaining() == old(self).remaining(),
                self.remaining().len() == 0,
            decreases self.remaining().len(),
        {
            let ghost prev_rem = self.remaining();
            let ghost out_before = out@;
            match self.next_chunk() {
                Some(mut c) => {
                    proof {
                        broadcast use vstd::seq_lib::lemma_seq_take_index;
                        broadcast use vstd::seq_lib::lemma_seq_skip_index;

                        assert(c@ + self.remaining() =~= prev_rem);
                        assert((out_before + c@) + self.remaining() =~= out_before + (c@
                            + self.remaining()));
                    }
                    out.append(&mut c);
                },
                None => {
                    break;
                },
            }
        }
        proof {
            assert(out@ =~= old(self).remaining());
        }
        out
    }
}

} // verus!
