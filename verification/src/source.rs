use vstd::prelude::*;

use crate::errors::IoError;

verus! {

/// The outcome of one non-blocking read attempt against an underlying
/// byte stream, as handed to the state machines of this library by
/// whatever drives them.
pub enum ReadEvent {
    /// The read completed and delivered these bytes; never empty.
    Data(Vec<u8>),
    /// The read completed with zero bytes: the peer closed the stream.
    Eof,
    /// The stream could not make progress; the operation must suspend
    /// and be driven again later.
    NotReady,
    /// The underlying stream failed with this error.
    Failed(IoError),
}

/// The bytes that a script of chunks delivers from position `i` on.
pub open spec fn flatten_from(cs: Seq<Seq<u8>>, i: int) -> Seq<u8>
    decreases cs.len() - i,
{
    if i < 0 || i >= cs.len() {
        Seq::empty()
    } else {
        cs[i] + flatten_from(cs, i + 1)
    }
}

/// Dropping the first `k` chunks of a script drops exactly the bytes
/// those chunks deliver.
proof fn lemma_flatten_from_shift(cs: Seq<Seq<u8>>, k: int, j: int)
    requires
        0 <= k <= cs.len(),
        0 <= j,
    ensures
        flatten_from(cs.skip(k), j) == flatten_from(cs, k + j),
    decreases cs.len() - (k + j),
{
    if k + j >= cs.len() {
        assert(cs.skip(k).len() == cs.len() - k);
        assert(flatten_from(cs.skip(k), j) == Seq::<u8>::empty());
        assert(flatten_from(cs, k + j) == Seq::<u8>::empty());
    } else {
        assert(cs.skip(k)[j] == cs[k + j]);
        lemma_flatten_from_shift(cs, k, j + 1);
    }
}

proof fn lemma_flatten_take_step_from(cs: Seq<Seq<u8>>, k: int, j: int)
    requires
        0 <= j <= k < cs.len(),
    ensures
        flatten_from(cs.take(k + 1), j) == flatten_from(cs.take(k), j) + cs[k],
    decreases k - j,
{
    if j == k {
        assert(cs.take(k + 1)[k] == cs[k]);
        assert(flatten_from(cs.take(k + 1), k + 1) == Seq::<u8>::empty());
        assert(flatten_from(cs.take(k), k) == Seq::<u8>::empty());
        assert(cs[k] + Seq::<u8>::empty() =~= cs[k]);
        assert(Seq::<u8>::empty() + cs[k] =~= cs[k]);
    } else {
        lemma_flatten_take_step_from(cs, k, j + 1);
        assert(cs.take(k + 1)[j] == cs[j]);
        assert(cs.take(k)[j] == cs[j]);
        assert(cs[j] + (flatten_from(cs.take(k), j + 1) + cs[k]) =~= (cs[j] + flatten_from(
            cs.take(k),
            j + 1,
        )) + cs[k]);
    }
}

/// Keeping one more chunk of a script keeps exactly that chunk's bytes
/// at the tail of what the kept chunks deliver.
pub proof fn lemma_flatten_from_take_step(cs: Seq<Seq<u8>>, k: int)
    requires
        0 <= k < cs.len(),
    ensures
        flatten_from(cs.take(k + 1), 0) == flatten_from(cs.take(k), 0) + cs[k],
{
    lemma_flatten_take_step_from(cs, k, 0);
}

/// A scripted byte source: it delivers a fixed list of non-empty chunks
/// in order, then end-of-stream. Each chunk stands for what one
/// non-blocking read of a live stream would yield, so a script is one
/// possible chunking of the stream's bytes.
#[derive(Debug)]
pub struct ChunkStream {
    chunks: Vec<Vec<u8>>,
}

impl ChunkStream {
    /// The chunks not yet delivered, each as a byte sequence.
    pub closed spec fn chunk_views(&self) -> Seq<Seq<u8>> {
        self.chunks@.map_values(|v: Vec<u8>| v@)
    }

    /// All bytes not yet delivered, in order.
    pub open spec fn remaining(&self) -> Seq<u8> {
        flatten_from(self.chunk_views(), 0)
    }

    /// Every pending chunk is non-empty, so delivering a chunk always
    /// makes progress and an empty read means end-of-stream.
    pub closed spec fn wf(&self) -> bool {
        forall|i: int| 0 <= i < self.chunks@.len() ==> self.chunks@[i]@.len() > 0
    }

    /// Builds the source from the chunks it is to deliver, in order.
    pub fn new(chunks: Vec<Vec<u8>>) -> (r: Self)
        requires
            forall|i: int| 0 <= i < chunks@.len() ==> chunks@[i]@.len() > 0,
        ensures
            r.wf(),
            r.chunk_views() == chunks@.map_values(|v: Vec<u8>| v@),
    {
        ChunkStream { chunks }
    }

    /// One non-blocking read: delivers the next chunk whole, or reports
    /// end-of-stream once the script is exhausted.
    pub fn read(&mut self) -> (ev: ReadEvent)
        requires
            old(self).wf(),
        ensures
            final(self).wf(),
            old(self).chunk_views().len() == 0 ==> (ev matches ReadEvent::Eof
                && *final(self) == *old(self)),
            old(self).chunk_views().len() > 0 ==> (ev matches ReadEvent::Data(d)
                && d@ == old(self).chunk_views()[0]
                && d@.len() > 0
                && final(self).chunk_views() == old(self).chunk_views().skip(1)
                && old(self).remaining() == d@ + final(self).remaining()),
    {
        if self.chunks.is_empty() {
            ReadEvent::Eof
        } else {
            let d = self.chunks.remove(0);
            proof {
                assert(self.chunk_views() =~= old(self).chunk_views().skip(1));
                lemma_flatten_from_shift(old(self).chunk_views(), 1, 0);
            }
            ReadEvent::Data(d)
        }
    }

    /// One non-blocking consuming read of at most `n` bytes: standard
    /// short-read semantics. It returns a non-empty prefix of the
    /// remaining bytes, or nothing at end-of-stream; bytes of a chunk
    /// beyond `n` stay pending.
    pub fn read_up_to(&mut self, n: usize) -> (d: Vec<u8>)
        requires
            old(self).wf(),
            n > 0,
        ensures
            final(self).wf(),
            old(self).remaining().len() == 0 ==> (d@.len() == 0
                && *final(self) == *old(self)),
            old(self).remaining().len() > 0 ==> (0 < d@.len() <= n
                && d@.len() == (if n <= old(self).chunk_views()[0].len() {
                    n as int
                } else {
                    old(self).chunk_views()[0].len() as int
                })
                && d@ == old(self).remaining().take(d@.len() as int)
                && final(self).remaining() == old(self).remaining().skip(d@.len() as int)),
    {
        if self.chunks.is_empty() {
            Vec::new()
        } else {
            let mut first = self.chunks.remove(0);
            proof {
                assert(self.chunk_views() =~= old(self).chunk_views().skip(1));
                lemma_flatten_from_shift(old(self).chunk_views(), 1, 0);
                assert(old(self).remaining() == old(self).chunk_views()[0]
                    + self.remaining());
            }
            if first.len() <= n {
                proof {
                    assert(old(self).remaining().take(first@.len() as int) =~= first@);
                    assert(old(self).remaining().skip(first@.len() as int)
                        =~= self.remaining());
                }
                first
            } else {
                let rest = first.split_off(n);
                let ghost mid = self.chunk_views();
                self.chunks.insert(0, rest);
                proof {
                    assert(self.chunk_views() =~= mid.insert(0, rest@));
                    assert(self.remaining() == rest@ + flatten_from(mid, 0)) by {
                        assert(self.chunk_views()[0] == rest@);
                        assert(self.chunk_views().skip(1) =~= mid);
                        lemma_flatten_from_shift(self.chunk_views(), 1, 0);
                    }
                    assert(old(self).chunk_views()[0] == first@ + rest@);
                    assert(old(self).remaining().take(first@.len() as int) =~= first@);
                    assert(old(self).remaining().skip(first@.len() as int)
                        =~= self.remaining());
                }
                first
            }
        }
    }
}

/// A model writable half: it records every byte written through it, in
/// order, and accepts each write whole.
#[derive(Debug)]
pub struct WriteSink {
    data: Vec<u8>,
}

impl WriteSink {
    /// All bytes written through this sink so far, in order.
    pub closed spec fn written(&self) -> Seq<u8> {
        self.data@
    }

    /// A sink that has seen no writes yet.
    pub fn new() -> (r: Self)
        ensures
            r.written() == Seq::<u8>::empty(),
    {
        WriteSink { data: Vec::new() }
    }

    /// One non-blocking write: the sink accepts the whole buffer.
    pub fn write(&mut self, buf: &[u8]) -> (n: usize)
        ensures
            n == buf@.len(),
            final(self).written() == old(self).written() + buf@,
    {
        let mut add = vstd::slice::slice_to_vec(buf);
        self.data.append(&mut add);
        buf.len()
    }

    /// Flushing the sink changes nothing: every write is already
    /// accepted in full.
    pub fn flush(&mut self)
        ensures
            *final(self) == *old(self),
    {
    }

    /// Shutting the sink down has nothing left to do: every write was
    /// already accepted in full, and the recorded bytes stay as they
    /// are.
    pub fn shutdown(&mut self)
        ensures
            *final(self) == *old(self),
    {
    }

    /// Hands the recorded bytes back, consuming the sink.
    pub fn take_bytes(self) -> (b: Vec<u8>)
        ensures
            b@ == self.written(),
    {
        self.data
    }
}

} // verus!
