use vstd::prelude::*;

use vstd::pervasive::unreached;

use crate::errors::IoError;
use crate::source::{ChunkStream, ReadEvent};

verus! {

/// Wraps a byte stream it exclusively owns and keeps a peek buffer:
/// bytes already fetched from the stream but not yet consumed. Peeking
/// copies from the front of that buffer and never removes anything;
/// only a consuming read removes bytes, from the front. The logical
/// stream a caller sees is therefore the peek buffer followed by
/// whatever the underlying stream has not yet delivered.
#[derive(Debug)]
pub struct PeekableReader<T> {
    inner: T,
    peek_buf: Vec<u8>,
}

impl<T> PeekableReader<T> {
    /// The bytes fetched from the stream but not yet consumed.
    pub closed spec fn peeked(&self) -> Seq<u8> {
        self.peek_buf@
    }

    /// The owned underlying stream.
    pub closed spec fn stream(&self) -> T {
        self.inner
    }

    /// Wraps a stream; nothing is peeked yet.
    pub fn new(c: T) -> (r: Self)
        ensures
            r.stream() == c,
            r.peeked() == Seq::<u8>::empty(),
    {
        PeekableReader { inner: c, peek_buf: Vec::new() }
    }

    /// How many bytes the peek buffer currently holds.
    pub fn buffered(&self) -> (n: usize)
        ensures
            n == self.peeked().len(),
    {
        self.peek_buf.len()
    }

    /// Exclusive access to the underlying stream, so a driver can
    /// attempt the next non-blocking read. The peek buffer is
    /// untouched.
    pub fn inner_mut(&mut self) -> (r: &mut T)
        ensures
            *r == old(self).stream(),
            final(self).peeked() == old(self).peeked(),
            final(self).stream() == *final(r),
    {
        &mut self.inner
    }

    /// Hands the underlying stream back, discarding the peek buffer.
    pub fn into_inner(self) -> (r: T)
        ensures
            r == self.stream(),
    {
        self.inner
    }

    /// Appends bytes delivered by an underlying read to the tail of
    /// the peek buffer.
    pub fn feed(&mut self, d: Vec<u8>)
        ensures
            final(self).stream() == old(self).stream(),
            final(self).peeked() == old(self).peeked() + d@,
    {
        let mut d = d;
        self.peek_buf.append(&mut d);
    }

    /// Copies the first `n` peeked bytes out without removing them.
    pub fn copy_prefix(&self, n: usize) -> (b: Vec<u8>)
        requires
            n <= self.peeked().len(),
        ensures
            b@ == self.peeked().take(n as int),
    {
        vstd::slice::slice_to_vec(vstd::slice::slice_subrange(self.peek_buf.as_slice(), 0, n))
    }

    /// A consuming read served from the peek buffer alone: removes up
    /// to `n` bytes from its front and returns them. The underlying
    /// stream is untouched; a driver falls through to it only when the
    /// peek buffer is empty.
    pub fn read_buffered(&mut self, n: usize) -> (b: Vec<u8>)
        ensures
            ({
                let k = if n <= old(self).peeked().len() {
                    n as int
                } else {
                    old(self).peeked().len() as int
                };
                &&& b@ == old(self).peeked().take(k)
                &&& final(self).peeked() == old(self).peeked().skip(k)
                &&& final(self).stream() == old(self).stream()
            }),
    {
        let k = if n <= self.peek_buf.len() {
            n
        } else {
            self.peek_buf.len()
        };
        let mut rest = self.peek_buf.split_off(k);
        core::mem::swap(&mut self.peek_buf, &mut rest);
        rest
    }
}

impl PeekableReader<ChunkStream> {
    /// The logical stream a caller of this wrapper sees: the peeked
    /// bytes, then everything the source has not yet delivered.
    pub open spec fn logical(&self) -> Seq<u8> {
        self.peeked() + self.stream().remaining()
    }

    pub open spec fn wf(&self) -> bool {
        self.stream().wf()
    }

    /// Non-consuming peek of the next `n` logical bytes, run to
    /// completion over the scripted source. If the peek buffer already
    /// covers the request, the bytes are copied straight out of it and
    /// nothing else is touched — not even the underlying stream.
    /// Otherwise the buffer grows by underlying reads of exactly the
    /// missing amount until it holds `n` bytes, so it never exceeds
    /// the largest request; if the source ends first, the call hands
    /// back all the bytes there are (a short count). The logical
    /// stream is unchanged either way: peeking never consumes, and the
    /// final peek buffer holds every byte returned, ready to be served
    /// again.
    pub fn poll_peek(&mut self, n: usize) -> (b: Vec<u8>)
        requires
            old(self).wf(),
        ensures
            final(self).wf(),
            final(self).logical() == old(self).logical(),
            old(self).peeked().len() >= n ==> *final(self) == *old(self),
            final(self).peeked().len() <= old(self).peeked().len()
                || final(self).peeked().len() <= n,
            ({
                let lk = if n <= old(self).logical().len() {
                    n as int
                } else {
                    old(self).logical().len() as int
                };
                let kk = if old(self).peeked().len() >= lk {
                    old(self).peeked().len() as int
                } else {
                    lk
                };
                &&& b@ == old(self).logical().take(lk)
                &&& b@.len() == lk
                &&& final(self).peeked() == old(self).logical().take(kk)
            }),
    {
        if self.peek_buf.len() >= n {
            proof {
                assert(self.peeked() =~= self.logical().take(self.peeked().len() as int));
                assert(self.peeked().take(n as int) =~= self.logical().take(n as int));
            }
            return self.copy_prefix(n);
        }
        loop
            invariant
                self.wf(),
                self.logical() == old(self).logical(),
                old(self).peeked().len() <= self.peeked().len(),
                self.peeked().len() <= n,
            ensures
                self.wf(),
                self.logical() == old(self).logical(),
                self.peeked().len() == n || self.stream().remaining().len() == 0,
                self.peeked().len() <= n,
            decreases self.stream().remaining().len(),
        {
            let have = self.peek_buf.len();
            if have >= n {
                break;
            }
            let ghost pk0 = self.peeked();
            let ghost rem0 = self.stream().remaining();
            let d = self.inner.read_up_to(n - have);
            if d.len() == 0 {
                proof {
                    assert(rem0.len() == 0);
                }
                break;
            }
            let ghost dv = d@;
            let mut d = d;
            self.peek_buf.append(&mut d);
            proof {
                assert(rem0 =~= dv + self.stream().remaining());
                assert((pk0 + dv) + self.stream().remaining() =~= pk0 + (dv
                    + self.stream().remaining()));
            }
        }
        let k = if n <= self.peek_buf.len() {
            n
        } else {
            self.peek_buf.len()
        };
        proof {
            if self.stream().remaining().len() == 0 {
                assert(self.logical() =~= self.peeked());
            }
            assert(self.peeked() =~= self.logical().take(self.peeked().len() as int));
            assert(self.peeked().take(k as int) =~= self.logical().take(k as int));
        }
        self.copy_prefix(k)
    }

    /// A consuming read of up to `n` bytes over the scripted source.
    /// With a non-empty peek buffer it serves exactly the least of `n`
    /// and the buffered count from the buffer's head, removing those
    /// bytes so they are never served again, and does not touch the
    /// underlying stream at all. With an empty buffer it delegates
    /// directly to the source's own short read, buffering nothing.
    /// Either way the bytes returned are the next logical bytes, and
    /// the logical stream advances by exactly their number.
    pub fn read(&mut self, n: usize) -> (b: Vec<u8>)
        requires
            old(self).wf(),
            n > 0,
        ensures
            final(self).wf(),
            b@.len() <= n,
            b@ == old(self).logical().take(b@.len() as int),
            final(self).logical() == old(self).logical().skip(b@.len() as int),
            b@.len() == 0 <==> old(self).logical().len() == 0,
            old(self).peeked().len() > 0 ==> ({
                let k = if n <= old(self).peeked().len() {
                    n as int
                } else {
                    old(self).peeked().len() as int
                };
                &&& b@.len() == k
                &&& b@ == old(self).peeked().take(k)
                &&& final(self).peeked() == old(self).peeked().skip(k)
                &&& final(self).stream() == old(self).stream()
            }),
            old(self).peeked().len() == 0 ==> ({
                &&& final(self).peeked().len() == 0
                &&& (old(self).stream().remaining().len() == 0 ==> *final(self) == *old(self))
                &&& (old(self).stream().remaining().len() > 0 ==> b@.len() == (
                    if n <= old(self).stream().chunk_views()[0].len() {
                        n as int
                    } else {
                        old(self).stream().chunk_views()[0].len() as int
                    }))
            }),
    {
        if self.peek_buf.len() == 0 {
            let ghost rem0 = self.stream().remaining();
            let b = self.inner.read_up_to(n);
            proof {
                assert(old(self).logical() =~= rem0);
                assert(self.logical() =~= self.stream().remaining());
            }
            b
        } else {
            let ghost pk0 = self.peeked();
            let ghost rem0 = self.stream().remaining();
            let b = self.read_buffered(n);
            proof {
                let k = b@.len() as int;
                assert(b@ == pk0.take(k));
                assert(pk0.take(k) =~= (pk0 + rem0).take(k));
                assert(self.logical() =~= (pk0 + rem0).skip(k));
            }
            b
        }
    }
}

/// Peek non-destructiveness, over the wrapper's logical view: a peek
/// of `k` bytes returns `logical().take(k)` and leaves `logical()`
/// unchanged, so every repetition returns identical bytes; and a
/// consuming read of `m <= k` bytes returns exactly the first `m` of
/// those peeked bytes and advances the logical stream by exactly `m`.
pub proof fn lemma_peek_read_coherence(lg: Seq<u8>, k: int, m: int)
    requires
        0 <= m <= k <= lg.len(),
    ensures
        lg.take(k).take(m) == lg.take(m),
        lg.skip(m).len() == lg.len() - m,
{
    assert(lg.take(k).take(m) =~= lg.take(m));
}

/// The resources an exact peek owns while it is running: the peekable
/// wrapper and the destination buffer.
enum PeekState<R> {
    Reading { a: PeekableReader<R>, buf: Vec<u8> },
    Empty,
}

/// What one progress step of an exact peek did.
pub enum PeekProgress<R> {
    /// Bytes were peeked but the destination is not yet covered: read
    /// again.
    Continue,
    /// The underlying stream was not ready: suspend and retry later.
    Suspend,
    /// The destination is covered: the wrapper (with every peeked byte
    /// still in place) and the filled destination.
    Done(PeekableReader<R>, Vec<u8>),
    /// The peek failed; the wrapper is handed back beside the error,
    /// so the bytes peeked so far are not lost.
    Fail(PeekableReader<R>, IoError),
}

/// A single-use exact-peek operation: it fills a destination of a
/// fixed length with the first bytes of the wrapper's logical stream,
/// without consuming them, by growing the wrapper's peek buffer. It
/// fails with an unexpected end-of-stream if the source is exhausted
/// first. A zero-length destination succeeds at once, with no read
/// attempted: that is this design's explicit choice.
pub struct PeekExact<R> {
    state: PeekState<R>,
}

impl<R> PeekExact<R> {
    /// The operation has not reached a terminal state yet.
    pub closed spec fn in_progress(&self) -> bool {
        self.state is Reading
    }

    /// The owned peekable wrapper.
    pub closed spec fn wrapper(&self) -> PeekableReader<R>
        recommends
            self.in_progress(),
    {
        match self.state {
            PeekState::Reading { a, .. } => a,
            PeekState::Empty => vstd::pervasive::arbitrary(),
        }
    }

    /// How many bytes the destination asks for.
    pub closed spec fn dest_len(&self) -> nat {
        match self.state {
            PeekState::Reading { buf, .. } => buf@.len(),
            PeekState::Empty => 0,
        }
    }

    /// Whether the operation has already resolved. Driving a resolved
    /// operation further is a logic error in the caller; this predicate
    /// makes that state detectable before the fact.
    pub fn is_done(&self) -> (b: bool)
        ensures
            b == !self.in_progress(),
    {
        match self.state {
            PeekState::Reading { .. } => false,
            PeekState::Empty => true,
        }
    }

    /// Exclusive access to the wrapper, so the driver can attempt the
    /// next non-blocking read of the stream under it. The destination
    /// is untouched.
    pub fn wrapper_mut(&mut self) -> (r: &mut PeekableReader<R>)
        requires
            old(self).in_progress(),
        ensures
            *r == old(self).wrapper(),
            final(self).in_progress(),
            final(self).dest_len() == old(self).dest_len(),
            final(self).wrapper() == *final(r),
    {
        match &mut self.state {
            PeekState::Reading { a, .. } => a,
            PeekState::Empty => unreached(),
        }
    }

    /// How many more bytes the wrapper must fetch before the
    /// destination is covered; zero when it already is.
    pub fn needed(&self) -> (n: usize)
        requires
            self.in_progress(),
        ensures
            n as int == if self.wrapper().peeked().len() >= self.dest_len() {
                0
            } else {
                self.dest_len() - self.wrapper().peeked().len()
            },
    {
        match &self.state {
            PeekState::Reading { a, buf } => {
                let have = a.peek_buf.len();
                let want = buf.len();
                if have >= want {
                    0
                } else {
                    want - have
                }
            }
            PeekState::Empty => 0,
        }
    }

    /// Takes the owned resources out, resolving the operation.
    fn take_parts(&mut self) -> (p: (PeekableReader<R>, Vec<u8>))
        requires
            old(self).in_progress(),
        ensures
            p.0 == old(self).wrapper(),
            p.1@.len() == old(self).dest_len(),
            !final(self).in_progress(),
    {
        let mut st = PeekState::Empty;
        core::mem::swap(&mut st, &mut self.state);
        match st {
            PeekState::Reading { a, buf } => (a, buf),
            PeekState::Empty => unreached(),
        }
    }

    /// Resolves at once when the wrapper already holds enough peeked
    /// bytes to cover the destination — in particular when the
    /// destination is empty. Otherwise changes nothing.
    pub fn try_finish(&mut self) -> (r: Option<(PeekableReader<R>, Vec<u8>)>)
        requires
            old(self).in_progress(),
        ensures
            old(self).wrapper().peeked().len() >= old(self).dest_len() ==> (r matches Some(p)
                && p.0 == old(self).wrapper()
                && p.1@ == old(self).wrapper().peeked().take(old(self).dest_len() as int)
                && !final(self).in_progress()),
            old(self).wrapper().peeked().len() < old(self).dest_len() ==> (r is None
                && *final(self) == *old(self)),
    {
        let enough = match &self.state {
            PeekState::Reading { a, buf } => a.peek_buf.len() >= buf.len(),
            PeekState::Empty => false,
        };
        if enough {
            let (a, buf) = self.take_parts();
            let b = a.copy_prefix(buf.len());
            Some((a, b))
        } else {
            None
        }
    }

    /// One progress step, driven by the outcome of one non-blocking
    /// read of the stream under the wrapper. Delivered bytes go into
    /// the peek buffer; once it covers the destination, the first
    /// destination-length bytes are copied out and the operation
    /// resolves, handing the wrapper back with all peeked bytes still
    /// in place. End-of-stream before that is an unexpected
    /// end-of-stream; a stream error is handed through verbatim. On
    /// every failure the wrapper is handed back too.
    pub fn step(&mut self, ev: ReadEvent) -> (r: PeekProgress<R>)
        requires
            old(self).in_progress(),
            ev matches ReadEvent::Data(d) ==> d@.len() > 0,
        ensures
            ev matches ReadEvent::NotReady ==> (r matches PeekProgress::Suspend
                && *final(self) == *old(self)),
            ev matches ReadEvent::Failed(e) ==> (r matches PeekProgress::Fail(a, e2)
                && a == old(self).wrapper() && e2 == e && !final(self).in_progress()),
            ev matches ReadEvent::Eof ==> ({
                if old(self).wrapper().peeked().len() >= old(self).dest_len() {
                    r matches PeekProgress::Done(a, b)
                        && a == old(self).wrapper()
                        && b@ == old(self).wrapper().peeked().take(old(self).dest_len() as int)
                        && !final(self).in_progress()
                } else {
                    r matches PeekProgress::Fail(a, IoError::UnexpectedEof)
                        && a == old(self).wrapper()
                        && !final(self).in_progress()
                }
            }),
            ev matches ReadEvent::Data(d) ==> ({
                let pk = old(self).wrapper().peeked() + d@;
                if pk.len() >= old(self).dest_len() {
                    r matches PeekProgress::Done(a, b)
                        && a.peeked() == pk
                        && a.stream() == old(self).wrapper().stream()
                        && b@ == pk.take(old(self).dest_len() as int)
                        && !final(self).in_progress()
                } else {
                    r matches PeekProgress::Continue
                        && final(self).in_progress()
                        && final(self).wrapper().peeked() == pk
                        && final(self).wrapper().stream() == old(self).wrapper().stream()
                        && final(self).dest_len() == old(self).dest_len()
                }
            }),
    {
        match ev {
            ReadEvent::NotReady => PeekProgress::Suspend,
            ReadEvent::Failed(e) => {
                let (a, _b) = self.take_parts();
                PeekProgress::Fail(a, e)
            }
            ReadEvent::Eof => {
                match self.try_finish() {
                    Some((a, b)) => PeekProgress::Done(a, b),
                    None => {
                        let (a, _b) = self.take_parts();
                        PeekProgress::Fail(a, IoError::UnexpectedEof)
                    }
                }
            }
            ReadEvent::Data(d) => {
                let mut st = PeekState::Empty;
                core::mem::swap(&mut st, &mut self.state);
                match st {
                    PeekState::Reading { mut a, buf } => {
                        a.feed(d);
                        if a.buffered() >= buf.len() {
                            let b = a.copy_prefix(buf.len());
                            PeekProgress::Done(a, b)
                        } else {
                            self.state = PeekState::Reading { a, buf };
                            PeekProgress::Continue
                        }
                    }
                    PeekState::Empty => unreached(),
                }
            }
        }
    }
}

impl PeekExact<ChunkStream> {
    /// Runs the exact peek to completion over a scripted source. If
    /// the logical stream holds at least the requested number of
    /// bytes, the peek succeeds with exactly its first bytes,
    /// whatever the source's chunking; if the stream is shorter, it
    /// fails with an unexpected end-of-stream. Either way the wrapper
    /// comes back with the logical stream intact — nothing is
    /// consumed — and with its peek buffer no larger than the
    /// destination asked for, unless it already was.
    pub fn run(self) -> (r: Result<
        (PeekableReader<ChunkStream>, Vec<u8>),
        (PeekableReader<ChunkStream>, IoError),
    >)
        requires
            self.in_progress(),
            self.wrapper().wf(),
        ensures
            self.dest_len() <= self.wrapper().logical().len() ==> (r matches Ok(p)
                && p.1@ == self.wrapper().logical().take(self.dest_len() as int)
                && p.0.logical() == self.wrapper().logical()
                && (p.0.peeked().len() <= self.wrapper().peeked().len()
                    || p.0.peeked().len() <= self.dest_len())
                && p.0.wf()),
            self.dest_len() > self.wrapper().logical().len() ==> (r matches Err(q)
                && q.1 matches IoError::UnexpectedEof
                && q.0.logical() == self.wrapper().logical()
                && (q.0.peeked().len() <= self.wrapper().peeked().len()
                    || q.0.peeked().len() <= self.dest_len())
                && q.0.wf()),
    {
        let mut op = self;
        loop
            invariant
                op.in_progress(),
                op.wrapper().wf(),
                op.wrapper().logical() == self.wrapper().logical(),
                op.dest_len() == self.dest_len(),
                op.wrapper().peeked().len() <= self.wrapper().peeked().len()
                    || op.wrapper().peeked().len() <= op.dest_len(),
            decreases op.wrapper().stream().remaining().len(),
        {
            let ghost pk0 = op.wrapper().peeked();
            let ghost lg0 = op.wrapper().logical();
            match op.try_finish() {
                Some(p) => {
                    proof {
                        assert(pk0.take(op.dest_len() as int)
                            =~= lg0.take(op.dest_len() as int));
                    }
                    return Ok(p);
                }
                None => {}
            }
            let ghost rem0 = op.wrapper().stream().remaining();
            let need = op.needed();
            let d = op.wrapper_mut().inner_mut().read_up_to(need);
            let ghost dbytes = d@;
            let ev = if d.len() == 0 {
                ReadEvent::Eof
            } else {
                ReadEvent::Data(d)
            };
            match op.step(ev) {
                PeekProgress::Continue => {
                    proof {
                        assert(rem0 =~= dbytes + op.wrapper().stream().remaining());
                        assert(op.wrapper().logical() =~= self.wrapper().logical());
                    }
                }
                PeekProgress::Suspend => {
                    proof {
                        assert(false);
                    }
                }
                PeekProgress::Done(a, b) => {
                    proof {
                        assert(rem0 =~= dbytes + a.stream().remaining());
                        assert(a.logical() =~= lg0);
                        assert(b@ =~= lg0.take(self.dest_len() as int));
                    }
                    return Ok((a, b));
                }
                PeekProgress::Fail(a, e) => {
                    proof {
                        assert(rem0.len() == 0);
                        assert(a.logical() =~= pk0);
                        assert(pk0 =~= lg0);
                    }
                    return Err((a, e));
                }
            }
        }
    }
}

/// Single-use enforcement for the exact peek: every progress function
/// requires an operation still in progress, so driving a resolved
/// peek again is a contract violation rather than a call that could
/// return a stale result — `is_done` makes the state detectable
/// beforehand, and a driver must treat misuse as fatal. Moreover a
/// resolved peek owns nothing: its destination is gone, so no result
/// remains to be served.
pub proof fn lemma_peek_exact_single_use<R>(op: &PeekExact<R>)
    requires
        !op.in_progress(),
    ensures
        op.dest_len() == 0,
{
}

/// Creates an exact-peek operation over a fresh peekable wrapper
/// around `a`, to fill a destination of `buf`'s length.
pub fn peek_exact<R>(a: R, buf: Vec<u8>) -> (r: PeekExact<R>)
    ensures
        r.in_progress(),
        r.wrapper().stream() == a,
        r.wrapper().peeked() == Seq::<u8>::empty(),
        r.dest_len() == buf@.len(),
{
    PeekExact { state: PeekState::Reading { a: PeekableReader::new(a), buf } }
}

/// Creates an exact-peek operation over an existing peekable wrapper,
/// so bytes it has already peeked are seen again first.
pub fn peek_exact2<R>(r: PeekableReader<R>, buf: Vec<u8>) -> (p: PeekExact<R>)
    ensures
        p.in_progress(),
        p.wrapper() == r,
        p.dest_len() == buf@.len(),
{
    PeekExact { state: PeekState::Reading { a: r, buf } }
}

} // verus!
