use vstd::prelude::*;

use vstd::pervasive::unreached;
use vstd::string::StringSliceAdditionalSpecFns;

use crate::errors::IoError;
use crate::source::{flatten_from, lemma_flatten_from_take_step, ChunkStream, ReadEvent};

verus! {

/// `needle` occurs in `hay` starting at position `i`.
pub open spec fn match_at(hay: Seq<u8>, needle: Seq<u8>, i: int) -> bool {
    &&& 0 <= i
    &&& i + needle.len() <= hay.len()
    &&& hay.subrange(i, i + needle.len() as int) == needle
}

/// `needle` occurs somewhere in `hay`.
pub open spec fn has_match(hay: Seq<u8>, needle: Seq<u8>) -> bool {
    exists|i: int| match_at(hay, needle, i)
}

/// `i` is the leftmost position at which `needle` occurs in `hay`.
pub open spec fn is_first_match(hay: Seq<u8>, needle: Seq<u8>, i: int) -> bool {
    &&& match_at(hay, needle, i)
    &&& forall|j: int| 0 <= j < i ==> !match_at(hay, needle, j)
}

/// Relies on twoway::find_bytes: the index of the leftmost occurrence
/// of `needle` in `hay`, or `None` when `needle` occurs nowhere.
#[verifier::external_body]
fn find_bytes(hay: &[u8], needle: &[u8]) -> (r: Option<usize>)
    ensures
        match r {
            Some(i) => is_first_match(hay@, needle@, i as int),
            None => !has_match(hay@, needle@),
        },
{
    twoway::find_bytes(hay, needle)
}

/// The resources a delimiter scan owns while it is running: the
/// delimiter, the bytes accumulated so far, and the underlying reader.
enum ScanState<A> {
    Reading { separator: Vec<u8>, buf: Vec<u8>, reader: A },
    Empty,
}

/// A single-use delimiter-scanning read operation. It performs
/// consuming reads, accumulating every byte, until the delimiter is
/// found anywhere in the accumulated bytes; the accumulation is then
/// split just after the delimiter into a head (up to and including the
/// delimiter) and a tail (bytes already read past it).
///
/// Dropping the operation before it is done discards the accumulated
/// bytes: they were consumed from the stream and are not recoverable.
/// Callers that cannot afford to lose a prefix must peek instead.
pub struct ReadUntilSeparator<A> {
    state: ScanState<A>,
}

/// What one progress step of a delimiter scan did.
pub enum ScanProgress<A> {
    /// Bytes were accumulated but the delimiter was not found yet:
    /// read again.
    Continue,
    /// The underlying stream was not ready: suspend and retry later.
    Suspend,
    /// The delimiter was found: the reader, the bytes up to and
    /// including the delimiter, and the bytes already read past it.
    Done(A, Vec<u8>, Vec<u8>),
    /// The scan failed; the accumulated bytes are discarded.
    Fail(IoError),
}

impl<A> ReadUntilSeparator<A> {
    /// The operation has not reached a terminal state yet.
    pub closed spec fn in_progress(&self) -> bool {
        self.state is Reading
    }

    /// The delimiter being sought.
    pub closed spec fn sep(&self) -> Seq<u8> {
        match self.state {
            ScanState::Reading { separator, .. } => separator@,
            ScanState::Empty => Seq::empty(),
        }
    }

    /// The bytes accumulated so far.
    pub closed spec fn acc(&self) -> Seq<u8> {
        match self.state {
            ScanState::Reading { buf, .. } => buf@,
            ScanState::Empty => Seq::empty(),
        }
    }

    /// The owned underlying reader.
    pub closed spec fn reader(&self) -> A
        recommends
            self.in_progress(),
    {
        match self.state {
            ScanState::Reading { reader, .. } => reader,
            ScanState::Empty => vstd::pervasive::arbitrary(),
        }
    }

    /// Whether the operation has already resolved. Driving a resolved
    /// operation further is a logic error in the caller; this predicate
    /// makes that state detectable before the fact.
    pub fn is_done(&self) -> (b: bool)
        ensures
            b == !self.in_progress(),
    {
        match self.state {
            ScanState::Reading { .. } => false,
            ScanState::Empty => true,
        }
    }

    /// Exclusive access to the underlying reader, so the driver can
    /// attempt the next non-blocking read. The rest of the operation's
    /// state is untouched.
    pub fn reader_mut(&mut self) -> (r: &mut A)
        requires
            old(self).in_progress(),
        ensures
            *r == old(self).reader(),
            final(self).in_progress(),
            final(self).sep() == old(self).sep(),
            final(self).acc() == old(self).acc(),
            final(self).reader() == *final(r),
    {
        match &mut self.state {
            ScanState::Reading { reader, .. } => reader,
            ScanState::Empty => unreached(),
        }
    }

    /// One progress step, driven by the outcome of one non-blocking
    /// read of the underlying stream. Newly delivered bytes are
    /// appended to the accumulation, which is then scanned whole for
    /// the leftmost occurrence of the delimiter, so occurrences that
    /// span read boundaries are found. End-of-stream before a match is
    /// a connection reset; a stream error is handed through verbatim.
    pub fn step(&mut self, ev: ReadEvent) -> (r: ScanProgress<A>)
        requires
            old(self).in_progress(),
            ev matches ReadEvent::Data(d) ==> d@.len() > 0,
        ensures
            ev matches ReadEvent::NotReady ==> (r matches ScanProgress::Suspend
                && *final(self) == *old(self)),
            ev matches ReadEvent::Failed(e) ==> (r matches ScanProgress::Fail(e2)
                && e2 == e && !final(self).in_progress()),
            ev matches ReadEvent::Eof ==> (r matches ScanProgress::Fail(IoError::ConnectionReset)
                && !final(self).in_progress()),
            ev matches ReadEvent::Data(d) ==> ({
                let nb = old(self).acc() + d@;
                let sp = old(self).sep();
                if has_match(nb, sp) {
                    r matches ScanProgress::Done(rd, head, tail)
                        && rd == old(self).reader()
                        && !final(self).in_progress()
                        && head@.len() >= sp.len()
                        && is_first_match(nb, sp, head@.len() - sp.len())
                        && head@ == nb.take(head@.len() as int)
                        && tail@ == nb.skip(head@.len() as int)
                } else {
                    r matches ScanProgress::Continue
                        && final(self).in_progress()
                        && final(self).acc() == nb
                        && final(self).sep() == sp
                        && final(self).reader() == old(self).reader()
                }
            }),
    {
        match ev {
            ReadEvent::NotReady => ScanProgress::Suspend,
            ReadEvent::Failed(e) => {
                self.state = ScanState::Empty;
                ScanProgress::Fail(e)
            }
            ReadEvent::Eof => {
                self.state = ScanState::Empty;
                ScanProgress::Fail(IoError::ConnectionReset)
            }
            ReadEvent::Data(d) => {
                let mut d = d;
                let mut st = ScanState::Empty;
                core::mem::swap(&mut st, &mut self.state);
                match st {
                    ScanState::Reading { separator, mut buf, reader } => {
                        buf.append(&mut d);
                        let found = find_bytes(buf.as_slice(), separator.as_slice());
                        match found {
                            None => {
                                self.state = ScanState::Reading { separator, buf, reader };
                                ScanProgress::Continue
                            }
                            Some(pos) => {
                                let w = separator.len();
                                let blen = buf.len();
                                proof {
                                    assert(pos + w <= blen);
                                }
                                let tail = buf.split_off(pos + w);
                                ScanProgress::Done(reader, buf, tail)
                            }
                        }
                    }
                    ScanState::Empty => unreached(),
                }
            }
        }
    }
}

/// Single-use enforcement for the delimiter scan: every progress
/// function requires an operation still in progress, so driving a
/// resolved scan again is a contract violation rather than a call
/// that could return a stale result — `is_done` makes the state
/// detectable beforehand, and a driver must treat misuse as fatal.
/// Moreover a resolved scan owns nothing: no accumulation and no
/// delimiter remain from which any result could be served.
pub proof fn lemma_scan_single_use<A>(op: &ReadUntilSeparator<A>)
    requires
        !op.in_progress(),
    ensures
        op.acc().len() == 0,
        op.sep().len() == 0,
{
}

/// Starts a delimiter scan over `a`: consuming reads accumulate bytes
/// until `separator` is found, then the accumulation is split just
/// after it.
pub fn read_until_separator<A>(a: A, separator: &str) -> (r: ReadUntilSeparator<A>)
    requires
        separator.spec_bytes().len() > 0,
    ensures
        r.in_progress(),
        r.sep() == separator.spec_bytes(),
        r.acc() == Seq::<u8>::empty(),
        r.reader() == a,
{
    ReadUntilSeparator {
        state: ScanState::Reading {
            separator: vstd::slice::slice_to_vec(separator.as_bytes()),
            buf: Vec::new(),
            reader: a,
        },
    }
}

/// A match within a prefix of `all` is a match within `all`, at the
/// same position; and if it is leftmost in the prefix it is leftmost
/// in `all`.
proof fn lemma_first_match_in_prefix(all: Seq<u8>, sep: Seq<u8>, l: int, i: int)
    requires
        0 <= l <= all.len(),
        is_first_match(all.take(l), sep, i),
    ensures
        is_first_match(all, sep, i),
{
    assert(all.take(l).subrange(i, i + sep.len() as int)
        =~= all.subrange(i, i + sep.len() as int));
    assert(match_at(all, sep, i));
    assert forall|j: int| 0 <= j < i implies !match_at(all, sep, j) by {
        if match_at(all, sep, j) {
            assert(all.take(l).subrange(j, j + sep.len() as int)
                =~= all.subrange(j, j + sep.len() as int));
            assert(match_at(all.take(l), sep, j));
        }
    }
}

/// Runs a delimiter scan to completion over a scripted source. If the
/// delimiter occurs anywhere in the bytes the source delivers, the
/// scan succeeds and splits just after the delimiter's leftmost
/// occurrence; if the source ends first, the scan fails with a
/// connection reset.
pub fn scan_chunk_stream(reader: ChunkStream, separator: &str) -> (r: Result<
    (ChunkStream, Vec<u8>, Vec<u8>),
    IoError,
>)
    requires
        reader.wf(),
        separator.spec_bytes().len() > 0,
    ensures
        !has_match(reader.remaining(), separator.spec_bytes()) ==> (r matches Err(
            IoError::ConnectionReset,
        )),
        has_match(reader.remaining(), separator.spec_bytes()) ==> (r matches Ok(p)
            && ({
            let (s, head, tail) = p;
            &&& head@.len() >= separator.spec_bytes().len()
            &&& is_first_match(
                reader.remaining(),
                separator.spec_bytes(),
                head@.len() - separator.spec_bytes().len(),
            )
            &&& head@ == reader.remaining().take(head@.len() as int)
            &&& head@ + tail@ + s.remaining() == reader.remaining()
            &&& s.wf()
            &&& exists|k: int|
                #![auto]
                (0 < k <= reader.chunk_views().len()
                    && head@ + tail@ == flatten_from(reader.chunk_views().take(k), 0)
                    && !has_match(
                    flatten_from(reader.chunk_views().take(k - 1), 0),
                    separator.spec_bytes(),
                )
                    && s.chunk_views() == reader.chunk_views().skip(k))
        })),
{
    let ghost all = reader.remaining();
    let ghost sp = separator.spec_bytes();
    let ghost cv0 = reader.chunk_views();
    let ghost mut c: int = 0;
    let mut op = read_until_separator(reader, separator);
    proof {
        assert(Seq::<u8>::empty() + all =~= all);
        assert(cv0.take(0) =~= Seq::<Seq<u8>>::empty());
        assert(cv0.skip(0) =~= cv0);
        assert(!has_match(Seq::<u8>::empty(), sp)) by {
            if has_match(Seq::<u8>::empty(), sp) {
                let i = choose|i: int| match_at(Seq::<u8>::empty(), sp, i);
                assert(i + sp.len() <= 0);
            }
        }
    }
    loop
        invariant
            op.in_progress(),
            op.sep() == sp,
            sp.len() > 0,
            op.reader().wf(),
            op.acc() + op.reader().remaining() == all,
            !has_match(op.acc(), sp),
            sp == separator.spec_bytes(),
            all == reader.remaining(),
            cv0 == reader.chunk_views(),
            0 <= c <= cv0.len(),
            op.acc() == flatten_from(cv0.take(c), 0),
            op.reader().chunk_views() == cv0.skip(c),
        decreases op.reader().remaining().len(),
    {
        let ghost acc0 = op.acc();
        let ghost rem0 = op.reader().remaining();
        let ev = op.reader_mut().read();
        let ghost gev = ev;
        let ghost dbytes: Seq<u8> = match gev {
            ReadEvent::Data(d) => d@,
            _ => Seq::empty(),
        };
        let ghost nb0 = acc0 + dbytes;
        match op.step(ev) {
            ScanProgress::Continue => {
                proof {
                    assert(op.acc() + op.reader().remaining() =~= all);
                    assert(dbytes == cv0.skip(c)[0]);
                    assert(dbytes == cv0[c]);
                    lemma_flatten_from_take_step(cv0, c);
                    c = c + 1;
                    assert(op.reader().chunk_views() =~= cv0.skip(c));
                }
            }
            ScanProgress::Suspend => {
                proof {
                    assert(false);
                }
            }
            ScanProgress::Done(s, head, tail) => {
                proof {
                    assert(head@ + tail@ =~= nb0);
                    assert(dbytes == cv0.skip(c)[0]);
                    assert(dbytes == cv0[c]);
                    lemma_flatten_from_take_step(cv0, c);
                    assert(head@ + tail@ == flatten_from(cv0.take(c + 1), 0));
                    assert(!has_match(flatten_from(cv0.take(c), 0), sp));
                    assert(s.chunk_views() =~= cv0.skip(c + 1));
                    assert(nb0 + s.remaining() =~= all);
                    assert(all.take(nb0.len() as int) =~= nb0);
                    lemma_first_match_in_prefix(all, sp, nb0.len() as int,
                        head@.len() - sp.len());
                    assert(head@ =~= all.take(head@.len() as int));
                    assert(head@ + tail@ + s.remaining() =~= all);
                }
                return Ok((s, head, tail));
            }
            ScanProgress::Fail(e) => {
                proof {
                    assert(rem0.len() == 0);
                    assert(acc0 + rem0 =~= acc0);
                    assert(acc0 =~= all);
                }
                return Err(e);
            }
        }
    }
}

} // verus!
