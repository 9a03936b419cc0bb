use vstd::prelude::*;

use crate::source::{ChunkStream, WriteSink};

verus! {

/// Joins an independently owned readable half and writable half into
/// one full-duplex stream: reads delegate entirely to the read half,
/// writes, flushes and shutdowns entirely to the write half. Pure
/// forwarding — no state or buffering of its own, and neither half
/// observes the other.
pub struct AsyncReadWriter<R, W> {
    r: R,
    w: W,
}

impl<R, W> AsyncReadWriter<R, W> {
    /// The owned readable half.
    pub closed spec fn read_half(&self) -> R {
        self.r
    }

    /// The owned writable half.
    pub closed spec fn write_half(&self) -> W {
        self.w
    }

    /// Composes the two halves into one stream.
    pub fn new(a: R, b: W) -> (s: Self)
        ensures
            s.read_half() == a,
            s.write_half() == b,
    {
        AsyncReadWriter { r: a, w: b }
    }

    /// Exclusive access to the read half, for read operations; the
    /// write half is untouched.
    pub fn read_half_mut(&mut self) -> (h: &mut R)
        ensures
            *h == old(self).read_half(),
            final(self).write_half() == old(self).write_half(),
            final(self).read_half() == *final(h),
    {
        &mut self.r
    }

    /// Exclusive access to the write half, for write, flush and
    /// shutdown operations; the read half is untouched.
    pub fn write_half_mut(&mut self) -> (h: &mut W)
        ensures
            *h == old(self).write_half(),
            final(self).read_half() == old(self).read_half(),
            final(self).write_half() == *final(h),
    {
        &mut self.w
    }

    /// Takes the composition apart again.
    pub fn into_parts(self) -> (p: (R, W))
        ensures
            p.0 == self.read_half(),
            p.1 == self.write_half(),
    {
        let AsyncReadWriter { r, w } = self;
        (r, w)
    }
}

impl AsyncReadWriter<ChunkStream, WriteSink> {
    /// A consuming read through the composed stream: the bytes
    /// originate only from the read half, and the write half's state
    /// is not mutated.
    pub fn read(&mut self, n: usize) -> (b: Vec<u8>)
        requires
            old(self).read_half().wf(),
            n > 0,
        ensures
            final(self).read_half().wf(),
            final(self).write_half() == old(self).write_half(),
            b@.len() <= n,
            b@.len() == 0 <==> old(self).read_half().remaining().len() == 0,
            old(self).read_half().remaining().len() > 0 ==> b@.len() == (
            if n <= old(self).read_half().chunk_views()[0].len() {
                n as int
            } else {
                old(self).read_half().chunk_views()[0].len() as int
            }),
            b@ == old(self).read_half().remaining().take(b@.len() as int),
            final(self).read_half().remaining() == old(self).read_half().remaining().skip(
                b@.len() as int,
            ),
    {
        let ghost rem0 = self.r.remaining();
        let b = self.r.read_up_to(n);
        proof {
            if rem0.len() == 0 {
                assert(b@ =~= rem0.take(0));
                assert(self.r.remaining() =~= rem0.skip(0));
            }
        }
        b
    }

    /// A write through the composed stream: the bytes are observed
    /// only on the write half, and the read half's state is not
    /// mutated.
    pub fn write(&mut self, buf: &[u8]) -> (n: usize)
        ensures
            n == buf@.len(),
            final(self).read_half() == old(self).read_half(),
            final(self).write_half().written() == old(self).write_half().written() + buf@,
    {
        self.w.write(buf)
    }

    /// A flush through the composed stream: delegates to the write
    /// half, which has nothing pending, so nothing changes.
    pub fn flush(&mut self)
        ensures
            *final(self) == *old(self),
    {
        self.w.flush()
    }

    /// A shutdown through the composed stream: delegates to the write
    /// half; the read half is untouched, and the sink has nothing to
    /// tear down.
    pub fn shutdown(&mut self)
        ensures
            *final(self) == *old(self),
    {
        self.w.shutdown()
    }
}

} // verus!
