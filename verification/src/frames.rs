//! Filling a buffer from a pipe with whole PCM frames only.
//!
//! A pipe read may stop in the middle of a frame. Only the buffer's largest
//! whole-frame prefix is filled. The caller reads into it where
//! [`FrameFill`] says, up to its end, reports how many bytes came, and stops
//! when it says `Done`: the count it then gives is always a whole number of
//! frames, so left and right samples never swap downstream.
use vstd::prelude::*;

use crate::FRAME_BYTES;

verus! {

/// What to do next.
pub enum FillStep {
    /// Read more, into the buffer from position `offset` on.
    Read { offset: usize },
    /// Stop: the first `count` bytes of the buffer are the result.
    Done { count: usize },
}

/// The progress of one fill. Only the first `len` bytes of the buffer are
/// used, `len` being the buffer's length rounded down to whole frames; the
/// first `filled` of them hold data read so far.
pub struct FrameFill {
    pub len: usize,
    pub filled: usize,
}

impl FrameFill {
    /// The part of the buffer in use holds whole frames, and the data read
    /// so far fit in it.
    pub open spec fn wf(&self) -> bool {
        &&& self.len % FRAME_BYTES == 0
        &&& self.filled <= self.len
    }

    /// Begins a fill of a buffer of `buffer_len` bytes, of which the largest
    /// whole-frame prefix is used. A buffer too small for one frame gets
    /// nothing; any other is read from its start.
    pub fn start(buffer_len: usize) -> (r: (FrameFill, FillStep))
        ensures
            r.0.len == buffer_len - buffer_len % FRAME_BYTES,
            r.0.filled == 0,
            r.0.wf(),
            buffer_len < FRAME_BYTES ==> r.1 == (FillStep::Done { count: 0 }),
            buffer_len >= FRAME_BYTES ==> r.1 == (FillStep::Read { offset: 0 }) && 0 < r.0.len,
    {
        let len = buffer_len - buffer_len % FRAME_BYTES;
        let fill = FrameFill { len, filled: 0 };
        if buffer_len < FRAME_BYTES {
            (fill, FillStep::Done { count: 0 })
        } else {
            (fill, FillStep::Read { offset: 0 })
        }
    }

    /// Takes in that a read into the buffer between `filled` and `len` gave
    /// `n` bytes. That part is never empty, so a read of nothing is the end
    /// of input: the bytes of an unfinished frame are dropped and the whole
    /// frames are the result. Otherwise the fill stops as soon as it holds
    /// whole frames, and reads on when it does not.
    pub fn after_read(&mut self, n: usize) -> (step: FillStep)
        requires
            old(self).wf(),
            old(self).filled < old(self).len,
            n <= old(self).len - old(self).filled,
        ensures
            final(self).wf(),
            final(self).len == old(self).len,
            n == 0 ==> final(self).filled == old(self).filled - old(self).filled % FRAME_BYTES
                && step == (FillStep::Done { count: final(self).filled }),
            n > 0 ==> final(self).filled == old(self).filled + n,
            n > 0 && final(self).filled % FRAME_BYTES == 0 ==> step == (FillStep::Done {
                count: final(self).filled,
            }),
            n > 0 && final(self).filled % FRAME_BYTES != 0 ==> step == (FillStep::Read {
                offset: final(self).filled,
            }),
            // Only whole frames are ever handed back; bytes are dropped only
            // at the end of input, and then at most one unfinished frame.
            step matches FillStep::Done { count } ==> count % FRAME_BYTES == 0 && count
                <= final(self).len && count <= old(self).filled + n && old(self).filled + n
                < count + FRAME_BYTES && (count < old(self).filled + n ==> n == 0),
            // A fill that reaches the end of the part in use hands it all back.
            final(self).filled == final(self).len ==> step == (FillStep::Done {
                count: final(self).len,
            }),
            // More is read only after progress, right behind the data so far,
            // and only where there is room for it.
            step matches FillStep::Read { offset } ==> offset == final(self).filled && offset
                > old(self).filled && offset % FRAME_BYTES != 0 && offset < final(self).len,
    {
        if n == 0 {
            // End of input in the middle of a frame: drop the stub.
            self.filled = self.filled - self.filled % FRAME_BYTES;
            FillStep::Done { count: self.filled }
        } else {
            self.filled = self.filled + n;
            if self.filled % FRAME_BYTES == 0 {
                FillStep::Done { count: self.filled }
            } else {
                FillStep::Read { offset: self.filled }
            }
        }
    }
}

} // verus!
