//! Audio frame batching for fixed-frame-size encoders.
//!
//! Some audio encoders only accept frames of one fixed sample count.
//! Filtered frames of arbitrary size are pushed into a FIFO; whenever the
//! FIFO holds more than one encoder frame, fixed-size chunks are popped
//! and stamped with contiguous timestamps counted in samples.

use vstd::prelude::*;

verus! {

/// How many fixed-size chunks leave the FIFO when it holds `samples`:
/// one chunk is popped as long as strictly more than `frame_size` samples
/// remain.
pub open spec fn spec_chunks(samples: int, frame_size: int) -> int
    decreases samples,
{
    if frame_size <= 0 || samples <= frame_size {
        0
    } else {
        1 + spec_chunks(samples - frame_size, frame_size)
    }
}

/// Tracks the FIFO fill level and assigns output timestamps by running
/// sample count.
pub struct AudioBatcher {
    /// The encoder's fixed frame size in samples.
    pub frame_size: usize,
    /// Samples currently waiting in the FIFO.
    pub fifo_samples: usize,
    /// The timestamp, in samples, of the next chunk to leave.
    pub pts: i64,
}

impl AudioBatcher {
    /// Starts with an empty FIFO at timestamp zero.
    pub fn new(frame_size: usize) -> (r: AudioBatcher)
        requires
            frame_size >= 1,
        ensures
            r == (AudioBatcher { frame_size, fifo_samples: 0usize, pts: 0i64 }),
    {
        AudioBatcher { frame_size, fifo_samples: 0, pts: 0 }
    }

    /// Accounts for one filtered frame entering the FIFO and returns the
    /// timestamps of the fixed-size chunks that should now be popped and
    /// encoded, in order.
    pub fn push(&mut self, samples: usize) -> (out: Vec<i64>)
        requires
            old(self).frame_size >= 1,
            old(self).pts >= 0,
            old(self).fifo_samples + samples <= usize::MAX,
            old(self).pts + old(self).fifo_samples + samples <= i64::MAX,
        ensures
            final(self).frame_size == old(self).frame_size,
            out@.len() == spec_chunks(
                old(self).fifo_samples + samples,
                old(self).frame_size as int,
            ),
            forall|i: int|
                0 <= i < out@.len() ==> out@[i] == old(self).pts + i * old(self).frame_size,
            final(self).pts == old(self).pts + out@.len() * old(self).frame_size,
            final(self).fifo_samples == old(self).fifo_samples + samples - out@.len() * old(
                self,
            ).frame_size,
            final(self).fifo_samples <= old(self).frame_size,
            final(self).pts >= 0,
    {
        let ghost fs = self.frame_size as int;
        let ghost total = self.fifo_samples + samples;
        let ghost pts0 = self.pts;
        self.fifo_samples = self.fifo_samples + samples;
        let mut out: Vec<i64> = Vec::new();
        proof {
            vstd::arithmetic::mul::lemma_mul_basics(fs);
        }
        while self.fifo_samples > self.frame_size
            invariant
                self.frame_size >= 1,
                fs == self.frame_size,
                self.pts >= 0,
                self.fifo_samples <= total,
                self.pts == pts0 + out@.len() * fs,
                pts0 + total <= i64::MAX,
                self.fifo_samples == total - out@.len() * fs,
                spec_chunks(total, fs) == out@.len() + spec_chunks(self.fifo_samples as int, fs),
                forall|i: int| 0 <= i < out@.len() ==> out@[i] == pts0 + i * fs,
            decreases self.fifo_samples,
        {
            out.push(self.pts);
            proof {
                vstd::arithmetic::mul::lemma_mul_is_distributive_add_other_way(
                    fs,
                    out@.len() - 1,
                    1,
                );
            }
            self.pts = self.pts + self.frame_size as i64;
            self.fifo_samples = self.fifo_samples - self.frame_size;
        }
        out
    }
}

} // verus!
