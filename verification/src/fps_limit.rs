//! One-frame-of-latency frame dropper for variable-refresh-rate streams.
//!
//! Dropping frames by timestamp alone is wrong for variable refresh rates:
//! in a stream timed 0ms, 16ms, 17ms, 10000ms the frame at 17ms must be
//! kept, not the one at 16ms, because it stays on screen for a long time.
//! So each frame is held "on deck" until its successor arrives, and only
//! then is the decision to emit or drop it taken.

use vstd::prelude::*;

verus! {

/// Limits a timestamped frame stream to a maximum rate, holding one frame
/// of look-ahead. Timestamps are in nanoseconds.
pub struct FpsLimit<T> {
    /// Minimum spacing between emitted frames, in nanoseconds.
    pub min_dt: u64,
    /// The frame held back until its successor arrives, with its timestamp.
    pub on_deck: Option<(u64, T)>,
    /// Earliest timestamp at which another frame may be emitted; `None`
    /// until the first frame has been seen.
    pub next_target_time: Option<u64>,
}

impl<T> FpsLimit<T> {
    /// Timestamps held by the limiter leave room for one more interval, so
    /// the next emission target can be computed without overflow.
    pub open spec fn wf(self) -> bool {
        &&& (self.on_deck matches Some((ts, _)) ==> ts + self.min_dt <= u64::MAX)
        &&& (self.next_target_time matches Some(t) ==> t <= u64::MAX)
    }

    /// Builds a limiter that emits at most one frame per `min_dt`
    /// nanoseconds.
    pub fn new(min_dt: u64) -> (r: FpsLimit<T>)
        ensures
            r.min_dt == min_dt,
            r.on_deck is None,
            r.next_target_time is None,
            r.wf(),
    {
        FpsLimit { min_dt, on_deck: None, next_target_time: None }
    }

    /// Accepts the next frame of the stream and decides which frame, if
    /// any, leaves the limiter now. The very first frame is always emitted
    /// (a long gap may follow it); afterwards each frame waits on deck
    /// until its successor arrives, and is dropped exactly when that
    /// successor comes before the current emission target.
    pub fn on_new_frame(&mut self, f: T, ts: u64) -> (r: Option<T>)
        requires
            old(self).wf(),
            ts + old(self).min_dt <= u64::MAX,
        ensures
            final(self).wf(),
            final(self).min_dt == old(self).min_dt,
            old(self).next_target_time is None ==> {
                &&& r == Some(f)
                &&& final(self).next_target_time == Some((ts + old(self).min_dt) as u64)
                &&& final(self).on_deck == old(self).on_deck
            },
            old(self).next_target_time is Some && old(self).on_deck is None ==> {
                &&& r is None
                &&& final(self).next_target_time == old(self).next_target_time
                &&& final(self).on_deck == Some((ts, f))
            },
            old(self).next_target_time matches Some(target) ==> old(self).on_deck matches Some(
                (old_ts, old_f),
            ) ==> {
                &&& final(self).on_deck == Some((ts, f))
                &&& (if ts < target {
                    r is None && final(self).next_target_time == old(self).next_target_time
                } else {
                    r == Some(old_f) && final(self).next_target_time == Some(
                        (if target >= old_ts {
                            target + old(self).min_dt
                        } else {
                            old_ts + old(self).min_dt
                        }) as u64,
                    )
                })
            },
    {
        // always send the first frame, could be a long gap after.
        if self.next_target_time.is_none() {
            self.next_target_time = Some(ts + self.min_dt);
            return Some(f);
        }

        // don't have enough info to make a decision, hold on...
        if self.on_deck.is_none() {
            self.on_deck = Some((ts, f));
            return None;
        }

        let (old_ts, old_f) = self.on_deck.take().unwrap();
        let next_target_time = self.next_target_time.unwrap();
        self.on_deck = Some((ts, f));

        if ts < next_target_time {
            // drop: the successor arrived before the target, and it will
            // represent this span of time instead.
            None
        } else {
            // max to handle skips better
            let base = if next_target_time >= old_ts {
                next_target_time
            } else {
                old_ts
            };
            self.next_target_time = Some(base + self.min_dt);
            Some(old_f)
        }
    }

    /// Releases the frame still held on deck, if any; called at the end of
    /// the stream so the final frame is not lost.
    pub fn flush(&mut self) -> (r: Option<T>)
        ensures
            final(self).min_dt == old(self).min_dt,
            final(self).next_target_time == old(self).next_target_time,
            final(self).on_deck is None,
            (old(self).on_deck matches Some((_, f)) ==> r == Some(f)),
            (old(self).on_deck is None ==> r is None),
            old(self).wf() ==> final(self).wf(),
    {
        match self.on_deck.take() {
            Some((_, f)) => Some(f),
            None => None,
        }
    }
}

} // verus!
