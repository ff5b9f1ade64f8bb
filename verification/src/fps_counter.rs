//! Once-a-second frame rate reporting.
//!
//! The counter accumulates frames and, when asked, says how many arrived
//! since the last report. Time is passed in as nanoseconds on a monotonic
//! clock, so the decision logic stays pure.

use vstd::prelude::*;

verus! {

/// Nanoseconds between frame rate reports.
pub const FPS_REPORT_INTERVAL_NS: u64 = 1_000_000_000;

/// Counts frames and schedules the periodic rate report.
pub struct FpsCounter {
    /// The frame count at the last report.
    pub last_ct: u64,
    /// Frames seen so far.
    pub ct: u64,
    /// When the next report is due, in nanoseconds.
    pub next_report: u64,
}

impl FpsCounter {
    /// The counts stay consistent and the schedule leaves room for one
    /// more interval.
    pub open spec fn wf(self) -> bool {
        self.last_ct <= self.ct && self.next_report + FPS_REPORT_INTERVAL_NS <= u64::MAX
    }

    /// Starts counting at time `now`, with the first report due one
    /// interval later.
    pub fn new(now: u64) -> (r: FpsCounter)
        requires
            now + 2 * FPS_REPORT_INTERVAL_NS <= u64::MAX,
        ensures
            r == (FpsCounter { last_ct: 0u64, ct: 0u64, next_report: (now
                + FPS_REPORT_INTERVAL_NS) as u64 }),
            r.wf(),
    {
        FpsCounter { last_ct: 0, ct: 0, next_report: now + FPS_REPORT_INTERVAL_NS }
    }

    /// Records one captured frame.
    pub fn on_frame(&mut self)
        requires
            old(self).ct < u64::MAX,
        ensures
            *final(self) == (FpsCounter { ct: (old(self).ct + 1) as u64, ..*old(self) }),
            old(self).wf() ==> final(self).wf(),
    {
        self.ct = self.ct + 1;
    }

    /// Decides whether a report is due at time `now`; when it is, returns
    /// the number of frames since the last report and schedules the next
    /// one.
    pub fn report(&mut self, now: u64) -> (r: Option<u64>)
        requires
            old(self).wf(),
        ensures
            final(self).ct == old(self).ct,
            if now > old(self).next_report {
                &&& r == Some((old(self).ct - old(self).last_ct) as u64)
                &&& final(self).next_report == old(self).next_report + FPS_REPORT_INTERVAL_NS
                &&& final(self).last_ct == old(self).ct
            } else {
                r is None && *final(self) == *old(self)
            },
            old(self).next_report + 2 * FPS_REPORT_INTERVAL_NS <= u64::MAX ==> final(self).wf(),
    {
        if now > self.next_report {
            let fps = self.ct - self.last_ct;
            self.next_report = self.next_report + FPS_REPORT_INTERVAL_NS;
            self.last_ct = self.ct;
            Some(fps)
        } else {
            None
        }
    }

    /// How long the event loop may sleep before the next report is due.
    pub fn time_until_next_report(&self, now: u64) -> (r: u64)
        ensures
            r == if now > self.next_report {
                0
            } else {
                (self.next_report - now) as int
            },
    {
        if now > self.next_report {
            0
        } else {
            self.next_report - now
        }
    }
}

} // verus!
