//! The capture orchestration state machine.
//!
//! Construction advances from output discovery through format negotiation
//! to steady-state capture, and can fall back to waiting when the chosen
//! output disappears. Exactly one capture buffer is ever outstanding: the
//! in-flight slot must be empty before another allocation may be queued,
//! and each completion or failure empties it again. The surrounding event
//! loop owns the compositor and encoder objects; it reports events here
//! and performs the actions these methods decide on.

use vstd::prelude::*;

use crate::transform::Rect;

verus! {

/// The lifecycle of the single outstanding capture buffer.
#[derive(Clone, Copy, Debug, PartialEq, Eq, Structural)]
pub enum InFlightSurface {
    /// No buffer is outstanding.
    Empty,
    /// An allocation has been requested and not yet answered.
    AllocQueued,
    /// A buffer is allocated and waiting to be handed to the compositor.
    Allocd,
    /// The compositor is copying the screen into the buffer.
    CopyQueued,
}

/// How far pipeline construction has advanced.
#[derive(Clone, Copy, Debug, PartialEq, Eq, Structural)]
pub enum ConstructionStage {
    /// Waiting for every output to report its geometry and name.
    ProbingOutputs { history_already_triggered: bool },
    /// Output and region chosen; waiting for the compositor to offer
    /// buffer formats.
    EverythingButFormat { roi: Rect, history_already_triggered: bool },
    /// Steady-state capture. `output_went_away` is set when the current
    /// output's removal has been announced; `format_change` right after a
    /// renegotiation, when one failed copy is expected.
    Complete { roi: Rect, output_went_away: bool, format_change: bool },
    /// The output disappeared mid-capture; encoding state is kept while
    /// waiting for an output of the same name to come back.
    OutputWentAway { roi: Rect },
}

/// What to do after a failed copy.
#[derive(Clone, Copy, Debug, PartialEq, Eq, Structural)]
pub enum CopyFailAction {
    /// The output is gone; hold the encoder and wait for it to return.
    WaitForOutput,
    /// Expected failure right after a format change; allocate a new
    /// buffer and carry on.
    RetryAfterFormatChange,
    /// Unexplained failure; log it and retry.
    RetryUnknown,
}

/// A fatal orchestration error.
#[derive(Clone, Copy, Debug, PartialEq, Eq, Structural)]
pub enum MachineError {
    /// After a resize the region of interest no longer covers any pixels.
    ZeroSizedCapture,
}

/// The presentation timestamp, in nanoseconds, of a completed copy: the
/// compositor's split seconds and nanoseconds recombined.
pub open spec fn spec_pts_abs(tv_sec_hi: u32, tv_sec_lo: u32, tv_nsec: u32) -> int {
    (tv_sec_hi * 0x1_0000_0000 + tv_sec_lo) * 1_000_000_000 + tv_nsec
}

/// The capture state machine: construction stage, the single in-flight
/// buffer slot, the session's timestamp epoch, and the fatal error flag.
pub struct CaptureMachine {
    pub stage: ConstructionStage,
    pub in_flight: InFlightSurface,
    /// The first presentation timestamp ever observed; all later frames
    /// are stamped relative to it, and audio starts when it is set.
    pub starting_timestamp: Option<i64>,
    /// Set on any unrecoverable error; the event loop flushes and exits.
    pub errored: bool,
}

impl CaptureMachine {
    /// Starts in output discovery with nothing in flight.
    pub fn new() -> (r: CaptureMachine)
        ensures
            r == (CaptureMachine {
                stage: ConstructionStage::ProbingOutputs { history_already_triggered: false },
                in_flight: InFlightSurface::Empty,
                starting_timestamp: None::<i64>,
                errored: false,
            }),
    {
        CaptureMachine {
            stage: ConstructionStage::ProbingOutputs { history_already_triggered: false },
            in_flight: InFlightSurface::Empty,
            starting_timestamp: None,
            errored: false,
        }
    }

    /// Records a fatal error; the event loop will flush and exit.
    pub fn set_errored(&mut self)
        ensures
            *final(self) == (CaptureMachine { errored: true, ..*old(self) }),
    {
        self.errored = true;
    }

    /// An output and region have been chosen: construction advances, and
    /// the capture source should now be created and a buffer allocated.
    pub fn on_output_selected(&mut self, roi: Rect)
        requires
            old(self).stage matches ConstructionStage::ProbingOutputs { .. },
        ensures
            final(self).stage == (ConstructionStage::EverythingButFormat {
                roi,
                history_already_triggered: (match old(self).stage {
                    ConstructionStage::ProbingOutputs { history_already_triggered } => history_already_triggered,
                    _ => false,
                }),
            }),
            final(self).in_flight == old(self).in_flight,
            final(self).starting_timestamp == old(self).starting_timestamp,
            final(self).errored == old(self).errored,
    {
        let history_already_triggered = match self.stage {
            ConstructionStage::ProbingOutputs { history_already_triggered } => history_already_triggered,
            _ => false,
        };
        self.stage = ConstructionStage::EverythingButFormat { roi, history_already_triggered };
    }

    /// Format negotiation finished and the encoder pipeline exists:
    /// capture becomes steady-state. The caller reads
    /// `history_already_triggered` out of the previous stage to set up
    /// the history state.
    pub fn on_pipeline_built(&mut self)
        requires
            old(self).stage matches ConstructionStage::EverythingButFormat { .. },
        ensures
            final(self).stage == (ConstructionStage::Complete {
                roi: (match old(self).stage {
                    ConstructionStage::EverythingButFormat { roi, .. } => roi,
                    _ => arbitrary(),
                }),
                output_went_away: false,
                format_change: false,
            }),
            final(self).in_flight == old(self).in_flight,
            final(self).starting_timestamp == old(self).starting_timestamp,
            final(self).errored == old(self).errored,
    {
        let roi = match self.stage {
            ConstructionStage::EverythingButFormat { roi, .. } => roi,
            _ => Rect { x: 0, y: 0, w: 0, h: 0 },
        };
        self.stage = ConstructionStage::Complete {
            roi,
            output_went_away: false,
            format_change: false,
        };
    }

    /// Mid-stream renegotiation: the capture surface changed size, so the
    /// region of interest is re-clamped to the new bounds and one failed
    /// copy becomes expected. A copy still in flight belongs to the old
    /// generation and is discarded, never completed: the caller must
    /// release its buffers without stamping. An allocation (queued or
    /// answered) is format-independent and is kept. A region clamped to
    /// nothing is fatal.
    pub fn on_capture_format_changed(&mut self, width: i32, height: i32) -> (r: Result<
        Rect,
        MachineError,
    >)
        requires
            old(self).stage matches ConstructionStage::Complete { .. },
            0 <= width,
            0 <= height,
            old(self).stage matches ConstructionStage::Complete { roi, .. } ==> 0 <= roi.w && 0
                <= roi.h,
        ensures
            final(self).in_flight == (if old(self).in_flight == InFlightSurface::CopyQueued {
                InFlightSurface::Empty
            } else {
                old(self).in_flight
            }),
            final(self).starting_timestamp == old(self).starting_timestamp,
            final(self).errored == old(self).errored,
            old(self).stage matches ConstructionStage::Complete { roi, output_went_away, .. }
                ==> {
                let new_roi = crate::transform::spec_fit_inside_bounds(
                    roi,
                    width as int,
                    height as int,
                );
                if new_roi.w == 0 || new_roi.h == 0 {
                    r == Err::<Rect, MachineError>(MachineError::ZeroSizedCapture)
                        && final(self).stage == old(self).stage
                } else {
                    &&& r == Ok::<Rect, MachineError>(new_roi)
                    &&& final(self).stage == (ConstructionStage::Complete {
                        roi: new_roi,
                        output_went_away,
                        format_change: true,
                    })
                }
            },
    {
        // the in-flight copy targets buffers of the old generation
        if self.in_flight == InFlightSurface::CopyQueued {
            self.in_flight = InFlightSurface::Empty;
        }
        let (roi, output_went_away) = match self.stage {
            ConstructionStage::Complete { roi, output_went_away, .. } => (roi, output_went_away),
            _ => (Rect { x: 0, y: 0, w: 0, h: 0 }, false),
        };
        let new_roi = roi.fit_inside_bounds(width, height);
        if new_roi.w == 0 || new_roi.h == 0 {
            return Err(MachineError::ZeroSizedCapture);
        }
        self.stage = ConstructionStage::Complete {
            roi: new_roi,
            output_went_away,
            format_change: true,
        };
        Ok(new_roi)
    }

    /// Requests a capture buffer. Only one buffer may ever be in flight,
    /// so the slot must be empty, and a capture source must exist.
    pub fn queue_alloc_frame(&mut self)
        requires
            old(self).in_flight == InFlightSurface::Empty,
            old(self).stage matches ConstructionStage::EverythingButFormat { .. } || old(
                self,
            ).stage matches ConstructionStage::Complete { .. },
        ensures
            *final(self) == (CaptureMachine {
                in_flight: InFlightSurface::AllocQueued,
                ..*old(self)
            }),
    {
        self.in_flight = InFlightSurface::AllocQueued;
    }

    /// A requested buffer has been allocated. Returns whether the copy
    /// should be queued right away: before negotiation the buffer waits,
    /// in steady state it is used immediately.
    pub fn on_frame_allocd(&mut self) -> (queue_copy: bool)
        requires
            old(self).in_flight == InFlightSurface::AllocQueued,
            old(self).stage matches ConstructionStage::EverythingButFormat { .. } || old(
                self,
            ).stage matches ConstructionStage::Complete { .. },
        ensures
            *final(self) == (CaptureMachine { in_flight: InFlightSurface::Allocd, ..*old(self) }),
            queue_copy == (old(self).stage matches ConstructionStage::Complete { .. }),
    {
        self.in_flight = InFlightSurface::Allocd;
        match self.stage {
            ConstructionStage::Complete { .. } => true,
            _ => false,
        }
    }

    /// The allocated buffer is handed to the compositor for copying.
    pub fn queue_frame_capture(&mut self)
        requires
            old(self).in_flight == InFlightSurface::Allocd,
            old(self).stage matches ConstructionStage::Complete { .. },
        ensures
            *final(self) == (CaptureMachine {
                in_flight: InFlightSurface::CopyQueued,
                ..*old(self)
            }),
    {
        self.in_flight = InFlightSurface::CopyQueued;
    }

    /// A copy finished: the slot empties, the frame is stamped relative
    /// to the session epoch (established by the first frame, which also
    /// starts audio), and a new allocation should be queued.
    pub fn on_copy_complete(&mut self, tv_sec_hi: u32, tv_sec_lo: u32, tv_nsec: u32) -> (r: (
        i64,
        bool,
    ))
        requires
            old(self).in_flight == InFlightSurface::CopyQueued,
            old(self).stage matches ConstructionStage::Complete { .. },
            spec_pts_abs(tv_sec_hi, tv_sec_lo, tv_nsec) <= i64::MAX,
            old(self).starting_timestamp matches Some(t) ==> t <= spec_pts_abs(
                tv_sec_hi,
                tv_sec_lo,
                tv_nsec,
            ) && t >= 0,
        ensures
            final(self).stage == old(self).stage,
            final(self).errored == old(self).errored,
            final(self).in_flight == InFlightSurface::Empty,
            ({
                let pts_abs = spec_pts_abs(tv_sec_hi, tv_sec_lo, tv_nsec);
                match old(self).starting_timestamp {
                    Some(t) => {
                        &&& final(self).starting_timestamp == old(self).starting_timestamp
                        &&& r.0 == pts_abs - t
                        &&& r.1 == false
                    },
                    None => {
                        &&& final(self).starting_timestamp == Some((pts_abs) as i64)
                        &&& r.0 == 0
                        &&& r.1 == true
                    },
                }
            }),
            r.0 >= 0,
    {
        self.in_flight = InFlightSurface::Empty;
        let secs: i128 = (tv_sec_hi as i128) * 0x1_0000_0000 + (tv_sec_lo as i128);
        let pts_abs: i64 = (secs * 1_000_000_000 + (tv_nsec as i128)) as i64;
        match self.starting_timestamp {
            Some(t) => ((pts_abs - t), false),
            None => {
                self.starting_timestamp = Some(pts_abs);
                (0, true)
            },
        }
    }

    /// A copy failed: the slot empties and the reaction depends on why.
    /// An announced output removal starts recovery; a failure right after
    /// renegotiation is expected once; anything else is retried blindly.
    pub fn on_copy_fail(&mut self) -> (r: CopyFailAction)
        requires
            old(self).in_flight == InFlightSurface::CopyQueued,
            old(self).stage matches ConstructionStage::Complete { .. },
        ensures
            final(self).in_flight == InFlightSurface::Empty,
            final(self).starting_timestamp == old(self).starting_timestamp,
            final(self).errored == old(self).errored,
            old(self).stage matches ConstructionStage::Complete {
                roi,
                output_went_away,
                format_change,
            } ==> {
                if output_went_away {
                    r == CopyFailAction::WaitForOutput && final(self).stage
                        == (ConstructionStage::OutputWentAway { roi })
                } else if format_change {
                    r == CopyFailAction::RetryAfterFormatChange && final(self).stage
                        == (ConstructionStage::Complete {
                        roi,
                        output_went_away: false,
                        format_change: false,
                    })
                } else {
                    r == CopyFailAction::RetryUnknown && final(self).stage == old(self).stage
                }
            },
    {
        self.in_flight = InFlightSurface::Empty;
        let (roi, output_went_away, format_change) = match self.stage {
            ConstructionStage::Complete { roi, output_went_away, format_change } => (
                roi,
                output_went_away,
                format_change,
            ),
            _ => (Rect { x: 0, y: 0, w: 0, h: 0 }, false, false),
        };
        if output_went_away {
            self.stage = ConstructionStage::OutputWentAway { roi };
            CopyFailAction::WaitForOutput
        } else if format_change {
            self.stage = ConstructionStage::Complete {
                roi,
                output_went_away: false,
                format_change: false,
            };
            CopyFailAction::RetryAfterFormatChange
        } else {
            CopyFailAction::RetryUnknown
        }
    }

    /// The compositor announced a global's removal. When it is the
    /// current output, recovery is armed: the next copy failure enters
    /// the waiting state.
    pub fn on_output_removed(&mut self, is_current_output: bool)
        ensures
            final(self).in_flight == old(self).in_flight,
            final(self).starting_timestamp == old(self).starting_timestamp,
            final(self).errored == old(self).errored,
            is_current_output ==> (old(self).stage matches ConstructionStage::Complete {
                roi,
                format_change,
                ..
            } ==> {
                final(self).stage == (ConstructionStage::Complete {
                    roi,
                    output_went_away: true,
                    format_change,
                })
            }),
            !is_current_output ==> final(self).stage == old(self).stage,
            !(old(self).stage matches ConstructionStage::Complete { .. }) ==> final(self).stage
                == old(self).stage,
    {
        if is_current_output {
            match self.stage {
                ConstructionStage::Complete { roi, format_change, .. } => {
                    self.stage = ConstructionStage::Complete {
                        roi,
                        output_went_away: true,
                        format_change,
                    };
                },
                _ => (),
            }
        }
    }

    /// An output carrying the awaited name reappeared: capture resumes
    /// against the preserved encoder, and a fresh allocation should be
    /// queued.
    pub fn on_output_returned(&mut self)
        requires
            old(self).stage matches ConstructionStage::OutputWentAway { .. },
        ensures
            final(self).in_flight == old(self).in_flight,
            final(self).starting_timestamp == old(self).starting_timestamp,
            final(self).errored == old(self).errored,
            old(self).stage matches ConstructionStage::OutputWentAway { roi } ==> {
                final(self).stage == (ConstructionStage::Complete {
                    roi,
                    output_went_away: false,
                    format_change: false,
                })
            },
    {
        let roi = match self.stage {
            ConstructionStage::OutputWentAway { roi } => roi,
            _ => Rect { x: 0, y: 0, w: 0, h: 0 },
        };
        self.stage = ConstructionStage::Complete {
            roi,
            output_went_away: false,
            format_change: false,
        };
    }

    /// The history-commit signal arrived. Before the encoder exists the
    /// request is only remembered; afterwards the caller must trigger the
    /// history, exactly when this returns true.
    pub fn on_history_signal(&mut self) -> (trigger_now: bool)
        ensures
            final(self).in_flight == old(self).in_flight,
            final(self).starting_timestamp == old(self).starting_timestamp,
            final(self).errored == old(self).errored,
            match old(self).stage {
                ConstructionStage::ProbingOutputs { .. } => !trigger_now && final(self).stage
                    == (ConstructionStage::ProbingOutputs { history_already_triggered: true }),
                ConstructionStage::EverythingButFormat { roi, .. } => !trigger_now && final(self).stage == (ConstructionStage::EverythingButFormat {
                    roi,
                    history_already_triggered: true,
                }),
                _ => trigger_now && final(self).stage == old(self).stage,
            },
    {
        match self.stage {
            ConstructionStage::ProbingOutputs { .. } => {
                self.stage = ConstructionStage::ProbingOutputs {
                    history_already_triggered: true,
                };
                false
            },
            ConstructionStage::EverythingButFormat { roi, .. } => {
                self.stage = ConstructionStage::EverythingButFormat {
                    roi,
                    history_already_triggered: true,
                };
                false
            },
            _ => true,
        }
    }
}

} // verus!
