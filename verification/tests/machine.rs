use wl_screenrec::machine::{
    CaptureMachine, ConstructionStage, CopyFailAction, InFlightSurface, MachineError,
};
use wl_screenrec::transform::Rect;

const SEC: i64 = 1_000_000_000;

fn roi() -> Rect {
    Rect {
        x: 0,
        y: 0,
        w: 256,
        h: 256,
    }
}

fn machine_in_complete() -> CaptureMachine {
    let mut m = CaptureMachine::new();
    m.on_output_selected(roi());
    m.on_pipeline_built();
    m
}

#[test]
fn construction_advances_through_stages() {
    let mut m = CaptureMachine::new();
    assert!(matches!(
        m.stage,
        ConstructionStage::ProbingOutputs {
            history_already_triggered: false
        }
    ));
    m.on_output_selected(roi());
    assert!(matches!(
        m.stage,
        ConstructionStage::EverythingButFormat { .. }
    ));
    m.on_pipeline_built();
    assert!(matches!(m.stage, ConstructionStage::Complete { .. }));
    assert_eq!(m.in_flight, InFlightSurface::Empty);
    assert!(!m.errored);
}

#[test]
fn buffer_lifecycle_single_slot() {
    let mut m = machine_in_complete();
    m.queue_alloc_frame();
    assert_eq!(m.in_flight, InFlightSurface::AllocQueued);
    let queue_copy = m.on_frame_allocd();
    assert!(queue_copy);
    assert_eq!(m.in_flight, InFlightSurface::Allocd);
    m.queue_frame_capture();
    assert_eq!(m.in_flight, InFlightSurface::CopyQueued);
    let (pts, start_audio) = m.on_copy_complete(0, 100, 500);
    assert_eq!(m.in_flight, InFlightSurface::Empty);
    // the first frame defines the epoch and starts audio
    assert_eq!(pts, 0);
    assert!(start_audio);
    assert_eq!(m.starting_timestamp, Some(100 * SEC + 500));
}

#[test]
fn second_frame_pts_is_relative() {
    let mut m = machine_in_complete();
    m.queue_alloc_frame();
    m.on_frame_allocd();
    m.queue_frame_capture();
    m.on_copy_complete(0, 100, 0);
    m.queue_alloc_frame();
    m.on_frame_allocd();
    m.queue_frame_capture();
    let (pts, start_audio) = m.on_copy_complete(0, 101, 250);
    assert_eq!(pts, SEC + 250);
    assert!(!start_audio);
}

#[test]
fn alloc_before_negotiation_waits() {
    let mut m = CaptureMachine::new();
    m.on_output_selected(roi());
    m.queue_alloc_frame();
    // before the format is negotiated the allocated buffer is held back
    assert!(!m.on_frame_allocd());
    assert_eq!(m.in_flight, InFlightSurface::Allocd);
}

#[test]
fn copy_fail_reactions() {
    // unexplained failure: retry
    let mut m = machine_in_complete();
    m.queue_alloc_frame();
    m.on_frame_allocd();
    m.queue_frame_capture();
    assert_eq!(m.on_copy_fail(), CopyFailAction::RetryUnknown);
    assert!(matches!(m.stage, ConstructionStage::Complete { .. }));

    // failure right after a renegotiation: expected once
    let mut m = machine_in_complete();
    m.on_capture_format_changed(512, 512).unwrap();
    m.queue_alloc_frame();
    m.on_frame_allocd();
    m.queue_frame_capture();
    assert_eq!(m.on_copy_fail(), CopyFailAction::RetryAfterFormatChange);
    // and only once
    m.queue_alloc_frame();
    m.on_frame_allocd();
    m.queue_frame_capture();
    assert_eq!(m.on_copy_fail(), CopyFailAction::RetryUnknown);

    // failure after the output's removal: wait for it to come back
    let mut m = machine_in_complete();
    m.queue_alloc_frame();
    m.on_frame_allocd();
    m.queue_frame_capture();
    m.on_output_removed(true);
    assert_eq!(m.on_copy_fail(), CopyFailAction::WaitForOutput);
    assert!(matches!(m.stage, ConstructionStage::OutputWentAway { .. }));
    m.on_output_returned();
    assert!(matches!(m.stage, ConstructionStage::Complete { .. }));
}

#[test]
fn foreign_output_removal_is_ignored() {
    let mut m = machine_in_complete();
    m.on_output_removed(false);
    assert!(matches!(
        m.stage,
        ConstructionStage::Complete {
            output_went_away: false,
            ..
        }
    ));
}

#[test]
fn format_change_discards_in_flight_copy() {
    // a copy queued against the old generation is discarded, never
    // completed
    let mut m = machine_in_complete();
    m.queue_alloc_frame();
    m.on_frame_allocd();
    m.queue_frame_capture();
    assert_eq!(m.in_flight, InFlightSurface::CopyQueued);
    m.on_capture_format_changed(512, 512).unwrap();
    assert_eq!(m.in_flight, InFlightSurface::Empty);

    // even a fatal re-clamp discards it first
    let mut m = machine_in_complete();
    m.queue_alloc_frame();
    m.on_frame_allocd();
    m.queue_frame_capture();
    assert!(m.on_capture_format_changed(0, 300).is_err());
    assert_eq!(m.in_flight, InFlightSurface::Empty);

    // an allocated but not yet queued buffer is format independent
    let mut m = machine_in_complete();
    m.queue_alloc_frame();
    m.on_frame_allocd();
    m.on_capture_format_changed(512, 512).unwrap();
    assert_eq!(m.in_flight, InFlightSurface::Allocd);
}

#[test]
fn resize_reclamps_region() {
    let mut m = machine_in_complete();
    let new_roi = m.on_capture_format_changed(100, 300).unwrap();
    assert_eq!(
        new_roi,
        Rect {
            x: 0,
            y: 0,
            w: 100,
            h: 256
        }
    );
    // a surface the region cannot fit on at all is fatal
    let mut m = machine_in_complete();
    assert_eq!(
        m.on_capture_format_changed(0, 300),
        Err(MachineError::ZeroSizedCapture)
    );
}

#[test]
fn history_signal_before_and_after_build() {
    let mut m = CaptureMachine::new();
    assert!(!m.on_history_signal());
    assert!(matches!(
        m.stage,
        ConstructionStage::ProbingOutputs {
            history_already_triggered: true
        }
    ));
    m.on_output_selected(roi());
    assert!(matches!(
        m.stage,
        ConstructionStage::EverythingButFormat {
            history_already_triggered: true,
            ..
        }
    ));
    m.on_pipeline_built();
    // once the encoder exists the signal triggers the history directly
    assert!(m.on_history_signal());
}
