use wl_screenrec::history::Rational;
use wl_screenrec::output::{
    select_output, OutputEvent, OutputInfo, OutputProbe, PartialOutputInfo, SelectionError,
};
use wl_screenrec::transform::{Rect, Transform};

fn out(name: &str, loc: (i32, i32), logical: (i32, i32), pixels: (i32, i32), t: Transform) -> OutputInfo {
    OutputInfo {
        global_name: 1,
        name: name.to_string(),
        loc,
        logical_size: logical,
        size_pixels: pixels,
        refresh: Rational { num: 60000, den: 1000 },
        transform: t,
    }
}

#[test]
fn single_output_selected_by_default() {
    let outputs = vec![out("DP-1", (0, 0), (1920, 1080), (1920, 1080), Transform::Normal)];
    let (i, rect) = select_output(&outputs, None, &String::new()).unwrap();
    assert_eq!(i, 0);
    assert_eq!(rect, Rect { x: 0, y: 0, w: 1920, h: 1080 });
}

#[test]
fn rotated_output_spans_screen_space() {
    // a portrait panel rotated 90 degrees covers a landscape screen area
    let outputs = vec![out("DP-1", (0, 0), (1920, 1200), (1200, 1920), Transform::Rot90)];
    let (_, rect) = select_output(&outputs, None, &String::new()).unwrap();
    assert_eq!(rect, Rect { x: 0, y: 0, w: 1920, h: 1200 });
}

#[test]
fn multiple_outputs_need_a_selector() {
    let outputs = vec![
        out("DP-1", (0, 0), (1920, 1080), (1920, 1080), Transform::Normal),
        out("DP-2", (1920, 0), (1920, 1080), (1920, 1080), Transform::Normal),
    ];
    assert_eq!(
        select_output(&outputs, None, &String::new()),
        Err(SelectionError::MultipleOutputsNoSelector)
    );
}

#[test]
fn output_selected_by_name() {
    let outputs = vec![
        out("DP-1", (0, 0), (1920, 1080), (1920, 1080), Transform::Normal),
        out("HDMI-1", (1920, 0), (1280, 720), (1280, 720), Transform::Normal),
    ];
    let (i, rect) = select_output(&outputs, None, &"HDMI-1".to_string()).unwrap();
    assert_eq!(i, 1);
    assert_eq!(rect, Rect { x: 0, y: 0, w: 1280, h: 720 });

    assert_eq!(
        select_output(&outputs, None, &"eDP-1".to_string()),
        Err(SelectionError::OutputNotFound)
    );
}

#[test]
fn region_selects_containing_output_and_scales() {
    // the second output has a fractional scale of 2 (2560 px over 1280
    // logical), so the region doubles in pixels
    let outputs = vec![
        out("DP-1", (0, 0), (1920, 1080), (1920, 1080), Transform::Normal),
        out("DP-2", (1920, 0), (1280, 800), (2560, 1600), Transform::Normal),
    ];
    let (i, rect) = select_output(&outputs, Some((2000, 100, 300, 200)), &String::new()).unwrap();
    assert_eq!(i, 1);
    assert_eq!(rect, Rect { x: 160, y: 200, w: 600, h: 400 });
}

#[test]
fn region_in_overlapping_outputs_is_ambiguous() {
    // mirrored outputs cover the same screen area; a region inside both
    // cannot be attributed to either
    let outputs = vec![
        out("DP-1", (0, 0), (1920, 1080), (1920, 1080), Transform::Normal),
        out("HDMI-1", (0, 0), (1920, 1080), (1280, 720), Transform::Normal),
    ];
    assert_eq!(
        select_output(&outputs, Some((100, 100, 50, 50)), &String::new()),
        Err(SelectionError::RegionInMultipleOutputs)
    );
}

#[test]
fn region_not_in_any_output_is_an_error() {
    let outputs = vec![out("DP-1", (0, 0), (1920, 1080), (1920, 1080), Transform::Normal)];
    assert_eq!(
        select_output(&outputs, Some((1900, 0, 100, 100)), &String::new()),
        Err(SelectionError::RegionNotInOneOutput)
    );
}

#[test]
fn geometry_and_name_are_mutually_exclusive() {
    let outputs = vec![out("DP-1", (0, 0), (1920, 1080), (1920, 1080), Transform::Normal)];
    assert_eq!(
        select_output(&outputs, Some((0, 0, 10, 10)), &"DP-1".to_string()),
        Err(SelectionError::BothGeometryAndOutput)
    );
}

#[test]
fn logical_to_pixel_rounds_to_nearest() {
    // scale 1.5: 2880 pixels over 1920 logical units
    let o = out("DP-1", (0, 0), (1920, 1080), (2880, 1620), Transform::Normal);
    assert_eq!(o.logical_to_pixel(100), 150);
    assert_eq!(o.logical_to_pixel(101), 152); // 151.5 rounds half up
    assert_eq!(o.logical_to_pixel(0), 0);
    assert_eq!(o.logical_to_pixel(1), 2); // 1.5 rounds half up
}

#[test]
fn partial_output_completes_when_all_fields_arrive() {
    let mut p = PartialOutputInfo {
        global_name: 7,
        name: None,
        loc: None,
        logical_size: None,
        size_pixels: None,
        refresh: None,
        has_recvd_done: false,
        transform: None,
    };
    assert!(p.complete().is_none());
    p.name = Some("DP-3".to_string());
    p.loc = Some((0, 0));
    p.logical_size = Some((800, 600));
    p.size_pixels = Some((800, 600));
    assert!(p.complete().is_none());
    p.refresh = Some(Rational { num: 60, den: 1 });
    let info = p.complete().unwrap();
    assert_eq!(info.global_name, 7);
    assert_eq!(info.name, "DP-3");
    // a missing transform defaults to the untransformed orientation
    assert_eq!(info.transform, Transform::Normal);
}

#[test]
fn probe_completes_after_second_done() {
    let mut probe = OutputProbe::new();
    probe.register(1, 100);
    // first round of description events
    assert!(!probe.on_event(1, OutputEvent::PixelSize(1920, 1080)));
    assert!(!probe.on_event(1, OutputEvent::Refresh(Rational { num: 60000, den: 1000 })));
    assert!(!probe.on_event(1, OutputEvent::Done));
    // second round carries the extended description
    assert!(!probe.on_event(1, OutputEvent::Name("DP-1".to_string())));
    assert!(!probe.on_event(1, OutputEvent::LogicalPosition(0, 0)));
    assert!(!probe.on_event(1, OutputEvent::LogicalSize(1920, 1080)));
    assert!(probe.on_event(1, OutputEvent::Done));
    let info = probe.entries[0].ready.as_ref().unwrap();
    assert_eq!(info.name, "DP-1");
    assert_eq!(info.global_name, 100);
    assert_eq!(info.transform, Transform::Normal);
}

#[test]
fn probe_waits_for_every_output() {
    let mut probe = OutputProbe::new();
    probe.register(1, 100);
    probe.register(2, 200);
    for id in [1u64, 2] {
        probe.on_event(id, OutputEvent::Name(format!("OUT-{id}")));
        probe.on_event(id, OutputEvent::LogicalPosition(0, 0));
        probe.on_event(id, OutputEvent::LogicalSize(64, 64));
        probe.on_event(id, OutputEvent::PixelSize(64, 64));
        probe.on_event(id, OutputEvent::Refresh(Rational { num: 60, den: 1 }));
        probe.on_event(id, OutputEvent::Done);
    }
    // each output has seen only one done round so far
    assert!(!probe.on_event(1, OutputEvent::Done));
    // the probe finishes only when the last output finishes
    assert!(probe.on_event(2, OutputEvent::Done));
}

#[test]
fn probe_incomplete_output_stays_pending() {
    let mut probe = OutputProbe::new();
    probe.register(9, 1);
    probe.on_event(9, OutputEvent::Name("X".to_string()));
    probe.on_event(9, OutputEvent::Done);
    // no geometry ever arrived: two dones are not enough
    assert!(!probe.on_event(9, OutputEvent::Done));
    assert!(probe.entries[0].ready.is_none());
}
