use wl_screenrec::history::{History, HistoryMode, Packet, Rational};

const SEC: i64 = 1_000_000_000;

fn ns_tb() -> Rational {
    Rational {
        num: 1,
        den: 1_000_000_000,
    }
}

fn pkt(stream: usize, pts: i64, is_key: bool, data: u32) -> Packet<u32> {
    Packet {
        stream,
        pts,
        dts: Some(pts),
        is_key,
        data,
    }
}

fn tags(q: &[Packet<u32>]) -> Vec<u32> {
    q.iter().map(|p| p.data).collect()
}

#[test]
fn history_buffers_until_trigger() {
    let tbs = vec![ns_tb()];
    let mut h: History<u32> = History::new(Some(10 * SEC as u64), false);
    assert!(matches!(h.mode, HistoryMode::RecordingHistory { .. }));
    let out = h.on_encoded_packet(pkt(0, 0, true, 0), &tbs);
    assert!(out.is_empty());
    assert_eq!(h.queue.len(), 1);
}

#[test]
fn history_trims_to_window() {
    // 2 second window, nanosecond time base, one stream
    let tbs = vec![ns_tb()];
    let mut h: History<u32> = History::new(Some(2 * SEC as u64), false);

    h.on_encoded_packet(pkt(0, 0, true, 10), &tbs); // keyframe @0s
    h.on_encoded_packet(pkt(0, SEC, false, 11), &tbs); // @1s
    h.on_encoded_packet(pkt(0, 2 * SEC, true, 12), &tbs); // keyframe @2s
    h.on_encoded_packet(pkt(0, 5 * SEC / 2, false, 13), &tbs); // @2.5s
    // span from the second keyframe (2s) to 2.5s is within the window
    assert_eq!(tags(&h.queue), [10, 11, 12, 13]);

    h.on_encoded_packet(pkt(0, 31 * SEC / 10, true, 14), &tbs); // keyframe @3.1s
    assert_eq!(tags(&h.queue), [10, 11, 12, 13, 14]);

    // 4.1s - 2s exceeds the 2 second window: everything before the
    // keyframe at 2s goes, and the queue still starts at a keyframe
    h.on_encoded_packet(pkt(0, 41 * SEC / 10, false, 15), &tbs);
    assert_eq!(tags(&h.queue), [12, 13, 14, 15]);
    assert!(h.queue[0].is_key);
}

#[test]
fn trim_leaves_other_streams_untouched() {
    // video (stream 0) exceeds its window and is trimmed; audio
    // (stream 1) keeps every packet, in order
    let tbs = vec![ns_tb(), ns_tb()];
    let mut h: History<u32> = History::new(Some(2 * SEC as u64), false);
    h.on_encoded_packet(pkt(1, 0, true, 100), &tbs);
    h.on_encoded_packet(pkt(0, 0, true, 10), &tbs);
    h.on_encoded_packet(pkt(0, SEC, false, 11), &tbs);
    h.on_encoded_packet(pkt(1, SEC, true, 101), &tbs);
    h.on_encoded_packet(pkt(0, 2 * SEC, true, 12), &tbs);
    h.on_encoded_packet(pkt(1, 2 * SEC, true, 102), &tbs);
    h.on_encoded_packet(pkt(0, 31 * SEC / 10, true, 13), &tbs);
    h.on_encoded_packet(pkt(0, 41 * SEC / 10, false, 14), &tbs);
    assert_eq!(tags(&h.queue), [100, 101, 12, 102, 13, 14]);
}

#[test]
fn history_keeps_single_keyframe() {
    // no second keyframe: nothing may be trimmed however old the head is
    let tbs = vec![ns_tb()];
    let mut h: History<u32> = History::new(Some(1), false);
    h.on_encoded_packet(pkt(0, 0, true, 0), &tbs);
    h.on_encoded_packet(pkt(0, 100 * SEC, false, 1), &tbs);
    h.on_encoded_packet(pkt(0, 200 * SEC, false, 2), &tbs);
    assert_eq!(tags(&h.queue), [0, 1, 2]);
}

#[test]
fn trigger_replays_with_offset() {
    let tbs = vec![ns_tb()];
    let mut h: History<u32> = History::new(Some(100 * SEC as u64), false);
    h.on_encoded_packet(pkt(0, SEC, true, 0), &tbs);
    h.on_encoded_packet(pkt(0, 2 * SEC, false, 1), &tbs);

    let replayed = h.trigger(&tbs);
    assert_eq!(replayed.len(), 2);
    // the oldest packet's timestamp becomes zero
    assert_eq!(replayed[0].pts, 0);
    assert_eq!(replayed[0].dts, Some(0));
    assert_eq!(replayed[1].pts, SEC);
    assert!(matches!(
        h.mode,
        HistoryMode::Recording { pts_offset_ns } if pts_offset_ns == SEC
    ));
    assert!(h.queue.is_empty());

    // later packets are written through with the same offset
    let out = h.on_encoded_packet(pkt(0, 3 * SEC, false, 2), &tbs);
    assert_eq!(out.len(), 1);
    assert_eq!(out[0].pts, 2 * SEC);
}

#[test]
fn trigger_twice_is_a_no_op() {
    let tbs = vec![ns_tb()];
    let mut h: History<u32> = History::new(Some(100 * SEC as u64), false);
    h.on_encoded_packet(pkt(0, SEC, true, 0), &tbs);

    let first = h.trigger(&tbs);
    assert_eq!(first.len(), 1);
    let mode_after = h.mode;

    // the second trigger changes nothing and emits nothing
    let second = h.trigger(&tbs);
    assert!(second.is_empty());
    assert_eq!(h.mode, mode_after);
    assert!(h.queue.is_empty());
}

#[test]
fn trigger_offset_is_minimum_across_streams() {
    // stream 0 counts nanoseconds, stream 1 counts 48 kHz samples
    let tbs = vec![
        ns_tb(),
        Rational {
            num: 1,
            den: 48000,
        },
    ];
    let mut h: History<u32> = History::new(Some(100 * SEC as u64), false);
    // audio first packet at 1s (48000 samples), video at 1.5s
    h.on_encoded_packet(pkt(1, 48000, true, 0), &tbs);
    h.on_encoded_packet(pkt(0, 3 * SEC / 2, true, 1), &tbs);

    let replayed = h.trigger(&tbs);
    assert!(matches!(
        h.mode,
        HistoryMode::Recording { pts_offset_ns } if pts_offset_ns == SEC
    ));
    // audio rebases to zero, video keeps its half-second lead
    assert_eq!(replayed[0].pts, 0);
    assert_eq!(replayed[1].pts, SEC / 2);
}

#[test]
fn no_history_writes_through_unchanged() {
    let tbs = vec![ns_tb()];
    let mut h: History<u32> = History::new(None, false);
    assert!(matches!(
        h.mode,
        HistoryMode::Recording { pts_offset_ns: 0 }
    ));
    let out = h.on_encoded_packet(
        Packet {
            stream: 0,
            pts: 5,
            dts: Some(3),
            is_key: true,
            data: 9,
        },
        &tbs,
    );
    assert_eq!(out.len(), 1);
    assert_eq!(out[0].pts, 5);
    assert_eq!(out[0].dts, Some(3));
    assert_eq!(out[0].data, 9);
}

#[test]
fn already_triggered_history_starts_recording() {
    let h: History<u32> = History::new(Some(5), true);
    assert!(matches!(
        h.mode,
        HistoryMode::Recording { pts_offset_ns: 0 }
    ));
}
