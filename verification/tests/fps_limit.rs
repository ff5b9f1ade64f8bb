use wl_screenrec::fps_limit::FpsLimit;

const SEC: u64 = 1_000_000_000;

fn secs_f(x: f64) -> u64 {
    (x * SEC as f64) as u64
}

#[test]
fn fps_limit_basic() {
    let mut l = FpsLimit::<u32>::new(SEC);

    let out_frames: Vec<_> = [
        l.on_new_frame(0, secs_f(0.)),
        l.on_new_frame(1, secs_f(0.5)),
        l.on_new_frame(2, secs_f(1.1)),
        l.on_new_frame(3, secs_f(1.2)),
        l.on_new_frame(4, secs_f(1.3)),
        l.on_new_frame(5, secs_f(5.)),
        l.flush(),
    ]
    .into_iter()
    .flatten()
    .collect();

    assert_eq!(out_frames, [0, 1, 4, 5])
}

#[test]
fn synthetic_120hz() {
    // one thirtieth of a second, in nanoseconds
    let mut l = FpsLimit::<u32>::new(SEC / 30);

    let mut acc = vec![];
    for i in 0u64..120 {
        if let Some(r) = l.on_new_frame(i as u32, (i * 1_000_000 / 120) * 1000) {
            acc.push(r);
        }
    }

    if let Some(r) = l.flush() {
        acc.push(r);
    }

    let ct = acc.len();
    assert!(ct >= 28 && ct < 32, "ct={ct} acc={acc:?}");
}

#[test]
fn large_skip() {
    let mut l = FpsLimit::<u32>::new(SEC);

    let out_frames: Vec<_> = [
        l.on_new_frame(0, secs_f(0.)),
        l.on_new_frame(1, secs_f(0.5)),
        l.on_new_frame(2, secs_f(10.0)),
        l.on_new_frame(3, secs_f(10.1)),
        l.on_new_frame(4, secs_f(10.2)),
        l.on_new_frame(5, secs_f(10.3)),
        l.flush(),
    ]
    .into_iter()
    .flatten()
    .collect();

    assert_eq!(out_frames, [0, 1, 2, 5])
}

#[test]
fn first_frame_always_emitted() {
    let mut l = FpsLimit::<&str>::new(SEC);
    assert_eq!(l.on_new_frame("only", 7 * SEC), Some("only"));
    assert_eq!(l.flush(), None);
}

#[test]
fn flush_releases_on_deck() {
    let mut l = FpsLimit::<u32>::new(SEC);
    assert_eq!(l.on_new_frame(0, 0), Some(0));
    assert_eq!(l.on_new_frame(1, SEC / 2), None);
    assert_eq!(l.flush(), Some(1));
    assert_eq!(l.flush(), None);
}
