use wl_screenrec::transform::{transform_is_transposed, Rect, Transform};

#[test]
fn screen_to_frame_normal() {
    assert_eq!(
        Rect {
            x: 10,
            y: 20,
            w: 30,
            h: 40
        }
        .screen_to_frame(1920, 1080, Transform::Normal),
        Rect {
            x: 10,
            y: 20,
            w: 30,
            h: 40
        }
    );
}

#[test]
fn screen_to_frame_90() {
    assert_eq!(
        Rect {
            x: 10,
            y: 20,
            w: 30,
            h: 40
        }
        .screen_to_frame(1920, 1080, Transform::Rot90),
        Rect {
            x: 20,
            y: 1040,
            w: 40,
            h: 30
        }
    );

    assert_eq!(
        Rect {
            x: 0,
            y: 0,
            w: 1200,
            h: 1920
        }
        .screen_to_frame(1920, 1200, Transform::Rot90),
        Rect {
            x: 0,
            y: 0,
            w: 1920,
            h: 1200
        }
    );

    assert_eq!(
        Rect {
            x: 743,
            y: 1359,
            w: 312,
            h: 264,
        }
        .screen_to_frame(1920, 1200, Transform::Rot90),
        Rect {
            x: 1359,
            y: 145,
            w: 264,
            h: 312
        }
    )
}

#[test]
fn screen_to_frame_270() {
    assert_eq!(
        Rect {
            x: 274,
            y: 962,
            w: 639,
            h: 412,
        }
        .screen_to_frame(1920, 1200, Transform::Rot270),
        Rect {
            x: 546,
            y: 274,
            w: 412,
            h: 639
        }
    );
}

#[test]
fn transform_transposed() {
    assert!(!transform_is_transposed(Transform::Normal));
    assert!(transform_is_transposed(Transform::Rot90));
}

#[test]
fn fit_inside_bounds_clamps() {
    let r = Rect {
        x: -10,
        y: 5,
        w: 100,
        h: 100,
    };
    let f = r.fit_inside_bounds(50, 60);
    assert_eq!(
        f,
        Rect {
            x: 0,
            y: 5,
            w: 50,
            h: 55
        }
    );

    // a rectangle already inside is untouched
    let r2 = Rect {
        x: 1,
        y: 2,
        w: 3,
        h: 4,
    };
    assert_eq!(r2.fit_inside_bounds(50, 60), r2);
}

#[test]
fn rect_new_fields() {
    let r = Rect::new((7, 8), (9, 10));
    assert_eq!((r.x, r.y, r.w, r.h), (7, 8, 9, 10));
}
