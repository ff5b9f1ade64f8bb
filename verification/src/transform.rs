//! Screen-space to capture-buffer-space coordinate conversion.
//!
//! A compositor output can be rotated or flipped; the captured buffer is
//! always in the panel's native orientation. Regions of interest are given
//! in screen space and must be mapped into buffer space before cropping.

use vstd::prelude::*;

verus! {

/// A display transform as reported by the compositor: how the output is
/// rotated and/or flipped relative to the panel's native orientation.
#[derive(Clone, Copy, Debug, PartialEq, Eq, Structural)]
pub enum Transform {
    Normal,
    Rot90,
    Rot180,
    Rot270,
    Flipped,
    Flipped90,
    Flipped180,
    Flipped270,
}

/// An axis-aligned rectangle; `x`,`y` is one corner, `w`,`h` its extent.
#[derive(Clone, Copy, Debug, PartialEq, Eq, Structural)]
pub struct Rect {
    pub x: i32,
    pub y: i32,
    pub w: i32,
    pub h: i32,
}

/// Coordinates stay well inside `i32` as long as they are below this bound,
/// since every mapped coordinate is a sum of at most three such values.
pub const COORD_LIMIT: i32 = 0x1000_0000;

/// For each screen-space step in (x, y), how many steps are taken in frame
/// space: the images of the two screen basis vectors.
pub open spec fn spec_basis(transform: Transform) -> ((int, int), (int, int)) {
    match transform {
        Transform::Rot90 => ((0, -1), (1, 0)),
        Transform::Rot180 => ((-1, 0), (0, -1)),
        Transform::Rot270 => ((0, 1), (-1, 0)),
        Transform::Flipped => ((-1, 0), (0, 1)),
        Transform::Flipped90 => ((0, 1), (1, 0)),
        Transform::Flipped180 => ((1, 0), (0, -1)),
        Transform::Flipped270 => ((0, -1), (-1, 0)),
        Transform::Normal => ((1, 0), (0, 1)),
    }
}

/// The image in frame space of the screen-space point (x, y), for a frame
/// of `capture_w` by `capture_h` pixels.
pub open spec fn spec_point_to_frame(
    capture_w: int,
    capture_h: int,
    transform: Transform,
    x: int,
    y: int,
) -> (int, int) {
    match transform {
        Transform::Normal => (x, y),
        Transform::Rot90 => (y, capture_h - x),
        Transform::Rot180 => (capture_w - x, capture_h - y),
        Transform::Rot270 => (capture_w - y, x),
        Transform::Flipped => (capture_w - x, y),
        Transform::Flipped90 => (y, x),
        Transform::Flipped180 => (x, capture_h - y),
        Transform::Flipped270 => (capture_w - y, capture_h - x),
    }
}

/// A transform is transposed when it swaps the two axes.
pub open spec fn spec_is_transposed(transform: Transform) -> bool {
    spec_basis(transform).0.0 == 0
}

/// Whether a transform swaps the horizontal and vertical axes.
pub fn transform_is_transposed(transform: Transform) -> (r: bool)
    ensures
        r == spec_is_transposed(transform),
{
    match transform {
        Transform::Rot90 | Transform::Rot270 | Transform::Flipped90 | Transform::Flipped270 => true,
        _ => false,
    }
}

/// Swaps a width/height pair when the transform is transposed, so that the
/// pair describes the same extent in the other coordinate space.
pub fn transpose_if_transform_transposed(dims: (i32, i32), transform: Transform) -> (r: (i32, i32))
    ensures
        spec_is_transposed(transform) ==> r == (dims.1, dims.0),
        !spec_is_transposed(transform) ==> r == dims,
{
    let (w, h) = dims;
    if transform_is_transposed(transform) {
        (h, w)
    } else {
        (w, h)
    }
}

/// Maps one screen-space point into frame space.
pub fn screen_point_to_frame(
    capture_w: i32,
    capture_h: i32,
    transform: Transform,
    x: i32,
    y: i32,
) -> (r: (i32, i32))
    requires
        0 <= capture_w <= COORD_LIMIT,
        0 <= capture_h <= COORD_LIMIT,
        -COORD_LIMIT <= x <= COORD_LIMIT,
        -COORD_LIMIT <= y <= COORD_LIMIT,
    ensures
        (r.0 as int, r.1 as int) == spec_point_to_frame(
            capture_w as int,
            capture_h as int,
            transform,
            x as int,
            y as int,
        ),
{
    match transform {
        Transform::Normal => (x, y),
        Transform::Rot90 => (y, capture_h - x),
        Transform::Rot180 => (capture_w - x, capture_h - y),
        Transform::Rot270 => (capture_w - y, x),
        Transform::Flipped => (capture_w - x, y),
        Transform::Flipped90 => (y, x),
        Transform::Flipped180 => (x, capture_h - y),
        Transform::Flipped270 => (capture_w - y, capture_h - x),
    }
}

/// The image of a screen-space rectangle in frame space: both corners are
/// mapped and the result is re-normalised so `w` and `h` are non-negative.
pub open spec fn spec_rect_to_frame(
    rect: Rect,
    capture_w: int,
    capture_h: int,
    transform: Transform,
) -> Rect {
    let p1 = spec_point_to_frame(capture_w, capture_h, transform, rect.x as int, rect.y as int);
    let p2 = spec_point_to_frame(
        capture_w,
        capture_h,
        transform,
        rect.x + rect.w,
        rect.y + rect.h,
    );
    Rect {
        x: (if p1.0 <= p2.0 { p1.0 } else { p2.0 }) as i32,
        y: (if p1.1 <= p2.1 { p1.1 } else { p2.1 }) as i32,
        w: (if p1.0 <= p2.0 { p2.0 - p1.0 } else { p1.0 - p2.0 }) as i32,
        h: (if p1.1 <= p2.1 { p2.1 - p1.1 } else { p1.1 - p2.1 }) as i32,
    }
}

/// A rectangle clamped into a `bound_w` by `bound_h` area anchored at the
/// origin: the corner moves inside first, then the extent is shortened to
/// fit.
pub open spec fn spec_fit_inside_bounds(r: Rect, bound_w: int, bound_h: int) -> Rect {
    let x = if r.x < 0 {
        0
    } else if r.x > bound_w {
        bound_w
    } else {
        r.x as int
    };
    let y = if r.y < 0 {
        0
    } else if r.y > bound_h {
        bound_h
    } else {
        r.y as int
    };
    Rect {
        x: x as i32,
        y: y as i32,
        w: (if r.w < bound_w - x {
            r.w as int
        } else {
            bound_w - x
        }) as i32,
        h: (if r.h < bound_h - y {
            r.h as int
        } else {
            bound_h - y
        }) as i32,
    }
}

impl Rect {
    /// Builds a rectangle from a position and a size.
    pub fn new(pos: (i32, i32), size: (i32, i32)) -> (r: Rect)
        ensures
            r == (Rect { x: pos.0, y: pos.1, w: size.0, h: size.1 }),
    {
        let (x, y) = pos;
        let (w, h) = size;
        Rect { x, y, w, h }
    }

    /// Converts this screen-space rectangle into the capture buffer's frame
    /// space, given the buffer's size and the output's transform.
    pub fn screen_to_frame(&self, capture_w: i32, capture_h: i32, transform: Transform) -> (r:
        Rect)
        requires
            0 <= capture_w <= COORD_LIMIT,
            0 <= capture_h <= COORD_LIMIT,
            -COORD_LIMIT <= self.x <= COORD_LIMIT,
            -COORD_LIMIT <= self.y <= COORD_LIMIT,
            -COORD_LIMIT <= self.x + self.w <= COORD_LIMIT,
            -COORD_LIMIT <= self.y + self.h <= COORD_LIMIT,
        ensures
            r == spec_rect_to_frame(*self, capture_w as int, capture_h as int, transform),
            r.w >= 0,
            r.h >= 0,
    {
        let (x1, y1) = screen_point_to_frame(capture_w, capture_h, transform, self.x, self.y);
        let (x2, y2) = screen_point_to_frame(
            capture_w,
            capture_h,
            transform,
            self.x + self.w,
            self.y + self.h,
        );

        Rect {
            x: if x1 <= x2 { x1 } else { x2 },
            y: if y1 <= y2 { y1 } else { y2 },
            w: if x1 <= x2 { x2 - x1 } else { x1 - x2 },
            h: if y1 <= y2 { y2 - y1 } else { y1 - y2 },
        }
    }

    /// Re-clamps the rectangle so it lies entirely within a `bound_w` by
    /// `bound_h` area anchored at the origin; used when the backing surface
    /// resizes mid-stream.
    pub fn fit_inside_bounds(&self, bound_w: i32, bound_h: i32) -> (r: Rect)
        requires
            0 <= bound_w,
            0 <= bound_h,
            0 <= self.w,
            0 <= self.h,
        ensures
            r == spec_fit_inside_bounds(*self, bound_w as int, bound_h as int),
            0 <= r.x <= bound_w,
            0 <= r.y <= bound_h,
            0 <= r.w,
            0 <= r.h,
            r.x + r.w <= bound_w,
            r.y + r.h <= bound_h,
            // a rectangle already inside the bounds is untouched
            (0 <= self.x && 0 <= self.y && self.x + self.w <= bound_w && self.y + self.h
                <= bound_h) ==> r == *self,
    {
        let x = if self.x < 0 {
            0
        } else if self.x > bound_w {
            bound_w
        } else {
            self.x
        };
        let y = if self.y < 0 {
            0
        } else if self.y > bound_h {
            bound_h
        } else {
            self.y
        };
        let w = if self.w < bound_w - x {
            self.w
        } else {
            bound_w - x
        };
        let h = if self.h < bound_h - y {
            self.h
        } else {
            bound_h - y
        };
        Rect { x, y, w, h }
    }
}

} // verus!
