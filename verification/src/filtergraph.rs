//! Planning of the per-generation video filter chain.
//!
//! Each negotiated format gets a processing chain: crop the capture
//! buffer to the region of interest (mapped into buffer space first,
//! since hardware scalers cannot transpose before the format
//! conversion), scale to the encode resolution and pixel format, then
//! transpose/flip to match the output's orientation, and finally
//! download to system memory when the encoder cannot take GPU frames.
//! This module decides the stages and their parameters; rendering them
//! into the filter description and driving the graph is the caller's.

use vstd::prelude::*;

use crate::transform::{
    spec_is_transposed, spec_rect_to_frame, transpose_if_transform_transposed, Rect, Transform,
    COORD_LIMIT,
};

verus! {

/// What to capture and how large to encode it.
pub enum CropScale {
    /// Encode the whole capture surface at its own size.
    Full,
    /// Crop to a screen-space region of interest and scale to an encode
    /// resolution (width, height); scaling happens when the two differ.
    RectScale(Rect, (i32, i32)),
}

/// Which memory the encoder accepts its frames in.
#[derive(Clone, Copy, Debug, PartialEq, Eq, Structural)]
pub enum EncodePixelFormat {
    /// GPU frames through the video acceleration API.
    Vaapi,
    /// GPU frames through the graphics API.
    Vulkan,
    /// System memory frames; a download stage is needed.
    Sw,
}

/// The direction argument of the transpose stage.
#[derive(Clone, Copy, Debug, PartialEq, Eq, Structural)]
pub enum TransposeDir {
    Clock,
    Reversal,
    CClock,
    HFlip,
    CClockFlip,
    VFlip,
    ClockFlip,
}

/// The transpose stage a display transform calls for, if any.
pub open spec fn spec_transpose_dir(transform: Transform) -> Option<TransposeDir> {
    match transform {
        Transform::Rot90 => Some(TransposeDir::Clock),
        Transform::Rot180 => Some(TransposeDir::Reversal),
        Transform::Rot270 => Some(TransposeDir::CClock),
        Transform::Flipped => Some(TransposeDir::HFlip),
        Transform::Flipped90 => Some(TransposeDir::CClockFlip),
        Transform::Flipped180 => Some(TransposeDir::VFlip),
        Transform::Flipped270 => Some(TransposeDir::ClockFlip),
        Transform::Normal => None,
    }
}

/// The planned filter chain, stages in order: crop, scale,
/// transpose, download.
pub struct FilterPlan {
    /// The crop stage's rectangle in capture-buffer space, if cropping.
    pub crop: Option<Rect>,
    /// The scale stage's output width.
    pub scale_w: i32,
    /// The scale stage's output height.
    pub scale_h: i32,
    /// The transpose stage, when the output is rotated or flipped.
    pub transpose: Option<TransposeDir>,
    /// Whether frames must be downloaded to system memory at the end.
    pub download: bool,
    /// Whether the graphics-API filter variants are used.
    pub vulkan: bool,
}

/// Decides the filter chain for one capture generation. The region of
/// interest is given in screen space and is mapped into buffer space for
/// the crop stage; the encode size is given in screen space and swapped
/// into buffer orientation for the scale stage, which also performs the
/// pixel format conversion.
pub fn plan_video_filter(
    capture_w: i32,
    capture_h: i32,
    crop_scale: CropScale,
    transform: Transform,
    pix_fmt: EncodePixelFormat,
    vulkan: bool,
) -> (r: FilterPlan)
    requires
        0 <= capture_w <= COORD_LIMIT,
        0 <= capture_h <= COORD_LIMIT,
        crop_scale matches CropScale::RectScale(roi, dims) ==> {
            &&& -COORD_LIMIT <= roi.x <= COORD_LIMIT
            &&& -COORD_LIMIT <= roi.y <= COORD_LIMIT
            &&& -COORD_LIMIT <= roi.x + roi.w <= COORD_LIMIT
            &&& -COORD_LIMIT <= roi.y + roi.h <= COORD_LIMIT
            // the mapped region must start inside the buffer; a region
            // outside it is a state-machine bug
            &&& spec_rect_to_frame(roi, capture_w as int, capture_h as int, transform).x >= 0
            &&& spec_rect_to_frame(roi, capture_w as int, capture_h as int, transform).y >= 0
        },
    ensures
        r.crop == (match crop_scale {
            CropScale::Full => None::<Rect>,
            CropScale::RectScale(roi, _) => Some(
                spec_rect_to_frame(roi, capture_w as int, capture_h as int, transform),
            ),
        }),
        ({
            let dims = match crop_scale {
                CropScale::Full => (capture_w, capture_h),
                CropScale::RectScale(_, enc_dims) => enc_dims,
            };
            if spec_is_transposed(transform) {
                r.scale_w == dims.1 && r.scale_h == dims.0
            } else {
                r.scale_w == dims.0 && r.scale_h == dims.1
            }
        }),
        r.transpose == spec_transpose_dir(transform),
        r.download == (pix_fmt matches EncodePixelFormat::Sw),
        r.vulkan == vulkan,
{
    let (crop, dims) = match crop_scale {
        CropScale::Full => (None, (capture_w, capture_h)),
        CropScale::RectScale(roi, enc_dims) => {
            let mapped = roi.screen_to_frame(capture_w, capture_h, transform);
            (Some(mapped), enc_dims)
        },
    };
    let (scale_w, scale_h) = transpose_if_transform_transposed(dims, transform);
    let transpose = match transform {
        Transform::Rot90 => Some(TransposeDir::Clock),
        Transform::Rot180 => Some(TransposeDir::Reversal),
        Transform::Rot270 => Some(TransposeDir::CClock),
        Transform::Flipped => Some(TransposeDir::HFlip),
        Transform::Flipped90 => Some(TransposeDir::CClockFlip),
        Transform::Flipped180 => Some(TransposeDir::VFlip),
        Transform::Flipped270 => Some(TransposeDir::ClockFlip),
        Transform::Normal => None,
    };
    let download = match pix_fmt {
        EncodePixelFormat::Sw => true,
        _ => false,
    };
    FilterPlan { crop, scale_w, scale_h, transpose, download, vulkan }
}

/// The fixed time base of the filter graph's output: nanoseconds.
pub fn filter_output_time_base() -> (r: crate::history::Rational)
    ensures
        r == (crate::history::Rational { num: 1i32, den: 1_000_000_000i32 }),
        r.wf(),
{
    crate::history::Rational { num: 1, den: 1_000_000_000 }
}

} // verus!
