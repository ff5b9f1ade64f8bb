//! Encoder selection decisions.
//!
//! Which codec to use, whether a hardware encoder exists for it, which
//! pixel format the encoder is fed, what resolution to encode at, and
//! the one-shot fallback from low-power to regular hardware encoding.
//! The encoder objects themselves live with the caller; these functions
//! only decide.

use vstd::prelude::*;

use crate::filtergraph::EncodePixelFormat;

verus! {

/// The codec families selectable on the command line.
#[derive(Clone, Copy, Debug, PartialEq, Eq, Structural)]
pub enum Codec {
    /// Pick from the container format's default.
    Auto,
    Avc,
    Hevc,
    VP8,
    VP9,
    AV1,
}

/// The hardware encoder matching a codec, in each API flavour.
#[derive(Clone, Copy, Debug, PartialEq, Eq, Structural)]
pub enum HwEncoder {
    H264Vaapi,
    HevcVaapi,
    Vp8Vaapi,
    Vp9Vaapi,
    Av1Vaapi,
    H264Vulkan,
    HevcVulkan,
    Av1Vulkan,
}

/// Low-power encoding preference from the command line.
#[derive(Clone, Copy, Debug, PartialEq, Eq, Structural)]
pub enum LowPowerMode {
    /// Try low-power first, fall back to the regular mode once.
    Auto,
    On,
    Off,
}

/// The codec identities the hardware mapping knows.
#[derive(Clone, Copy, Debug, PartialEq, Eq, Structural)]
pub enum CodecId {
    H264,
    Hevc,
    Vp8,
    Vp9,
    Av1,
    Other,
}

/// The known hardware encoder for a codec, if there is one for the
/// chosen API.
pub fn hw_codec_id(codec: CodecId, vulkan: bool) -> (r: Option<HwEncoder>)
    ensures
        r == (if vulkan {
            match codec {
                CodecId::H264 => Some(HwEncoder::H264Vulkan),
                CodecId::Hevc => Some(HwEncoder::HevcVulkan),
                CodecId::Av1 => Some(HwEncoder::Av1Vulkan),
                _ => None::<HwEncoder>,
            }
        } else {
            match codec {
                CodecId::H264 => Some(HwEncoder::H264Vaapi),
                CodecId::Hevc => Some(HwEncoder::HevcVaapi),
                CodecId::Vp8 => Some(HwEncoder::Vp8Vaapi),
                CodecId::Vp9 => Some(HwEncoder::Vp9Vaapi),
                CodecId::Av1 => Some(HwEncoder::Av1Vaapi),
                _ => None::<HwEncoder>,
            }
        }),
{
    if vulkan {
        match codec {
            CodecId::H264 => Some(HwEncoder::H264Vulkan),
            CodecId::Hevc => Some(HwEncoder::HevcVulkan),
            CodecId::Av1 => Some(HwEncoder::Av1Vulkan),
            _ => None,
        }
    } else {
        match codec {
            CodecId::H264 => Some(HwEncoder::H264Vaapi),
            CodecId::Hevc => Some(HwEncoder::HevcVaapi),
            CodecId::Vp8 => Some(HwEncoder::Vp8Vaapi),
            CodecId::Vp9 => Some(HwEncoder::Vp9Vaapi),
            CodecId::Av1 => Some(HwEncoder::Av1Vaapi),
            _ => None,
        }
    }
}

/// The codec identity a command-line choice pins down; `Auto` leaves the
/// choice to the container format's default and so maps to nothing here.
pub fn requested_codec_id(codec: Codec) -> (r: Option<CodecId>)
    ensures
        r == (match codec {
            Codec::Auto => None::<CodecId>,
            Codec::Avc => Some(CodecId::H264),
            Codec::Hevc => Some(CodecId::Hevc),
            Codec::VP8 => Some(CodecId::Vp8),
            Codec::VP9 => Some(CodecId::Vp9),
            Codec::AV1 => Some(CodecId::Av1),
        }),
{
    match codec {
        Codec::Auto => None,
        Codec::Avc => Some(CodecId::H264),
        Codec::Hevc => Some(CodecId::Hevc),
        Codec::VP8 => Some(CodecId::Vp8),
        Codec::VP9 => Some(CodecId::Vp9),
        Codec::AV1 => Some(CodecId::Av1),
    }
}

/// The encoder cannot take the requested pixel format.
#[derive(Clone, Copy, Debug, PartialEq, Eq, Structural)]
pub enum EncPixfmtError {
    UnsupportedPixfmt,
}

/// The sequence holds the value.
pub open spec fn seq_contains(s: Seq<u32>, v: u32) -> bool {
    exists|i: int| 0 <= i < s.len() && s[i] == v
}

fn vec_contains(v: &Vec<u32>, x: u32) -> (r: bool)
    ensures
        r == seq_contains(v@, x),
{
    let mut i: usize = 0;
    while i < v.len()
        invariant
            i <= v@.len(),
            forall|j: int| 0 <= j < i ==> v@[j] != x,
        decreases v@.len() - i,
    {
        if v[i] == x {
            return true;
        }
        i += 1;
    }
    false
}

/// Chooses how frames are handed to the encoder. Pixel formats are
/// ffmpeg's numeric identifiers, passed in by the caller along with the
/// identifiers of the two GPU memory formats and of the default. An
/// encoder advertising GPU memory gets GPU frames in the requested (or
/// default) layout; one advertising nothing gets the requested (or
/// default) layout in system memory; otherwise the request must be among
/// the advertised formats, and without a request the first advertised
/// format is used.
pub fn get_enc_pixfmt(
    requested: Option<u32>,
    supported: &Vec<u32>,
    vaapi_fmt: u32,
    vulkan_fmt: u32,
    default_fmt: u32,
) -> (r: Result<(EncodePixelFormat, u32), EncPixfmtError>)
    ensures
        supported@.len() == 0 ==> r == Ok::<(EncodePixelFormat, u32), EncPixfmtError>(
            (
                EncodePixelFormat::Sw,
                match requested {
                    Some(f) => f,
                    None => default_fmt,
                },
            ),
        ),
        supported@.len() > 0 && seq_contains(supported@, vaapi_fmt) ==> r == Ok::<
            (EncodePixelFormat, u32),
            EncPixfmtError,
        >(
            (
                EncodePixelFormat::Vaapi,
                match requested {
                    Some(f) => f,
                    None => default_fmt,
                },
            ),
        ),
        supported@.len() > 0 && !seq_contains(supported@, vaapi_fmt) && seq_contains(
            supported@,
            vulkan_fmt,
        ) ==> r == Ok::<(EncodePixelFormat, u32), EncPixfmtError>(
            (
                EncodePixelFormat::Vulkan,
                match requested {
                    Some(f) => f,
                    None => default_fmt,
                },
            ),
        ),
        supported@.len() > 0 && !seq_contains(supported@, vaapi_fmt) && !seq_contains(
            supported@,
            vulkan_fmt,
        ) ==> r == (match requested {
            None => Ok::<(EncodePixelFormat, u32), EncPixfmtError>(
                (EncodePixelFormat::Sw, supported@[0]),
            ),
            Some(f) => if seq_contains(supported@, f) {
                Ok::<(EncodePixelFormat, u32), EncPixfmtError>((EncodePixelFormat::Sw, f))
            } else {
                Err::<(EncodePixelFormat, u32), EncPixfmtError>(EncPixfmtError::UnsupportedPixfmt)
            },
        }),
{
    if supported.len() == 0 {
        let f = match requested {
            Some(f) => f,
            None => default_fmt,
        };
        Ok((EncodePixelFormat::Sw, f))
    } else if vec_contains(supported, vaapi_fmt) {
        let f = match requested {
            Some(f) => f,
            None => default_fmt,
        };
        Ok((EncodePixelFormat::Vaapi, f))
    } else if vec_contains(supported, vulkan_fmt) {
        let f = match requested {
            Some(f) => f,
            None => default_fmt,
        };
        Ok((EncodePixelFormat::Vulkan, f))
    } else {
        match requested {
            None => Ok((EncodePixelFormat::Sw, supported[0])),
            Some(f) => {
                if vec_contains(supported, f) {
                    Ok((EncodePixelFormat::Sw, f))
                } else {
                    Err(EncPixfmtError::UnsupportedPixfmt)
                }
            },
        }
    }
}

/// The resolution to encode at: the override when one was given, else
/// the region of interest's own size.
pub fn encode_size(
    encode_resolution: Option<(u32, u32)>,
    roi_w: i32,
    roi_h: i32,
) -> (r: (i32, i32))
    requires
        encode_resolution matches Some((w, h)) ==> w <= i32::MAX && h <= i32::MAX,
    ensures
        r == (match encode_resolution {
            Some((w, h)) => (w as i32, h as i32),
            None => (roi_w, roi_h),
        }),
{
    match encode_resolution {
        Some((w, h)) => (w as i32, h as i32),
        None => (roi_w, roi_h),
    }
}

/// One option added to the encoder open call, by meaning; the caller
/// spells the concrete key/value pair of its encoder library.
#[derive(Clone, Copy, Debug, PartialEq, Eq, Structural)]
pub enum EncoderOption {
    /// Ask for the fixed-function low-power hardware encode path.
    LowPower,
    /// Cap the H.264 level at 3.0, as the regular hardware open does.
    H264Level30,
    /// The fastest software preset, for the x264 software encoder.
    X264PresetUltrafast,
}

/// The options a regular (non-low-power) hardware open adds: H.264 gets
/// the level cap, other codecs nothing.
pub open spec fn spec_hw_regular_options(codec: CodecId) -> Seq<EncoderOption> {
    if codec == CodecId::H264 {
        seq![EncoderOption::H264Level30]
    } else {
        Seq::empty()
    }
}

/// The options of the first hardware open attempt, and of the one
/// permitted fallback attempt when the first may fail: automatic mode
/// tries low power and falls back once to the regular options; forcing
/// low power on or off makes the single attempt's failure fatal.
pub fn hw_open_plan(mode: LowPowerMode, codec: CodecId) -> (r: (
    Vec<EncoderOption>,
    Option<Vec<EncoderOption>>,
))
    ensures
        match mode {
            LowPowerMode::Auto => r.0@ == seq![EncoderOption::LowPower] && (r.1 matches Some(
                fallback,
            ) && fallback@ == spec_hw_regular_options(codec)),
            LowPowerMode::On => r.0@ == seq![EncoderOption::LowPower] && r.1 is None,
            LowPowerMode::Off => r.0@ == spec_hw_regular_options(codec) && r.1 is None,
        },
{
    let mut low_power: Vec<EncoderOption> = Vec::new();
    low_power.push(EncoderOption::LowPower);
    let mut regular: Vec<EncoderOption> = Vec::new();
    if let CodecId::H264 = codec {
        regular.push(EncoderOption::H264Level30);
    }
    proof {
        assert(regular@ =~= spec_hw_regular_options(codec));
    }
    match mode {
        LowPowerMode::Auto => (low_power, Some(regular)),
        LowPowerMode::On => (low_power, None),
        LowPowerMode::Off => (regular, None),
    }
}

/// The options a software open adds: the x264 encoder gets the fast
/// preset (unless the caller supplied one of its own), others nothing.
pub fn sw_open_options(encoder_is_x264: bool, preset_given: bool) -> (r: Vec<EncoderOption>)
    ensures
        r@ == if encoder_is_x264 && !preset_given {
            seq![EncoderOption::X264PresetUltrafast]
        } else {
            Seq::<EncoderOption>::empty()
        },
{
    let mut opts: Vec<EncoderOption> = Vec::new();
    if encoder_is_x264 && !preset_given {
        opts.push(EncoderOption::X264PresetUltrafast);
    }
    proof {
        assert(opts@ =~= (if encoder_is_x264 && !preset_given {
            seq![EncoderOption::X264PresetUltrafast]
        } else {
            Seq::<EncoderOption>::empty()
        }));
    }
    opts
}

} // verus!
