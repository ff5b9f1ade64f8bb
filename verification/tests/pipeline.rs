use wl_screenrec::audio::AudioBatcher;
use wl_screenrec::enc::{
    encode_size, get_enc_pixfmt, hw_codec_id, hw_open_plan, requested_codec_id, sw_open_options,
    Codec, CodecId, EncPixfmtError, EncoderOption, HwEncoder, LowPowerMode,
};
use wl_screenrec::filtergraph::{
    filter_output_time_base, plan_video_filter, CropScale, EncodePixelFormat, TransposeDir,
};
use wl_screenrec::fps_counter::FpsCounter;
use wl_screenrec::history::Rational;
use wl_screenrec::transform::{Rect, Transform};

const SEC: u64 = 1_000_000_000;

// ffmpeg's identifiers for the formats used in these tests
const FMT_VAAPI: u32 = 44;
const FMT_VULKAN: u32 = 191;
const FMT_NV12: u32 = 23;
const FMT_YUV420P: u32 = 0;

#[test]
fn filter_plan_full_frame() {
    let plan = plan_video_filter(
        1920,
        1080,
        CropScale::Full,
        Transform::Normal,
        EncodePixelFormat::Vaapi,
        false,
    );
    assert!(plan.crop.is_none());
    assert_eq!((plan.scale_w, plan.scale_h), (1920, 1080));
    assert!(plan.transpose.is_none());
    assert!(!plan.download);
    assert!(!plan.vulkan);
}

#[test]
fn filter_plan_crop_is_mapped_into_buffer_space() {
    // the crop runs before the transpose, so the screen-space region is
    // mapped into the rotated buffer's coordinates
    let roi = Rect {
        x: 10,
        y: 20,
        w: 30,
        h: 40,
    };
    let plan = plan_video_filter(
        1920,
        1080,
        CropScale::RectScale(roi, (30, 40)),
        Transform::Rot90,
        EncodePixelFormat::Vaapi,
        false,
    );
    assert_eq!(
        plan.crop,
        Some(Rect {
            x: 20,
            y: 1040,
            w: 40,
            h: 30
        })
    );
    // the encode size is swapped into buffer orientation too
    assert_eq!((plan.scale_w, plan.scale_h), (40, 30));
    assert_eq!(plan.transpose, Some(TransposeDir::Clock));
}

#[test]
fn filter_plan_downloads_for_software_encoders() {
    let plan = plan_video_filter(
        64,
        64,
        CropScale::Full,
        Transform::Flipped180,
        EncodePixelFormat::Sw,
        false,
    );
    assert!(plan.download);
    assert_eq!(plan.transpose, Some(TransposeDir::VFlip));
}

#[test]
fn filter_time_base_is_nanoseconds() {
    assert_eq!(
        filter_output_time_base(),
        Rational {
            num: 1,
            den: 1_000_000_000
        }
    );
}

#[test]
fn hw_codec_mapping() {
    assert_eq!(hw_codec_id(CodecId::H264, false), Some(HwEncoder::H264Vaapi));
    assert_eq!(hw_codec_id(CodecId::Vp9, false), Some(HwEncoder::Vp9Vaapi));
    assert_eq!(hw_codec_id(CodecId::H264, true), Some(HwEncoder::H264Vulkan));
    // no graphics-API encoder exists for these
    assert_eq!(hw_codec_id(CodecId::Vp8, true), None);
    assert_eq!(hw_codec_id(CodecId::Other, false), None);
}

#[test]
fn requested_codec_mapping() {
    assert_eq!(requested_codec_id(Codec::Auto), None);
    assert_eq!(requested_codec_id(Codec::Avc), Some(CodecId::H264));
    assert_eq!(requested_codec_id(Codec::AV1), Some(CodecId::Av1));
}

#[test]
fn enc_pixfmt_prefers_gpu_memory() {
    let supported = vec![FMT_VAAPI, FMT_YUV420P];
    assert_eq!(
        get_enc_pixfmt(None, &supported, FMT_VAAPI, FMT_VULKAN, FMT_NV12),
        Ok((EncodePixelFormat::Vaapi, FMT_NV12))
    );
    // an explicit request rides along into GPU memory
    assert_eq!(
        get_enc_pixfmt(Some(FMT_YUV420P), &supported, FMT_VAAPI, FMT_VULKAN, FMT_NV12),
        Ok((EncodePixelFormat::Vaapi, FMT_YUV420P))
    );
}

#[test]
fn enc_pixfmt_software_fallbacks() {
    // nothing advertised: trust the request, or use the default
    let empty: Vec<u32> = vec![];
    assert_eq!(
        get_enc_pixfmt(None, &empty, FMT_VAAPI, FMT_VULKAN, FMT_NV12),
        Ok((EncodePixelFormat::Sw, FMT_NV12))
    );
    // software formats only: the first advertised one wins by default
    let sw = vec![FMT_YUV420P, FMT_NV12];
    assert_eq!(
        get_enc_pixfmt(None, &sw, FMT_VAAPI, FMT_VULKAN, FMT_NV12),
        Ok((EncodePixelFormat::Sw, FMT_YUV420P))
    );
    // a request the encoder does not support is an error
    assert_eq!(
        get_enc_pixfmt(Some(99), &sw, FMT_VAAPI, FMT_VULKAN, FMT_NV12),
        Err(EncPixfmtError::UnsupportedPixfmt)
    );
}

#[test]
fn encode_size_override() {
    assert_eq!(encode_size(Some((128, 128)), 256, 256), (128, 128));
    assert_eq!(encode_size(None, 256, 256), (256, 256));
}

#[test]
fn low_power_fallback_only_in_auto() {
    // automatic mode tries low power and may retry once with the
    // regular options; H.264 retries carry the level cap
    let (first, fallback) = hw_open_plan(LowPowerMode::Auto, CodecId::H264);
    assert_eq!(first, vec![EncoderOption::LowPower]);
    assert_eq!(fallback, Some(vec![EncoderOption::H264Level30]));
    let (first, fallback) = hw_open_plan(LowPowerMode::Auto, CodecId::Vp9);
    assert_eq!(first, vec![EncoderOption::LowPower]);
    assert_eq!(fallback, Some(vec![]));
    // forcing the mode allows no retry
    let (first, fallback) = hw_open_plan(LowPowerMode::On, CodecId::H264);
    assert_eq!(first, vec![EncoderOption::LowPower]);
    assert_eq!(fallback, None);
    let (first, fallback) = hw_open_plan(LowPowerMode::Off, CodecId::H264);
    assert_eq!(first, vec![EncoderOption::H264Level30]);
    assert_eq!(fallback, None);
}

#[test]
fn software_open_presets_x264_only() {
    assert_eq!(
        sw_open_options(true, false),
        vec![EncoderOption::X264PresetUltrafast]
    );
    assert_eq!(sw_open_options(true, true), Vec::<EncoderOption>::new());
    assert_eq!(sw_open_options(false, false), Vec::<EncoderOption>::new());
}

#[test]
fn fps_counter_reports_once_per_interval() {
    let mut c = FpsCounter::new(0);
    for _ in 0..30 {
        c.on_frame();
    }
    // not yet due
    assert_eq!(c.report(SEC), None);
    assert_eq!(c.report(SEC + 1), Some(30));
    for _ in 0..5 {
        c.on_frame();
    }
    // the next interval reports only the new frames
    assert_eq!(c.report(2 * SEC + 1), Some(5));
    assert_eq!(c.time_until_next_report(2 * SEC + 1), SEC - 1);
    assert_eq!(c.time_until_next_report(4 * SEC), 0);
}

#[test]
fn audio_batcher_pops_fixed_chunks() {
    // an encoder frame of 1024 samples
    let mut b = AudioBatcher::new(1024);
    // a frame smaller than the threshold stays queued
    assert!(b.push(1024).is_empty());
    assert_eq!(b.fifo_samples, 1024);
    // crossing the threshold pops chunks with running timestamps
    let out = b.push(2048);
    assert_eq!(out, vec![0, 1024]);
    assert_eq!(b.fifo_samples, 1024);
    let out = b.push(10);
    assert_eq!(out, vec![2048]);
    assert_eq!(b.fifo_samples, 10);
    assert_eq!(b.pts, 3072);
}
