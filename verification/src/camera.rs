//! Camera settings and the decisions of the capture loop.
use vstd::prelude::*;
use crate::text::str_eq;

verus! {

/// The pixel formats that can be requested from the camera.
#[derive(PartialEq, Eq, Structural, Clone, Copy, Debug)]
pub enum PixelFormat {
    Mjpeg,
    Yuyv,
    Gray,
    RawRgb,
}

/// The format a configured name asks for, and whether the name is known;
/// unknown names fall back to MJPEG. `RGB24` is another name for raw RGB.
pub open spec fn requested_format(name: Seq<char>) -> (PixelFormat, bool) {
    if name == "MJPEG"@ {
        (PixelFormat::Mjpeg, true)
    } else if name == "YUYV"@ {
        (PixelFormat::Yuyv, true)
    } else if name == "GRAY"@ {
        (PixelFormat::Gray, true)
    } else if name == "RAWRGB"@ || name == "RGB24"@ {
        (PixelFormat::RawRgb, true)
    } else {
        (PixelFormat::Mjpeg, false)
    }
}

/// Maps the configured `camera_format` to a pixel format.
pub fn frame_format_for(name: &str) -> (r: (PixelFormat, bool))
    ensures
        r == requested_format(name@),
{
    if str_eq(name, "MJPEG") {
        (PixelFormat::Mjpeg, true)
    } else if str_eq(name, "YUYV") {
        (PixelFormat::Yuyv, true)
    } else if str_eq(name, "GRAY") {
        (PixelFormat::Gray, true)
    } else if str_eq(name, "RAWRGB") || str_eq(name, "RGB24") {
        (PixelFormat::RawRgb, true)
    } else {
        (PixelFormat::Mjpeg, false)
    }
}

/// A step of the capture loop.
#[derive(PartialEq, Eq, Structural, Clone, Copy, Debug)]
pub enum CaptureStep {
    /// Take a frame from the camera.
    Capture,
    /// Convert the frame into an RGB image.
    Convert,
    /// Encode the image as JPEG at this quality.
    Encode { quality: u8 },
    /// Hand the JPEG to the stream and the recorder.
    Publish,
    /// Wait this many milliseconds after a failed capture.
    Pause { millis: u64 },
}

/// The JPEG quality of streamed frames, a little below the default for speed.
pub open spec fn stream_quality() -> u8 {
    80
}

/// The step after `step`, given whether it succeeded: a frame goes through
/// conversion, encoding and publishing; a failed conversion or encoding
/// drops the frame; a failed capture pauses before the next one.
pub open spec fn next_capture_step(step: CaptureStep, succeeded: bool) -> CaptureStep {
    match step {
        CaptureStep::Capture => if succeeded { CaptureStep::Convert } else { CaptureStep::Pause { millis: 100 } },
        CaptureStep::Convert => if succeeded { CaptureStep::Encode { quality: stream_quality() } } else { CaptureStep::Capture },
        CaptureStep::Encode { .. } => if succeeded { CaptureStep::Publish } else { CaptureStep::Capture },
        CaptureStep::Publish => CaptureStep::Capture,
        CaptureStep::Pause { .. } => CaptureStep::Capture,
    }
}

/// Where each step comes from: a frame is published only after it was
/// encoded, encoded only after it was converted, converted only after it was
/// captured; a pause of 100 ms follows only a failed capture; and a frame
/// that fails at any later stage is dropped for the next capture.
pub proof fn lemma_capture_step_origin(step: CaptureStep, succeeded: bool)
    ensures
        next_capture_step(step, succeeded) == CaptureStep::Publish ==> step is Encode && succeeded,
        next_capture_step(step, succeeded) is Encode ==> step == CaptureStep::Convert && succeeded
            && next_capture_step(step, succeeded) == (CaptureStep::Encode { quality: stream_quality() }),
        next_capture_step(step, succeeded) == CaptureStep::Convert ==> step == CaptureStep::Capture && succeeded,
        next_capture_step(step, succeeded) is Pause ==> step == CaptureStep::Capture && !succeeded
            && next_capture_step(step, succeeded) == (CaptureStep::Pause { millis: 100 }),
        step != CaptureStep::Capture && !succeeded ==> next_capture_step(step, succeeded) == CaptureStep::Capture,
{
}

/// The steps of the loop from its first capture as the outcomes arrive: each
/// outcome says whether the step before it succeeded.
pub open spec fn capture_steps(outcomes: Seq<bool>) -> Seq<CaptureStep>
    decreases outcomes.len(),
{
    if outcomes.len() == 0 {
        seq![CaptureStep::Capture]
    } else {
        let before = capture_steps(outcomes.drop_last());
        before.push(next_capture_step(before.last(), outcomes.last()))
    }
}

/// The steps begin with a capture, and each outcome leads from one step to
/// the next.
pub proof fn lemma_capture_steps_follow(outcomes: Seq<bool>)
    ensures
        capture_steps(outcomes).len() == outcomes.len() + 1,
        capture_steps(outcomes)[0] == CaptureStep::Capture,
        forall|i: int| 0 <= i < outcomes.len() ==> #[trigger] capture_steps(outcomes)[i + 1]
            == next_capture_step(capture_steps(outcomes)[i], outcomes[i]),
    decreases outcomes.len(),
{
    if outcomes.len() > 0 {
        let before = outcomes.drop_last();
        lemma_capture_steps_follow(before);
        let steps = capture_steps(outcomes);
        assert forall|i: int| 0 <= i < outcomes.len() implies #[trigger] steps[i + 1]
            == next_capture_step(steps[i], outcomes[i]) by {
            if i < before.len() {
                assert(capture_steps(before)[i + 1] == next_capture_step(capture_steps(before)[i], before[i]));
            }
        }
    }
}

/// Every frame published was captured, converted and encoded at quality 80,
/// in the three steps just before, each of which succeeded; and every pause
/// follows a failed capture and lasts 100 ms.
pub proof fn lemma_published_frames_were_encoded(outcomes: Seq<bool>, i: int)
    requires
        0 <= i <= outcomes.len(),
    ensures
        capture_steps(outcomes)[i] == CaptureStep::Publish ==> {
            &&& i >= 3
            &&& capture_steps(outcomes)[i - 3] == CaptureStep::Capture && outcomes[i - 3]
            &&& capture_steps(outcomes)[i - 2] == CaptureStep::Convert && outcomes[i - 2]
            &&& capture_steps(outcomes)[i - 1] == (CaptureStep::Encode { quality: stream_quality() }) && outcomes[i - 1]
        },
        capture_steps(outcomes)[i] is Pause ==> {
            &&& i >= 1
            &&& capture_steps(outcomes)[i - 1] == CaptureStep::Capture && !outcomes[i - 1]
            &&& capture_steps(outcomes)[i] == (CaptureStep::Pause { millis: 100 })
        },
{
    lemma_capture_steps_follow(outcomes);
    let steps = capture_steps(outcomes);
    if i >= 1 {
        lemma_capture_step_origin(steps[i - 1], outcomes[i - 1]);
        assert(steps[(i - 1) + 1] == next_capture_step(steps[i - 1], outcomes[i - 1]));
    }
    if i >= 2 {
        lemma_capture_step_origin(steps[i - 2], outcomes[i - 2]);
        assert(steps[(i - 2) + 1] == next_capture_step(steps[i - 2], outcomes[i - 2]));
    }
    if i >= 3 {
        lemma_capture_step_origin(steps[i - 3], outcomes[i - 3]);
        assert(steps[(i - 3) + 1] == next_capture_step(steps[i - 3], outcomes[i - 3]));
    }
}

/// What `image`'s JPEG encoder writes for an RGB image of `width` by
/// `height` pixels (`rgb`, three bytes per pixel, row by row) at `quality`.
pub uninterp spec fn jpeg_encoding(width: u32, height: u32, rgb: Seq<u8>, quality: u8) -> Option<Seq<u8>>;

/// Whether the JPEG encoder takes an image of this size: each side from 1
/// to 65535 pixels.
pub open spec fn jpeg_size_ok(width: u32, height: u32) -> bool {
    1 <= width <= 65535 && 1 <= height <= 65535
}

/// Calls `JpegEncoder::new_with_quality(..).encode(rgb, width, height, Rgb8)`
/// of the `image` crate, writing into a `Vec`. Trusted: the result is the
/// named encoding; it is some exactly where both sides are between 1 and
/// 65535 pixels (the encoder's only refusal, as writing to a `Vec` does not
/// fail). The encoder panics unless `rgb` holds three bytes per pixel, which
/// the `requires` rules out.
#[verifier::external_body]
fn encode_jpeg(width: u32, height: u32, rgb: &[u8], quality: u8) -> (r: Option<Vec<u8>>)
    requires
        rgb@.len() == width * height * 3,
    ensures
        r is Some <==> jpeg_size_ok(width, height),
        r is Some ==> jpeg_encoding(width, height, rgb@, quality) == Some(r.unwrap()@),
{
    let mut out: Vec<u8> = Vec::new();
    let result = image::codecs::jpeg::JpegEncoder::new_with_quality(&mut out, quality)
        .encode(rgb, width, height, image::ExtendedColorType::Rgb8);
    match result {
        Ok(()) => Some(out),
        Err(_) => None,
    }
}

/// Whether `rgb` holds three bytes for each of the image's pixels.
pub open spec fn holds_rgb_pixels(width: u32, height: u32, rgb: Seq<u8>) -> bool {
    rgb.len() == width * height * 3
}

/// Which frames are encoded: a frame is encoded exactly when its buffer
/// holds three bytes for each of its `width` by `height` pixels and both
/// sides are from 1 to 65535 pixels; the encoding refuses no other frame.
pub proof fn lemma_every_frame_is_encodable(width: u32, height: u32, rgb: Seq<u8>)
    ensures
        holds_rgb_pixels(width, height, rgb) && jpeg_size_ok(width, height)
            <==> (rgb.len() == width * height * 3 && 1 <= width && width <= 65535 && 1 <= height
            && height <= 65535),
{
}

/// The JPEG of a decoded RGB frame at `quality`, for the stream: none where
/// the buffer does not hold the frame's pixels or the encoder refuses the
/// frame's size.
pub fn encode_frame(width: u32, height: u32, rgb: &[u8], quality: u8) -> (r: Option<Vec<u8>>)
    ensures
        r is Some <==> holds_rgb_pixels(width, height, rgb@) && jpeg_size_ok(width, height),
        r is Some ==> jpeg_encoding(width, height, rgb@, quality) == Some(r.unwrap()@),
{
    let w = width as u128;
    let h = height as u128;
    assert(w * h <= 0xffff_ffff_0000_0001) by (nonlinear_arith)
        requires
            w <= 0xffff_ffff,
            h <= 0xffff_ffff,
    ;
    let expected: u128 = w * h * 3;
    if rgb.len() as u128 != expected {
        return None;
    }
    encode_jpeg(width, height, rgb, quality)
}

/// The first step of the loop.
pub fn capture_start() -> (s: CaptureStep)
    ensures
        s == CaptureStep::Capture,
{
    CaptureStep::Capture
}

/// The step after `step`.
pub fn capture_next(step: CaptureStep, succeeded: bool) -> (s: CaptureStep)
    ensures
        s == next_capture_step(step, succeeded),
{
    match step {
        CaptureStep::Capture => if succeeded { CaptureStep::Convert } else { CaptureStep::Pause { millis: 100 } },
        CaptureStep::Convert => if succeeded { CaptureStep::Encode { quality: 80 } } else { CaptureStep::Capture },
        CaptureStep::Encode { .. } => if succeeded { CaptureStep::Publish } else { CaptureStep::Capture },
        CaptureStep::Publish => CaptureStep::Capture,
        CaptureStep::Pause { .. } => CaptureStep::Capture,
    }
}

} // verus!
