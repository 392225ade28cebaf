//! Animated GIF textures, decoded frame by frame: which frame is shown for
//! how long, and when an animation ends or fails.
use vstd::prelude::*;
use std::io::Cursor;
use image::codecs::gif::GifDecoder;
use image::AnimationDecoder;
use crate::strings::{chars_of, string_from_chars};
use crate::texture::DecodedImage;

verus! {

// `image::Frames` is carried through opaquely; its `Iterator` item,
// `ImageResult<Frame>`, makes `Frame` and `ImageError` known to Verus too.
#[verifier::external_type_specification]
#[verifier::external_body]
pub struct ExFrames<'a>(image::Frames<'a>);

#[verifier::external_type_specification]
#[verifier::external_body]
pub struct ExFrame(image::Frame);

#[verifier::external_type_specification]
#[verifier::external_body]
pub struct ExImageError(image::ImageError);

/// The text of the error with which the GIF decoder refuses the file `bytes`
/// when it opens it, or nothing when it accepts it.
pub uninterp spec fn gif_open_error(bytes: Seq<u8>) -> Option<Seq<char>>;

/// A GIF file being decoded frame by frame: the decoder, the bytes it reads
/// and how many frames have been asked of it so far.
pub struct GifDecoding<'a> {
    frames: image::Frames<'a>,
    source: Ghost<Seq<u8>>,
    taken: Ghost<nat>,
}

impl<'a> GifDecoding<'a> {
    /// The GIF file being decoded.
    pub closed spec fn source(&self) -> Seq<u8> {
        self.source@
    }

    /// How many times the decoder has been asked for a frame.
    pub closed spec fn taken(&self) -> nat {
        self.taken@
    }
}

/// What the GIF decoder hands out when asked for a frame the `k`-th time
/// (counting from zero) on the file `bytes`: a frame as its width, height,
/// RGBA8 pixels and delay of `numer / denom` milliseconds, the text of an
/// error, or nothing at the end.
pub uninterp spec fn gif_frame_at(bytes: Seq<u8>, k: nat) -> Option<
    Result<(u32, u32, Seq<u8>, u32, u32), Seq<char>>,
>;

/// Opens `bytes` for frame-by-frame GIF decoding.
///
/// Trusted: `GifDecoder::new` over a cursor on the bytes reads the header and
/// either refuses the file, with an error shown here by its `Display` text,
/// or accepts it; which, and the text, depend on the bytes alone and are
/// named `gif_open_error`. `into_frames` then hands out the frame iterator,
/// which has handed out no frame yet.
#[verifier::external_body]
fn gif_frames<'a>(bytes: &'a [u8]) -> (r: Result<GifDecoding<'a>, String>)
    ensures
        match r {
            Ok(d) => gif_open_error(bytes@) is None && d.source() == bytes@ && d.taken() == 0,
            Err(e) => gif_open_error(bytes@) == Some(e@),
        },
{
    match GifDecoder::new(Cursor::new(bytes)) {
        Ok(d) => Ok(GifDecoding { frames: d.into_frames(), source: Ghost(bytes@), taken: Ghost(0) }),
        Err(e) => Err(e.to_string()),
    }
}

/// One decoded frame: its full-canvas image and its delay, `delay_numer_ms /
/// delay_denom_ms` milliseconds.
pub struct GifFrame {
    pub image: DecodedImage,
    pub delay_numer_ms: u32,
    pub delay_denom_ms: u32,
}

/// A decoder outcome as plain values.
pub open spec fn outcome_of(r: Option<Result<GifFrame, String>>) -> Option<
    Result<(u32, u32, Seq<u8>, u32, u32), Seq<char>>,
> {
    match r {
        None => None,
        Some(Ok(f)) => Some(
            Ok((f.image.width, f.image.height, f.image.pixels@, f.delay_numer_ms, f.delay_denom_ms)),
        ),
        Some(Err(e)) => Some(Err(e@)),
    }
}

/// Decodes the next frame.
///
/// Trusted: `Iterator::next` on `image::Frames`, then `Frame::delay` with
/// `Delay::numer_denom_ms`, and `into_buffer` with `dimensions` and
/// `into_raw`; errors come back as their `Display` text. The GIF decoder
/// reads the file in order, so the outcome of the `k`-th request depends on
/// the bytes and `k` alone; it is named `gif_frame_at`. The delay's
/// denominator is never zero: `image` builds every `Delay` from a ratio whose
/// constructor asserts a non-zero denominator.
#[verifier::external_body]
fn next_frame(dec: &mut GifDecoding<'_>) -> (r: Option<Result<GifFrame, String>>)
    ensures
        final(dec).source() == old(dec).source(),
        final(dec).taken() == old(dec).taken() + 1,
        outcome_of(r) == gif_frame_at(old(dec).source(), old(dec).taken()),
        r matches Some(Ok(f)) ==> f.delay_denom_ms > 0,
{
    dec.taken = Ghost(dec.taken@ + 1);
    match dec.frames.next() {
        None => None,
        Some(Err(e)) => Some(Err(e.to_string())),
        Some(Ok(f)) => {
            let (n, d) = f.delay().numer_denom_ms();
            let img = f.into_buffer();
            let (width, height) = img.dimensions();
            let image = DecodedImage { width, height, pixels: img.into_raw() };
            Some(Ok(GifFrame { image, delay_numer_ms: n, delay_denom_ms: d }))
        },
    }
}

/// What the decoder hands out next: a frame, an error, or the end.
pub enum GifEvent {
    Frame(GifFrame),
    FrameError(String),
    End,
}

/// What to do next: show `image` for `delay_nanos` nanoseconds, fail with a
/// message, or finish, the animation being `live` (worth replaying) or not.
pub enum GifAction {
    Show { image: DecodedImage, delay_nanos: u64 },
    Fail(String),
    Finish { live: bool },
}

/// A frame delay of `numer / denom` milliseconds in nanoseconds, rounded
/// down as `Duration::from(Delay)` computes it.
pub open spec fn frame_delay_nanos(numer: u32, denom: u32) -> int {
    let (n, d) = (numer as int, denom as int);
    (n / d) * 1_000_000 + ((n % d) * 1_000_000) / d
}

/// The shortest time a frame is shown: 20 milliseconds.
pub open spec fn min_frame_delay_nanos() -> int {
    20_000_000
}

/// How long a frame with that delay is shown: its delay, raised to the
/// shortest time a frame is shown.
pub open spec fn shown_delay_nanos(numer: u32, denom: u32) -> int {
    let d = frame_delay_nanos(numer, denom);
    if d < min_frame_delay_nanos() {
        min_frame_delay_nanos()
    } else {
        d
    }
}

/// The frame count after one more frame, wrapping round past `u32::MAX`.
pub open spec fn next_count(count: u32) -> u32 {
    if count == u32::MAX {
        0
    } else {
        (count + 1) as u32
    }
}

/// The step from `count` frames decoded so far and `event` to the new count
/// and the action: a frame is shown for at least the shortest delay and
/// counted; an error fails; the end fails when no frame was decoded, and
/// otherwise finishes, live when there was more than one frame.
pub open spec fn gif_step_done(count: u32, event: GifEvent, r: (u32, GifAction)) -> bool {
    match event {
        GifEvent::Frame(f) => r.0 == next_count(count) && r.1 == (GifAction::Show {
            image: f.image,
            delay_nanos: shown_delay_nanos(f.delay_numer_ms, f.delay_denom_ms) as u64,
        }),
        GifEvent::FrameError(e) => r.0 == count && r.1 == GifAction::Fail(e),
        GifEvent::End => r.0 == count && if count == 0 {
            r.1 matches GifAction::Fail(m) && m@ == "no frames decoded"@
        } else {
            r.1 == (GifAction::Finish { live: count > 1 })
        },
    }
}

/// Decides what follows `event`, `count` frames having been decoded before.
pub fn gif_step(count: u32, event: GifEvent) -> (r: (u32, GifAction))
    requires
        event matches GifEvent::Frame(f) ==> f.delay_denom_ms > 0,
    ensures
        gif_step_done(count, event, r),
{
    match event {
        GifEvent::Frame(f) => {
            let n = f.delay_numer_ms as u64;
            let d = f.delay_denom_ms as u64;
            let nanos: u64 = (n / d) * 1_000_000 + ((n % d) * 1_000_000) / d;
            let delay_nanos = if nanos < 20_000_000 {
                20_000_000
            } else {
                nanos
            };
            let c = if count == u32::MAX {
                0
            } else {
                count + 1
            };
            (c, GifAction::Show { image: f.image, delay_nanos })
        },
        GifEvent::FrameError(e) => (count, GifAction::Fail(e)),
        GifEvent::End => {
            if count == 0 {
                let m = string_from_chars(chars_of("no frames decoded").as_slice());
                (count, GifAction::Fail(m))
            } else {
                (count, GifAction::Finish { live: count > 1 })
            }
        },
    }
}

/// The step for the outcome the decoder gave, over plain values: a frame is
/// shown for at least the shortest delay and counted; an error fails with its
/// text; the end fails when no frame was decoded and otherwise finishes, live
/// when there was more than one frame.
pub open spec fn outcome_step(
    count: u32,
    outcome: Option<Result<(u32, u32, Seq<u8>, u32, u32), Seq<char>>>,
    r: (u32, GifAction),
) -> bool {
    match outcome {
        None => {
            &&& r.0 == count
            &&& if count == 0 {
                r.1 matches GifAction::Fail(m) && m@ == "no frames decoded"@
            } else {
                r.1 == (GifAction::Finish { live: count > 1 })
            }
        },
        Some(Err(e)) => {
            &&& r.0 == count
            &&& r.1 matches GifAction::Fail(m) && m@ == e
        },
        Some(Ok((w, h, px, n, d))) => {
            &&& r.0 == next_count(count)
            &&& r.1 matches GifAction::Show { image, delay_nanos } && image.width == w
                && image.height == h && image.pixels@ == px && delay_nanos == shown_delay_nanos(
                n,
                d,
            )
        },
    }
}

/// Opens the GIF file `bytes` for decoding frame by frame, or gives the
/// decoder's error text.
pub fn open_gif<'a>(bytes: &'a [u8]) -> (r: Result<GifDecoding<'a>, String>)
    ensures
        match r {
            Ok(d) => gif_open_error(bytes@) is None && d.source() == bytes@ && d.taken() == 0,
            Err(e) => gif_open_error(bytes@) == Some(e@),
        },
{
    gif_frames(bytes)
}

/// Asks the decoder for its next frame, `count` frames having been counted
/// before, and decides what follows: the step for the outcome the decoder
/// gives at this point of the file.
pub fn next_gif_action(dec: &mut GifDecoding<'_>, count: u32) -> (r: (u32, GifAction))
    ensures
        final(dec).source() == old(dec).source(),
        final(dec).taken() == old(dec).taken() + 1,
        outcome_step(count, gif_frame_at(old(dec).source(), old(dec).taken()), r),
{
    let got = next_frame(dec);
    let ghost outcome = outcome_of(got);
    let event = match got {
        None => GifEvent::End,
        Some(Ok(f)) => GifEvent::Frame(f),
        Some(Err(e)) => GifEvent::FrameError(e),
    };
    let ghost seen = event;
    let r = gif_step(count, event);
    proof {
        assert(gif_step_done(count, seen, r));
        assert(outcome_step(count, outcome, r));
    }
    r
}

} // verus!
