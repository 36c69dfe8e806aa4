//! The boundary to the `image` and `gif` crates: PNG decoding and GIF stream
//! writing. Nothing in this module is proved; each item states what the
//! verified code relies on.

use vstd::prelude::*;
use crate::raster::Raster;

verus! {

/// A GIF stream under construction in memory: the encoder of the `gif` crate
/// over a byte buffer. Verus cannot be told of `gif::Encoder` itself, whose
/// parameter is bound by `std::io::Write`, so the encoder is kept behind this
/// opaque struct.
#[verifier::external_body]
pub struct GifStream {
    enc: gif::Encoder<Vec<u8>>,
}

/// The error of the `gif` crate's encoder.
#[verifier::external_type_specification]
#[verifier::external_body]
pub struct ExGifEncodingError(gif::EncodingError);

/// The error of the `image` crate.
#[verifier::external_type_specification]
#[verifier::external_body]
pub struct ExImageError(image::ImageError);

/// The error of `std::io`.
#[verifier::external_type_specification]
#[verifier::external_body]
pub struct ExIoError(std::io::Error);

/// What `image::load_from_memory_with_format` with the PNG format, followed by
/// the conversion to 8-bit RGBA, makes of a file's bytes: the width, the
/// height and the raw pixel buffer, or `None` where the bytes do not decode.
pub uninterp spec fn png_raster(data: Seq<u8>) -> Option<(u32, u32, Seq<u8>)>;

/// The bytes that the encoder of a stream has written to its buffer so far.
pub uninterp spec fn stream_bytes(stream: GifStream) -> Seq<u8>;

/// The bytes that `Encoder::write_frame` appends for the frame that
/// `Frame::from_rgba_speed` builds from RGBA pixels at the given quantizer
/// speed, with the given display delay. The frame carries its own palette,
/// which is the sorted list of its colours or, beyond 256 colours, the result
/// of a quantizer that draws on no random source.
pub uninterp spec fn frame_block(
    width: u16,
    height: u16,
    rgba: Seq<u8>,
    speed: i32,
    delay: u16,
) -> Seq<u8>;

/// Decodes PNG bytes with `image::load_from_memory_with_format` and converts
/// the image to 8-bit RGBA with `DynamicImage::into_rgba8`. The contract only
/// gives the outcome its name: decoding is a function of the bytes.
#[verifier::external_body]
pub(crate) fn decode_png(data: &[u8]) -> (r: Result<Raster, image::ImageError>)
    ensures
        match r {
            Ok(img) => png_raster(data@) == Some(img@),
            Err(_) => png_raster(data@) is None,
        },
{
    match image::load_from_memory_with_format(data, image::ImageFormat::Png) {
        Ok(img) => {
            let rgba = img.into_rgba8();
            Ok(Raster { width: rgba.width(), height: rgba.height(), pixels: rgba.into_raw() })
        },
        Err(e) => Err(e),
    }
}

/// The first bytes of every stream: the signature `GIF89a`, the logical
/// screen descriptor with the two dimensions in little-endian order and a
/// packed field that announces a global colour table of two entries, and
/// those two entries, all zero.
pub open spec fn stream_header(width: u16, height: u16) -> Seq<u8> {
    seq![
        0x47u8, 0x49u8, 0x46u8, 0x38u8, 0x39u8, 0x61u8,
        (width as int % 256) as u8, (width as int / 256) as u8,
        (height as int % 256) as u8, (height as int / 256) as u8,
        0x80u8, 0u8, 0u8,
        0u8, 0u8, 0u8, 0u8, 0u8, 0u8,
    ]
}

/// The application extension `NETSCAPE2.0` with a repetition count of zero,
/// which players read as "repeat forever".
pub open spec fn loop_block() -> Seq<u8> {
    seq![
        0x21u8, 0xFFu8, 0x0Bu8,
        0x4Eu8, 0x45u8, 0x54u8, 0x53u8, 0x43u8, 0x41u8, 0x50u8, 0x45u8, 0x32u8, 0x2Eu8, 0x30u8,
        0x03u8, 0x01u8, 0x00u8, 0x00u8,
        0x00u8,
    ]
}

/// The byte that ends a stream.
pub open spec fn stream_trailer() -> Seq<u8> {
    seq![0x3Bu8]
}

/// Starts a stream in memory with `gif::Encoder::new`, without a global
/// palette. When the encoder is returned it has written the header and
/// nothing else.
#[verifier::external_body]
pub(crate) fn open_stream(width: u16, height: u16) -> (r: Result<GifStream, gif::EncodingError>)
    ensures
        r matches Ok(stream) ==> stream_bytes(stream) == stream_header(width, height),
{
    match gif::Encoder::new(Vec::new(), width, height, &[]) {
        Ok(enc) => Ok(GifStream { enc }),
        Err(e) => Err(e),
    }
}

/// Calls `gif::Encoder::set_repeat` with `Repeat::Infinite`. On success the
/// encoder has appended the loop block.
#[verifier::external_body]
pub(crate) fn repeat_forever(stream: &mut GifStream) -> (r: Result<(), gif::EncodingError>)
    ensures
        r is Ok ==> stream_bytes(*final(stream)) == stream_bytes(*old(stream)) + loop_block(),
{
    stream.enc.set_repeat(gif::Repeat::Infinite)
}

/// Builds a frame from RGBA pixels with `gif::Frame::from_rgba_speed`, sets
/// its delay (in hundredths of a second) and hands it to
/// `gif::Encoder::write_frame`. The pixel buffer must hold exactly
/// `width * height * 4` bytes and the speed must lie in 1..=30, or the frame
/// constructor panics. On success the encoder has appended the frame's block,
/// which depends on the arguments alone.
#[verifier::external_body]
pub(crate) fn write_rgba_frame(
    stream: &mut GifStream,
    width: u16,
    height: u16,
    pixels: Vec<u8>,
    speed: i32,
    delay: u16,
) -> (r: Result<(), gif::EncodingError>)
    requires
        pixels@.len() == width as int * height as int * 4,
        1 <= speed <= 30,
    ensures
        r is Ok ==> stream_bytes(*final(stream)) == stream_bytes(*old(stream)) + frame_block(
            width,
            height,
            pixels@,
            speed,
            delay,
        ),
{
    let mut pixels = pixels;
    let mut frame = gif::Frame::from_rgba_speed(width, height, &mut pixels, speed);
    frame.delay = delay;
    stream.enc.write_frame(&frame)
}

/// Ends the stream with `gif::Encoder::into_inner`, which appends the trailer
/// and gives back the buffer.
#[verifier::external_body]
pub(crate) fn close_stream(stream: GifStream) -> (r: Result<Vec<u8>, std::io::Error>)
    ensures
        r matches Ok(bytes) ==> bytes@ == stream_bytes(stream) + stream_trailer(),
{
    stream.enc.into_inner()
}

} // verus!
