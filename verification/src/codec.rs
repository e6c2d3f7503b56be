//! Image files as bytes: decoding a source file into pixels, and encoding
//! pixels for a target file. The formats themselves are the `image` crate's
//! work; what is decided here is which samples an encoder is handed.

use vstd::prelude::*;
use crate::names::{extension, extension_of, supported_extension};
use crate::pixels::{PixelBuffer, PixelGrid};
use crate::text::{chars_of, lowered, matches_lowered};

verus! {

/// The samples that an encoder is handed for each pixel.
#[derive(PartialEq, Eq, Structural, Debug, Clone, Copy)]
pub enum SampleLayout {
    /// Red, green, blue: for formats without transparency.
    Rgb,
    /// Red, green, blue, alpha.
    Rgba,
}

/// Why an image could not be encoded.
#[derive(PartialEq, Eq, Structural, Debug, Clone, Copy)]
pub enum EncodeError {
    /// The target's extension is none of the supported formats.
    UnsupportedExtension,
    /// The encoder refused the image.
    Rejected,
}

/// The pixels that the bytes of an image file decode to, read as the format
/// that the extension names; `None` where they do not decode.
pub uninterp spec fn decoded_grid(contents: Seq<u8>, extension: Seq<char>) -> Option<PixelGrid>;

/// The bytes of the image file that an encoder of the format named by the
/// extension makes of the samples; `None` where it refuses them.
pub uninterp spec fn encoded_bytes(
    samples: Seq<u8>,
    width: u32,
    height: u32,
    alpha: bool,
    extension: Seq<char>,
) -> Option<Seq<u8>>;

/// The layout in which a target of this extension is encoded: JPEG files
/// hold no transparency and get three samples per pixel, the other supported
/// formats get all four. Unsupported extensions have none.
pub open spec fn layout_for(ext: Seq<char>) -> Option<SampleLayout> {
    if lowered(ext) == seq!['j', 'p', 'g'] || lowered(ext) == seq!['j', 'p', 'e', 'g'] {
        Some(SampleLayout::Rgb)
    } else if supported_extension(ext) {
        Some(SampleLayout::Rgba)
    } else {
        None
    }
}

/// The samples of a grid without every fourth one, the alpha channel.
pub open spec fn without_alpha(samples: Seq<u8>) -> Seq<u8> {
    Seq::new((samples.len() / 4 * 3) as nat, |i: int| samples[i / 3 * 4 + i % 3])
}

/// The pixels that a source file decodes to: its bytes read as the format of
/// its path's extension. A path without an extension decodes to nothing.
pub open spec fn decoded_image(path: Seq<char>, contents: Seq<u8>) -> Option<PixelGrid> {
    match extension(path) {
        Some(ext) => decoded_grid(contents, ext),
        None => None,
    }
}

/// What encoding a grid for a target of the given extension gives.
pub open spec fn encoded_image(grid: PixelGrid, ext: Seq<char>) -> Result<Seq<u8>, EncodeError> {
    match layout_for(ext) {
        None => Err(EncodeError::UnsupportedExtension),
        Some(layout) => {
            let encoded = if layout == SampleLayout::Rgb {
                encoded_bytes(
                    without_alpha(grid.samples),
                    grid.width as u32,
                    grid.height as u32,
                    false,
                    ext,
                )
            } else {
                encoded_bytes(grid.samples, grid.width as u32, grid.height as u32, true, ext)
            };
            match encoded {
                Some(bytes) => Ok(bytes),
                None => Err(EncodeError::Rejected),
            }
        },
    }
}

/// Decodes an image file held in memory with
/// `image::load_from_memory_with_format`, in the format that
/// `image::ImageFormat::from_extension` gives for the extension, and converts
/// the picture to RGBA samples of eight bits with `DynamicImage::to_rgba8`.
/// The contract names the result: the same bytes and extension always decode
/// to the same pixels or fail alike. A picture whose samples do not fill its
/// grid exactly counts as one that does not decode.
#[verifier::external_body]
fn decode(contents: &[u8], extension: &str) -> (buffer: Option<PixelBuffer>)
    ensures
        buffer matches Some(b) ==> decoded_grid(contents@, extension@) == Some(b@)
            && b@.well_formed(),
        buffer is None ==> decoded_grid(contents@, extension@) is None,
{
    let format = image::ImageFormat::from_extension(extension)?;
    let rgba = image::load_from_memory_with_format(contents, format).ok()?.to_rgba8();
    PixelBuffer::from_raw(rgba.width(), rgba.height(), rgba.into_raw())
}

/// Encodes samples with `image::write_buffer_with_format` into memory, in the
/// format that `image::ImageFormat::from_extension` gives for the extension,
/// as RGBA where `alpha` is set and as RGB where it is not. The encoders
/// panic on a buffer of the wrong length, which `requires` leaves out. The
/// contract names the result: encoding is a function of its arguments.
#[verifier::external_body]
fn encode(samples: &[u8], width: u32, height: u32, alpha: bool, extension: &str) -> (bytes:
    Option<Vec<u8>>)
    requires
        alpha ==> samples@.len() == 4 * width * height,
        !alpha ==> samples@.len() == 3 * width * height,
    ensures
        bytes matches Some(b) ==> encoded_bytes(samples@, width, height, alpha, extension@)
            == Some(b@),
        bytes is None ==> encoded_bytes(samples@, width, height, alpha, extension@) is None,
{
    let format = image::ImageFormat::from_extension(extension)?;
    let color = if alpha {
        image::ExtendedColorType::Rgba8
    } else {
        image::ExtendedColorType::Rgb8
    };
    let mut out = std::io::Cursor::new(Vec::new());
    image::write_buffer_with_format(&mut out, samples, width, height, color, format).ok()?;
    Some(out.into_inner())
}

/// The layout in which a target whose extension starts at `start` is encoded.
pub(crate) fn layout_of(chars: &Vec<char>, start: usize) -> (layout: Option<SampleLayout>)
    requires
        start <= chars.len(),
    ensures
        layout == layout_for(chars@.skip(start as int)),
{
    let jpg = vec!['j', 'p', 'g'];
    let jpeg = vec!['j', 'p', 'e', 'g'];
    proof {
        assert(lowered(jpg@) =~= jpg@);
        assert(lowered(jpeg@) =~= jpeg@);
        assert(jpg@ =~= seq!['j', 'p', 'g']);
        assert(jpeg@ =~= seq!['j', 'p', 'e', 'g']);
    }
    if matches_lowered(chars, start, &jpg) || matches_lowered(chars, start, &jpeg) {
        Some(SampleLayout::Rgb)
    } else if crate::names::supported_chars(chars, start) {
        Some(SampleLayout::Rgba)
    } else {
        None
    }
}

/// The layout in which a target of the given extension is encoded; `None`
/// for an extension that is none of the supported formats.
pub fn sample_layout(extension_str: &str) -> (layout: Option<SampleLayout>)
    ensures
        layout == layout_for(extension_str@),
{
    let chars = chars_of(extension_str);
    assert(chars@.skip(0) =~= extension_str@);
    layout_of(&chars, 0)
}

/// The samples of a buffer without the alpha channel: three per pixel.
pub fn drop_alpha(buffer: &PixelBuffer) -> (samples: Vec<u8>)
    ensures
        samples@ == without_alpha(buffer@.samples),
        samples@.len() == 3 * buffer@.width * buffer@.height,
{
    let data = buffer.samples();
    let length = data.len();
    assert(4 * buffer@.width * buffer@.height == 4 * (buffer@.width * buffer@.height))
        by (nonlinear_arith);
    assert(3 * buffer@.width * buffer@.height == 3 * (buffer@.width * buffer@.height))
        by (nonlinear_arith);
    let pixels: usize = length / 4;
    let mut samples: Vec<u8> = Vec::with_capacity(pixels * 3);
    let mut p: usize = 0;
    while p < pixels
        invariant
            data@ == buffer@.samples,
            length == data@.len(),
            pixels == length / 4,
            length == 4 * pixels,
            p <= pixels,
            samples@.len() == 3 * p,
            forall|i: int| 0 <= i < samples@.len() ==> samples@[i] == data@[i / 3 * 4 + i % 3],
        decreases pixels - p,
    {
        samples.push(data[4 * p]);
        samples.push(data[4 * p + 1]);
        samples.push(data[4 * p + 2]);
        p = p + 1;
    }
    assert(samples@ =~= without_alpha(buffer@.samples));
    samples
}

/// Decodes the bytes of a source file into pixels. The format is the one
/// that the extension of `file_name` names; `None` where the path has no
/// extension, the format is not known or the bytes do not decode.
pub fn read_image_to_buffer(file_name: &str, contents: &[u8]) -> (buffer: Option<PixelBuffer>)
    ensures
        buffer matches Some(b) ==> decoded_image(file_name@, contents@) == Some(b@)
            && b@.well_formed(),
        buffer is None ==> decoded_image(file_name@, contents@) is None,
{
    let ext = match extension_of(file_name) {
        Some(ext) => ext,
        None => {
            return None;
        },
    };
    decode(contents, ext)
}

/// Encodes pixels for a target file of the given extension: as RGB for
/// `jpg` and `jpeg`, as RGBA for `png`, `gif` and `webp`. Any other extension
/// is refused before an encoder is asked.
pub fn encode_image(buffer: &PixelBuffer, extension_str: &str) -> (bytes: Result<
    Vec<u8>,
    EncodeError,
>)
    ensures
        bytes matches Ok(b) ==> encoded_image(buffer@, extension_str@) == Ok::<
            Seq<u8>,
            EncodeError,
        >(b@),
        bytes matches Err(e) ==> encoded_image(buffer@, extension_str@) == Err::<
            Seq<u8>,
            EncodeError,
        >(e),
{
    let width = buffer.width();
    let height = buffer.height();
    let encoded = match sample_layout(extension_str) {
        None => {
            return Err(EncodeError::UnsupportedExtension);
        },
        Some(SampleLayout::Rgb) => {
            let samples = drop_alpha(buffer);
            encode(samples.as_slice(), width, height, false, extension_str)
        },
        Some(SampleLayout::Rgba) => {
            let samples = buffer.samples();
            encode(samples.as_slice(), width, height, true, extension_str)
        },
    };
    match encoded {
        Some(bytes) => Ok(bytes),
        None => Err(EncodeError::Rejected),
    }
}

} // verus!
