//! Screenshot encoding — raw RGBA8 pixels from a render target to PNG, JPEG
//! or BMP bytes.

use vstd::prelude::*;
use crate::error::{decimal, decimal_string, RenderError, Result};

verus! {

/// Supported output formats for screenshot encoding.
#[non_exhaustive]
#[derive(Debug, Clone, Copy, PartialEq, Eq, Structural)]
pub enum ScreenshotFormat {
    Png,
    Jpeg,
    Bmp,
}

impl Default for ScreenshotFormat {
    fn default() -> (f: Self)
        ensures
            f == ScreenshotFormat::Png,
    {
        ScreenshotFormat::Png
    }
}

/// File extension of a format.
pub open spec fn extension_of(format: ScreenshotFormat) -> Seq<char> {
    match format {
        ScreenshotFormat::Png => "png"@,
        ScreenshotFormat::Jpeg => "jpg"@,
        ScreenshotFormat::Bmp => "bmp"@,
    }
}

impl ScreenshotFormat {
    /// File extension for this format.
    pub fn extension(self) -> (s: &'static str)
        ensures
            s@ == extension_of(self),
    {
        match self {
            ScreenshotFormat::Png => "png",
            ScreenshotFormat::Jpeg => "jpg",
            ScreenshotFormat::Bmp => "bmp",
        }
    }
}

/// Layout of the pixels handed to an encoder.
#[derive(Debug, Clone, Copy, PartialEq, Eq, Structural)]
pub enum PixelLayout {
    /// Three bytes per pixel: red, green, blue.
    Rgb8,
    /// Four bytes per pixel: red, green, blue, alpha.
    Rgba8,
}

/// What the `image` crate's `write_buffer_with_format` gives for `pixels`
/// of the given size and layout in the given format: the bytes it writes, or
/// the message (`Display` text) of the error it returns.
pub uninterp spec fn encoded_image(
    pixels: Seq<u8>,
    width: u32,
    height: u32,
    layout: PixelLayout,
    format: ScreenshotFormat,
) -> std::result::Result<Seq<u8>, Seq<char>>;

/// Calls `image::write_buffer_with_format` on an in-memory buffer and hands
/// back what it wrote, or its error's message. Trusted: the result is
/// `encoded_image` of the arguments (the encoders and their error messages
/// depend on the arguments alone, and writing to memory does not fail), and
/// the `requires` rules out the buffer size on which the encoder panics.
#[verifier::external_body]
fn write_image(
    pixels: &[u8],
    width: u32,
    height: u32,
    layout: PixelLayout,
    format: ScreenshotFormat,
) -> (r: std::result::Result<Vec<u8>, String>)
    requires
        pixels@.len() == width * height * (if layout == PixelLayout::Rgb8 { 3int } else { 4int }),
    ensures
        match encoded_image(pixels@, width, height, layout, format) {
            Ok(bytes) => r matches Ok(v) && v@ == bytes,
            Err(text) => r matches Err(m) && m@ == text,
        },
{
    let color = match layout {
        PixelLayout::Rgb8 => image::ExtendedColorType::Rgb8,
        PixelLayout::Rgba8 => image::ExtendedColorType::Rgba8,
    };
    let fmt = match format {
        ScreenshotFormat::Png => image::ImageFormat::Png,
        ScreenshotFormat::Jpeg => image::ImageFormat::Jpeg,
        ScreenshotFormat::Bmp => image::ImageFormat::Bmp,
    };
    let mut out = std::io::Cursor::new(Vec::new());
    match image::write_buffer_with_format(&mut out, pixels, width, height, color, fmt) {
        Ok(()) => Ok(out.into_inner()),
        Err(e) => Err(e.to_string()),
    }
}

/// The RGB bytes of RGBA pixels: every fourth (alpha) byte dropped; a
/// trailing partial pixel is dropped too.
pub open spec fn rgb_of(rgba: Seq<u8>) -> Seq<u8> {
    Seq::new((rgba.len() / 4) * 3, |k: int| rgba[(k / 3) * 4 + k % 3])
}

/// Drop the alpha channel of RGBA8 pixels.
pub fn strip_alpha(rgba: &[u8]) -> (rgb: Vec<u8>)
    ensures
        rgb@ == rgb_of(rgba@),
        rgb@.len() == (rgba@.len() / 4) * 3,
        forall|p: int, c: int|
            0 <= p < rgba@.len() / 4 && 0 <= c < 3 ==> #[trigger] rgb@[3 * p + c] == rgba@[4 * p + c],
{
    let len = rgba.len();
    let pixels = len / 4;
    let mut rgb: Vec<u8> = Vec::with_capacity(pixels * 3);
    let mut p: usize = 0;
    while p < pixels
        invariant
            pixels == rgba@.len() / 4,
            rgba@.len() <= usize::MAX,
            p <= pixels,
            rgb@.len() == 3 * p,
            forall|k: int| 0 <= k < 3 * p ==> #[trigger] rgb@[k] == rgba@[(k / 3) * 4 + k % 3],
        decreases pixels - p,
    {
        let ghost before = rgb@;
        proof {
            vstd::arithmetic::div_mod::lemma_fundamental_div_mod(rgba@.len() as int, 4);
            assert(4 * (pixels as int) <= rgba@.len());
            assert(4 * p + 3 < rgba@.len());
        }
        rgb.push(rgba[4 * p]);
        rgb.push(rgba[4 * p + 1]);
        rgb.push(rgba[4 * p + 2]);
        proof {
            assert forall|k: int| 0 <= k < 3 * (p + 1) implies #[trigger] rgb@[k] == rgba@[(k / 3)
                * 4 + k % 3] by {
                if k < 3 * p {
                    assert(rgb@[k] == before[k]);
                } else {
                    vstd::arithmetic::div_mod::lemma_fundamental_div_mod_converse(
                        k,
                        3,
                        p as int,
                        k - 3 * p,
                    );
                }
            }
        }
        p = p + 1;
    }
    assert(rgb@ =~= rgb_of(rgba@));
    proof {
        law_rgb_drops_alpha(rgba@);
    }
    rgb
}

/// The message of a pixel buffer whose size does not match its dimensions.
pub open spec fn size_mismatch_text(width: u32, height: u32, len: nat) -> Seq<char> {
    "pixel buffer size mismatch: expected "@ + decimal(width as nat) + "x"@ + decimal(height as nat)
        + "x4="@ + decimal((width * height * 4) as nat) + ", got "@ + decimal(len)
}

/// What a format is encoded from: JPEG has no alpha, so it gets the RGB bytes.
pub open spec fn encoder_input(rgba: Seq<u8>, format: ScreenshotFormat) -> (Seq<u8>, PixelLayout) {
    if format == ScreenshotFormat::Jpeg {
        (rgb_of(rgba), PixelLayout::Rgb8)
    } else {
        (rgba, PixelLayout::Rgba8)
    }
}

/// Law: the RGB bytes of RGBA pixels are the pixels' red, green and blue
/// bytes in order, alpha dropped: byte `3p + c` is byte `4p + c` of the
/// RGBA input, for every whole pixel `p` and channel `c < 3`.
pub proof fn law_rgb_drops_alpha(rgba: Seq<u8>)
    ensures
        rgb_of(rgba).len() == (rgba.len() / 4) * 3,
        forall|p: int, c: int|
            0 <= p < rgba.len() / 4 && 0 <= c < 3 ==> #[trigger] rgb_of(rgba)[3 * p + c] == rgba[4
                * p + c],
{
    assert forall|p: int, c: int| 0 <= p < rgba.len() / 4 && 0 <= c < 3 implies #[trigger] rgb_of(
        rgba,
    )[3 * p + c] == rgba[4 * p + c] by {
        vstd::arithmetic::div_mod::lemma_fundamental_div_mod_converse(3 * p + c, 3, p, c);
        assert(3 * p + c < (rgba.len() / 4) * 3);
    }
}

/// Law: JPEG (which has no alpha) is encoded from the RGB bytes of the
/// pixels, laid out as RGB: byte `3p + c` of its input is byte `4p + c` of
/// the RGBA pixels. PNG and BMP are encoded from the RGBA bytes unchanged.
pub proof fn law_encoder_input(rgba: Seq<u8>, format: ScreenshotFormat)
    ensures
        format == ScreenshotFormat::Jpeg ==> {
            let input = encoder_input(rgba, format);
            &&& input.1 == PixelLayout::Rgb8
            &&& input.0.len() == (rgba.len() / 4) * 3
            &&& forall|p: int, c: int|
                0 <= p < rgba.len() / 4 && 0 <= c < 3 ==> #[trigger] input.0[3 * p + c] == rgba[4
                    * p + c]
        },
        format != ScreenshotFormat::Jpeg ==> encoder_input(rgba, format) == (
            rgba,
            PixelLayout::Rgba8,
        ),
{
    law_rgb_drops_alpha(rgba);
}

/// Encode raw RGBA8 pixels into an image format.
///
/// A buffer that is not `width × height × 4` bytes is refused; JPEG drops
/// the alpha channel.
pub fn encode_pixels(width: u32, height: u32, rgba: &[u8], format: ScreenshotFormat) -> (r: Result<
    Vec<u8>,
>)
    requires
        width * height * 4 <= usize::MAX,
    ensures
        rgba@.len() != width * height * 4 ==> (r matches Err(RenderError::Screenshot(m)) && m@
            == size_mismatch_text(width, height, rgba@.len())),
        rgba@.len() == width * height * 4 ==> match encoded_image(
            encoder_input(rgba@, format).0,
            width,
            height,
            encoder_input(rgba@, format).1,
            format,
        ) {
            Ok(bytes) => (r matches Ok(v) && v@ == bytes),
            Err(text) => (r matches Err(RenderError::Screenshot(m)) && m@ == "encode failed: "@
                + text),
        },
{
    let expected = width as usize * height as usize * 4;
    if rgba.len() != expected {
        let m = String::from_str("pixel buffer size mismatch: expected ").concat(
            decimal_string(width as u64).as_str(),
        ).concat("x").concat(decimal_string(height as u64).as_str()).concat("x4=").concat(
            decimal_string(expected as u64).as_str(),
        ).concat(", got ").concat(decimal_string(rgba.len() as u64).as_str());
        assert(m@ =~= size_mismatch_text(width, height, rgba@.len()));
        return Err(RenderError::Screenshot(m));
    }
    let written = match format {
        ScreenshotFormat::Jpeg => {
            let rgb = strip_alpha(rgba);
            proof {
                vstd::arithmetic::div_mod::lemma_fundamental_div_mod_converse(
                    rgba@.len() as int,
                    4,
                    width * height,
                    0,
                );
            }
            write_image(rgb.as_slice(), width, height, PixelLayout::Rgb8, format)
        },
        _ => write_image(rgba, width, height, PixelLayout::Rgba8, format),
    };
    match written {
        Ok(bytes) => Ok(bytes),
        Err(e) => {
            let m = String::from_str("encode failed: ").concat(e.as_str());
            Err(RenderError::Screenshot(m))
        },
    }
}

} // verus!
