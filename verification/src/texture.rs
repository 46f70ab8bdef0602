//! Texture uploads — decoding image files to RGBA8 pixels, and the checks
//! made before pixels go to the GPU.

use vstd::prelude::*;
use crate::error::{decimal, decimal_string, RenderError, Result};

verus! {

/// What the `image` crate decodes from an encoded image file (PNG, JPEG,
/// BMP): its pixels converted to RGBA8, its width and its height, or the
/// message (`Display` text) of the error it returns.
pub uninterp spec fn decoded_rgba(bytes: Seq<u8>) -> std::result::Result<(Seq<u8>, u32, u32), Seq<char>>;

/// Calls `image::load_from_memory` and converts the image to RGBA8 pixels
/// and its dimensions, or hands back its error's message. Trusted: the
/// result is `decoded_rgba` of the bytes (decoding and its error messages
/// depend on the bytes alone), and an RGBA8 image holds exactly four bytes
/// per pixel, as `image`'s `ImageBuffer` keeps its buffer.
#[verifier::external_body]
fn load_rgba8(bytes: &[u8]) -> (r: std::result::Result<(Vec<u8>, u32, u32), String>)
    ensures
        match decoded_rgba(bytes@) {
            Ok(t) => r matches Ok(v) && (v.0@, v.1, v.2) == t,
            Err(text) => r matches Err(m) && m@ == text,
        },
        r matches Ok(v) ==> v.0@.len() == 4 * v.1 * v.2,
{
    match image::load_from_memory(bytes) {
        Ok(img) => {
            let rgba = img.to_rgba8();
            let (width, height) = rgba.dimensions();
            Ok((rgba.into_raw(), width, height))
        },
        Err(e) => Err(e.to_string()),
    }
}

/// Decode PNG/JPEG/BMP bytes into RGBA8 pixels and their width and height;
/// a file that cannot be decoded is a texture error carrying the decoder's
/// message. The pixels are four bytes for each of the `width × height`
/// pixels, so a decoded texture that is not empty passes the upload check.
pub fn decode_texture(bytes: &[u8]) -> (r: Result<(Vec<u8>, u32, u32)>)
    ensures
        match decoded_rgba(bytes@) {
            Ok(t) => (r matches Ok(v) && (v.0@, v.1, v.2) == t),
            Err(text) => (r matches Err(RenderError::Texture(m)) && m@ == text),
        },
        r matches Ok(v) ==> v.0@.len() == 4 * v.1 * v.2,
        r matches Ok(v) ==> (v.1 != 0 && v.2 != 0 <==> upload_accepts(v.0@.len(), v.1, v.2)),
{
    match load_rgba8(bytes) {
        Ok(t) => {
            proof {
                assert(4 * t.1 * t.2 == t.1 * t.2 * 4) by (nonlinear_arith);
            }
            Ok(t)
        },
        Err(m) => Err(RenderError::Texture(m)),
    }
}

/// The upload check accepts `len` bytes for a `width × height` texture:
/// neither dimension is zero and the bytes are four per pixel.
pub open spec fn upload_accepts(len: nat, width: u32, height: u32) -> bool {
    width != 0 && height != 0 && len == width * height * 4
}

/// The message of an RGBA8 buffer whose size does not match its dimensions.
pub open spec fn rgba_mismatch_text(width: u32, height: u32, len: nat) -> Seq<char> {
    "RGBA buffer size mismatch: expected "@ + decimal(width as nat) + "x"@ + decimal(height as nat)
        + "x4="@ + decimal((width * height * 4) as nat) + ", got "@ + decimal(len)
}

/// Check raw RGBA8 pixel data before it is uploaded as a `width × height`
/// texture: a zero dimension, a byte count that overflows, or a buffer of
/// another size is refused.
pub fn check_rgba_upload(rgba: &[u8], width: u32, height: u32) -> (r: Result<()>)
    ensures
        width == 0 || height == 0 ==> (r matches Err(RenderError::Texture(m)) && m@
            == "zero-size texture"@),
        width != 0 && height != 0 && width * height * 4 > usize::MAX ==> (r matches Err(
            RenderError::Texture(m),
        ) && m@ == "texture dimensions overflow"@),
        width != 0 && height != 0 && width * height * 4 <= usize::MAX && rgba@.len() != width
            * height * 4 ==> (r matches Err(RenderError::Texture(m)) && m@ == rgba_mismatch_text(
            width,
            height,
            rgba@.len(),
        )),
        r is Ok <==> upload_accepts(rgba@.len(), width, height),
{
    let len = rgba.len();
    if width == 0 || height == 0 {
        return Err(RenderError::Texture(String::from_str("zero-size texture")));
    }
    let expected = match (width as usize).checked_mul(height as usize) {
        Some(v) => match v.checked_mul(4) {
            Some(e) => e,
            None => {
                return Err(RenderError::Texture(String::from_str("texture dimensions overflow")));
            },
        },
        None => {
            proof {
                assert(width * height * 4 > usize::MAX) by (nonlinear_arith)
                    requires
                        width * height > usize::MAX,
                ;
            }
            return Err(RenderError::Texture(String::from_str("texture dimensions overflow")));
        },
    };
    if len != expected {
        let m = String::from_str("RGBA buffer size mismatch: expected ").concat(
            decimal_string(width as u64).as_str(),
        ).concat("x").concat(decimal_string(height as u64).as_str()).concat("x4=").concat(
            decimal_string(expected as u64).as_str(),
        ).concat(", got ").concat(decimal_string(rgba.len() as u64).as_str());
        assert(m@ =~= rgba_mismatch_text(width, height, rgba@.len()));
        return Err(RenderError::Texture(m));
    }
    Ok(())
}

} // verus!
