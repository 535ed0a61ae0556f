use vstd::prelude::*;

use vstd::string::StringExecFns;

verus! {

/// An image as 8-bit RGBA pixels, row by row from the top, four bytes a
/// pixel.
pub struct RgbaImage {
    pub width: u32,
    pub height: u32,
    pub pixels: Vec<u8>,
}

/// What `minipng::decode_png_header` gives for PNG bytes: the width, the
/// height and the buffer size that the header asks for an RGBA conversion
/// (`required_bytes_rgba8bpc`), or the text of its error.
pub uninterp spec fn png_header(bytes: Seq<u8>) -> Result<(u32, u32, usize), Seq<char>>;

/// What `minipng::decode_png` gives for PNG bytes and a buffer of the size
/// their header asks for: `None` when it decodes them, else the text of its
/// error.
pub uninterp spec fn png_decode_error(bytes: Seq<u8>) -> Option<Seq<char>>;

/// What `ImageData::convert_to_rgba8bpc` leaves of the decoded PNG bytes:
/// the width, the height and the RGBA pixels, or the text of its error.
pub uninterp spec fn png_rgba(bytes: Seq<u8>) -> Result<(u32, u32, Seq<u8>), Seq<char>>;

/// `minipng::decode_png_header`: the header's width, height and RGBA buffer
/// size, or the text of its error. The contract names the result; what the
/// parser accepts is left to minipng.
#[verifier::external_body]
fn read_png_header(bytes: &[u8]) -> (r: Result<(u32, u32, usize), String>)
    ensures
        match r {
            Ok(h) => png_header(bytes@) == Ok::<(u32, u32, usize), Seq<char>>(h),
            Err(e) => png_header(bytes@) == Err::<(u32, u32, usize), Seq<char>>(e@),
        },
{
    match minipng::decode_png_header(bytes) {
        Ok(h) => Ok((h.width(), h.height(), h.required_bytes_rgba8bpc())),
        Err(e) => Err(e.to_string()),
    }
}

/// `minipng::decode_png` into a zeroed buffer of `capacity` bytes, then
/// `ImageData::convert_to_rgba8bpc` on the decoded image, which borrows that
/// buffer, so both calls stand here. On failure it says which call failed
/// (`true` for the decoding) and gives the text of its error. The contract
/// names the results; what minipng decodes is left to it.
#[verifier::external_body]
fn decode_and_convert(bytes: &[u8], capacity: usize) -> (r: Result<(u32, u32, Vec<u8>), (bool, String)>)
    requires
        png_header(bytes@) matches Ok(h) && h.2 == capacity,
    ensures
        match r {
            Ok((w, h, px)) => png_decode_error(bytes@) is None && png_rgba(bytes@) == Ok::<
                (u32, u32, Seq<u8>),
                Seq<char>,
            >((w, h, px@)),
            Err((true, e)) => png_decode_error(bytes@) == Some(e@),
            Err((false, e)) => png_decode_error(bytes@) is None && png_rgba(bytes@) == Err::<
                (u32, u32, Seq<u8>),
                Seq<char>,
            >(e@),
        },
{
    let mut buffer = vec![0u8; capacity];
    let mut png = match minipng::decode_png(bytes, &mut buffer) {
        Ok(png) => png,
        Err(e) => return Err((true, e.to_string())),
    };
    match png.convert_to_rgba8bpc() {
        Ok(()) => Ok((png.width(), png.height(), png.pixels().to_vec())),
        Err(e) => Err((false, e.to_string())),
    }
}

/// The text `prefix` followed by `message`.
fn prefixed(prefix: &str, message: String) -> (s: String)
    ensures
        s@ == prefix@ + message@,
{
    String::from_str(prefix).concat(message.as_str())
}

/// The error text for a header that does not decode.
pub fn header_failure(e: String) -> (s: String)
    ensures
        s@ == "failed to decode PNG header: "@ + e@,
{
    prefixed("failed to decode PNG header: ", e)
}

/// The image, or the error text, for what the decoding and conversion gave:
/// the pixels with their size, or the failed stage's text after its prefix.
pub fn rgba_result(decoded: Result<(u32, u32, Vec<u8>), (bool, String)>) -> (r: Result<RgbaImage, String>)
    ensures
        match decoded {
            Ok((w, h, px)) => r matches Ok(i) && i.width == w && i.height == h && i.pixels@ == px@,
            Err((true, e)) => r matches Err(s) && s@ == "failed to decode PNG: "@ + e@,
            Err((false, e)) => r matches Err(s) && s@ == "failed to convert PNG to rgba8bpc: "@ + e@,
        },
{
    match decoded {
        Ok((width, height, pixels)) => Ok(RgbaImage { width, height, pixels }),
        Err((true, e)) => Err(prefixed("failed to decode PNG: ", e)),
        Err((false, e)) => Err(prefixed("failed to convert PNG to rgba8bpc: ", e)),
    }
}

/// Decodes PNG bytes to RGBA pixels: the header is read, the image decoded
/// into a buffer of the size the header asks for and converted to 8-bit
/// RGBA. A failure gives the failed stage's prefix followed by minipng's
/// error text.
pub fn decode_png_rgba(png_bytes: &[u8]) -> (r: Result<RgbaImage, String>)
    ensures
        png_header(png_bytes@) matches Err(e) ==> (r matches Err(s) && s@ == "failed to decode PNG header: "@ + e),
        png_header(png_bytes@) is Ok ==> match png_decode_error(png_bytes@) {
            Some(e) => r matches Err(s) && s@ == "failed to decode PNG: "@ + e,
            None => match png_rgba(png_bytes@) {
                Ok(t) => r matches Ok(i) && t == (i.width, i.height, i.pixels@),
                Err(e) => r matches Err(s) && s@ == "failed to convert PNG to rgba8bpc: "@ + e,
            },
        },
{
    let capacity = match read_png_header(png_bytes) {
        Ok((_, _, capacity)) => capacity,
        Err(e) => {
            return Err(header_failure(e));
        },
    };
    rgba_result(decode_and_convert(png_bytes, capacity))
}

} // verus!
