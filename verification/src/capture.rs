//! Turning the raw pixels of a screen grab into a stored screenshot.

use vstd::prelude::*;

verus! {

/// A captured screen, encoded as PNG.
pub struct CapturedScreen {
    pub width: u32,
    pub height: u32,
    pub png_bytes: Vec<u8>,
}

/// Errors while turning a screen grab into a screenshot.
#[derive(Debug)]
pub enum CaptureError {
    /// The screen reports a zero width or height.
    InvalidSize { width: i32, height: i32 },
    /// The PNG encoder failed.
    Encoding,
}

/// Accepts the screen size that the system reports, unless it is empty.
pub fn check_screen_size(width: i32, height: i32) -> (r: Result<(u32, u32), CaptureError>)
    requires
        width >= 0,
        height >= 0,
    ensures
        match r {
            Ok((w, h)) => width != 0 && height != 0 && w == width && h == height,
            Err(e) => (width == 0 || height == 0) && e == (CaptureError::InvalidSize { width, height }),
        },
{
    if width == 0 || height == 0 {
        Err(CaptureError::InvalidSize { width, height })
    } else {
        Ok((width as u32, height as u32))
    }
}

/// `rgb` holds the pixels of `bgra` (4 bytes each, blue first) as RGB triples,
/// in the same order; the fourth byte of each pixel is dropped.
pub open spec fn is_rgb_of_bgra(bgra: Seq<u8>, rgb: Seq<u8>) -> bool {
    let n = bgra.len() / 4;
    &&& rgb.len() == 3 * n
    &&& forall|p: int|
        0 <= p < n ==> {
            &&& #[trigger] rgb[3 * p] == bgra[4 * p + 2]
            &&& rgb[3 * p + 1] == bgra[4 * p + 1]
            &&& rgb[3 * p + 2] == bgra[4 * p]
        }
}

/// Reorders 32-bit BGRA pixels into 24-bit RGB.
pub fn bgra_to_rgb(bgra: &Vec<u8>) -> (rgb: Vec<u8>)
    requires
        bgra.len() % 4 == 0,
    ensures
        is_rgb_of_bgra(bgra@, rgb@),
{
    let n = bgra.len() / 4;
    let mut rgb: Vec<u8> = Vec::new();
    let mut p: usize = 0;
    let mut i: usize = 0;
    while p < n
        invariant
            n == bgra.len() / 4,
            bgra.len() % 4 == 0,
            p <= n,
            i == 4 * p,
            rgb.len() == 3 * p,
            forall|q: int|
                0 <= q < p ==> {
                    &&& #[trigger] rgb@[3 * q] == bgra@[4 * q + 2]
                    &&& rgb@[3 * q + 1] == bgra@[4 * q + 1]
                    &&& rgb@[3 * q + 2] == bgra@[4 * q]
                },
        decreases n - p,
    {
        let b = bgra[i];
        let g = bgra[i + 1];
        let r = bgra[i + 2];
        let ghost before = rgb@;
        rgb.push(r);
        rgb.push(g);
        rgb.push(b);
        assert forall|q: int| 0 <= q < p + 1 implies {
            &&& #[trigger] rgb@[3 * q] == bgra@[4 * q + 2]
            &&& rgb@[3 * q + 1] == bgra@[4 * q + 1]
            &&& rgb@[3 * q + 2] == bgra@[4 * q]
        } by {
            if q < p {
                assert(rgb@[3 * q] == before[3 * q]);
                assert(rgb@[3 * q + 1] == before[3 * q + 1]);
                assert(rgb@[3 * q + 2] == before[3 * q + 2]);
            }
        }
        p = p + 1;
        i = i + 4;
    }
    rgb
}

#[verifier::external_type_specification]
#[verifier::external_body]
pub struct ExImageError(image::ImageError);

/// The PNG file that the `image` crate writes for an 8-bit RGB image of the
/// given size (`PngEncoder` with default settings), fixed by its arguments.
pub uninterp spec fn png_rgb8(width: u32, height: u32, rgb: Seq<u8>) -> Seq<u8>;

/// Encodes RGB pixels as PNG with `image::write_buffer_with_format`.
/// Trusted: the PNG encoder refuses exactly the images with a zero width or
/// height (writing into a `Vec` cannot fail), and on success the bytes are
/// `png_rgb8(width, height, rgb)`. The encoder asserts that the buffer holds
/// exactly `width * height * 3` bytes, hence the requirement.
#[verifier::external_body]
fn encode_png_rgb8(width: u32, height: u32, rgb: &[u8]) -> (r: Result<Vec<u8>, image::ImageError>)
    requires
        rgb.len() == width * height * 3,
    ensures
        r is Ok <==> (width > 0 && height > 0),
        r matches Ok(png) ==> png@ == png_rgb8(width, height, rgb@),
{
    let mut out: Vec<u8> = Vec::new();
    image::write_buffer_with_format(
        &mut std::io::Cursor::new(&mut out),
        rgb,
        width,
        height,
        image::ExtendedColorType::Rgb8,
        image::ImageFormat::Png,
    )?;
    Ok(out)
}

/// Builds the screenshot of a `width` x `height` screen from its BGRA pixels
/// (row by row, top row first): the pixels as RGB, encoded as PNG. It
/// succeeds for every non-empty screen.
pub fn screen_from_bgra(width: u32, height: u32, bgra: &Vec<u8>) -> (r: Result<
    CapturedScreen,
    CaptureError,
>)
    requires
        bgra.len() == width * height * 4,
    ensures
        match r {
            Ok(s) => s.width == width && s.height == height && exists|rgb: Seq<u8>|
                is_rgb_of_bgra(bgra@, rgb) && s.png_bytes@ == #[trigger] png_rgb8(width, height, rgb),
            Err(e) => e == CaptureError::Encoding,
        },
        r is Ok <==> (width > 0 && height > 0),
{
    let rgb = bgra_to_rgb(bgra);
    assert(rgb.len() == width * height * 3);
    match encode_png_rgb8(width, height, rgb.as_slice()) {
        Ok(png) => {
            let s = CapturedScreen { width, height, png_bytes: png };
            assert(is_rgb_of_bgra(bgra@, rgb@) && s.png_bytes@ == png_rgb8(width, height, rgb@));
            Ok(s)
        },
        Err(_) => Err(CaptureError::Encoding),
    }
}

} // verus!
