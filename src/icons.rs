//! Icon images: a 32-bit BGRA bitmap as the PNG, in base64, that catalog
//! entries carry.
use vstd::prelude::*;
use crate::sources::{base64_encode, base64_of};

verus! {

/// The PNG file `image`'s `PngEncoder` writes for an 8-bit RGBA bitmap, or
/// `None` when it refuses the image.
pub uninterp spec fn png_of(rgba: Seq<u8>, width: u32, height: u32) -> Option<Seq<u8>>;

/// Relies on `image::codecs::png::PngEncoder` and `ImageEncoder::write_image`
/// with `ColorType::Rgba8`, which panics unless the buffer holds exactly four
/// bytes per pixel.
#[verifier::external_body]
fn png_encode(rgba: &[u8], width: u32, height: u32) -> (r: Option<Vec<u8>>)
    requires
        rgba@.len() == width as int * height as int * 4,
    ensures
        match r {
            Some(v) => png_of(rgba@, width, height) == Some(v@),
            None => png_of(rgba@, width, height) is None,
        },
{
    let mut png = Vec::new();
    let encoder = image::codecs::png::PngEncoder::new(&mut png);
    image::ImageEncoder::write_image(encoder, rgba, width, height, image::ColorType::Rgba8)
        .ok()
        .map(|_| png)
}

/// The bitmap with the first and third byte of each pixel swapped (BGRA to
/// RGBA and back).
pub open spec fn swap_red_blue(b: Seq<u8>) -> Seq<u8> {
    Seq::new(
        b.len(),
        |i: int|
            if i % 4 == 0 && i + 2 < b.len() {
                b[i + 2]
            } else if i % 4 == 2 {
                b[i - 2]
            } else {
                b[i]
            },
    )
}

/// The icon image in base64 PNG for a top-down 32-bit BGRA bitmap of
/// `width` by `height` pixels, or `None` when the encoder refuses it.
pub fn encode_icon_pixels(bgra: &[u8], width: u32, height: u32) -> (r: Option<String>)
    requires
        bgra@.len() == width as int * height as int * 4,
    ensures
        match r {
            Some(s) => png_of(swap_red_blue(bgra@), width, height) is Some && s@ == base64_of(
                png_of(swap_red_blue(bgra@), width, height).unwrap(),
            ),
            None => png_of(swap_red_blue(bgra@), width, height) is None,
        },
{
    let n = bgra.len();
    let mut rgba: Vec<u8> = Vec::new();
    let mut i: usize = 0;
    assert(n % 4 == 0) by (nonlinear_arith)
        requires
            n == width as int * height as int * 4,
    ;
    while i < n
        invariant
            n == bgra@.len(),
            n % 4 == 0,
            i <= n,
            i % 4 == 0,
            rgba@ =~= swap_red_blue(bgra@).take(i as int),
        decreases n - i,
    {
        rgba.push(bgra[i + 2]);
        rgba.push(bgra[i + 1]);
        rgba.push(bgra[i]);
        rgba.push(bgra[i + 3]);
        i = i + 4;
    }
    assert(rgba@ =~= swap_red_blue(bgra@));
    match png_encode(rgba.as_slice(), width, height) {
        Some(png) => Some(base64_encode(png.as_slice())),
        None => None,
    }
}

} // verus!
