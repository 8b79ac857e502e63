//! Decoding the cabinet's wood photo into pixels for a texture.
//!
//! The `image` crate decodes the picture; the library checks that the decoded
//! bytes hold exactly four bytes (RGBA) for every pixel before they are handed
//! on as a texture of the stated size.

use vstd::prelude::*;

verus! {

/// Calls `image::load_from_memory` on `bytes` and, when it decodes, converts
/// the picture with `DynamicImage::to_rgba8`, returning the width, height and
/// raw RGBA bytes (`ImageBuffer::dimensions`, `ImageBuffer::into_raw`).
/// Nothing is claimed of the outcome: which formats are recognised depends on
/// a process-wide table of format hooks in the `image` crate.
#[verifier::external_body]
fn decode_rgba8(bytes: &[u8]) -> (decoded: Option<(u32, u32, Vec<u8>)>) {
    let img = image::load_from_memory(bytes).ok()?.to_rgba8();
    let (width, height) = img.dimensions();
    Some((width, height, img.into_raw()))
}

/// A picture ready to become a texture: `[width, height]` in pixels and its
/// RGBA bytes, row by row.
pub struct RgbaPicture {
    pub size: [usize; 2],
    pub pixels: Vec<u8>,
}

/// The picture that a decoded width, height and RGBA bytes make: present when
/// the bytes hold exactly four per pixel.
pub open spec fn spec_rgba_picture(width: u32, height: u32, pixels: Seq<u8>) -> bool {
    pixels.len() == (width * height) * 4
}

/// Turn a decoded picture into one ready for a texture; `None` when nothing
/// was decoded or the bytes do not hold exactly four per pixel.
pub fn rgba_picture(decoded: Option<(u32, u32, Vec<u8>)>) -> (picture: Option<RgbaPicture>)
    ensures
        picture is Some <==> (decoded matches Some((w, h, px)) && spec_rgba_picture(w, h, px@)),
        picture matches Some(p) ==> decoded matches Some((w, h, px)) && p.size[0] == w
            && p.size[1] == h && p.pixels@ == px@,
{
    match decoded {
        None => None,
        Some((width, height, pixels)) => {
            let len = pixels.len();
            match (width as u64).checked_mul(height as u64) {
                None => {
                    None
                },
                Some(area) => match area.checked_mul(4) {
                    None => None,
                    Some(n) => {
                        if len as u64 == n {
                            Some(RgbaPicture { size: [width as usize, height as usize], pixels })
                        } else {
                            None
                        }
                    },
                },
            }
        },
    }
}

/// Decode an encoded picture (JPEG) into one ready for a texture. Whatever
/// the decoder gives back, a picture returned holds exactly four bytes for
/// every pixel of its stated size.
pub fn decode_picture(bytes: &[u8]) -> (picture: Option<RgbaPicture>)
    ensures
        picture matches Some(p) ==> p.pixels@.len() == (p.size[0] * p.size[1]) * 4,
{
    rgba_picture(decode_rgba8(bytes))
}

} // verus!
