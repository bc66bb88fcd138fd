//! Decoding the window icon with the `image` crate.
use vstd::prelude::*;

verus! {

/// An icon as RGBA pixels: four bytes a pixel, row by row.
pub struct IconImage {
    pub rgba: Vec<u8>,
    pub width: u32,
    pub height: u32,
}

/// Names what `image::load_from_memory` followed by `into_rgba8` makes of
/// a file's bytes: its RGBA pixels with width and height, or `None` when
/// the bytes are no image the crate can decode.
pub uninterp spec fn decoded_icon(bytes: Seq<u8>) -> Option<(Seq<u8>, u32, u32)>;

/// Calls `image::load_from_memory` and converts the image to RGBA. The
/// contract claims only that the outcome is a function of the bytes, named
/// `decoded_icon`; which bytes decode and to what is not stated.
#[verifier::external_body]
fn decode_rgba8(bytes: &[u8]) -> (r: Option<(Vec<u8>, u32, u32)>)
    ensures
        match r {
            Some(t) => decoded_icon(bytes@) == Some((t.0@, t.1, t.2)),
            None => decoded_icon(bytes@) is None,
        },
{
    match image::load_from_memory(bytes) {
        Ok(img) => {
            let img = img.into_rgba8();
            let (w, h) = img.dimensions();
            Some((img.into_raw(), w, h))
        },
        Err(_) => None,
    }
}

/// Decodes an icon file into RGBA pixels, if it is an image.
pub fn load_icon(bytes: &[u8]) -> (r: Option<IconImage>)
    ensures
        match r {
            Some(i) => decoded_icon(bytes@) == Some((i.rgba@, i.width, i.height)),
            None => decoded_icon(bytes@) is None,
        },
{
    match decode_rgba8(bytes) {
        Some((rgba, width, height)) => Some(IconImage { rgba, width, height }),
        None => None,
    }
}

} // verus!
