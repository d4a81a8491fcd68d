//! The one place the library leans on the raster codec: decoding encoded
//! image bytes into a pixel buffer.
use vstd::prelude::*;

use crate::raster::Raster;

verus! {

/// What decoding a byte string yields: `None` when the bytes are not a
/// readable image, otherwise the width, height and row-major packed RGBA
/// pixels. Decoding is a function of the bytes alone, so the result only
/// carries a name here; nothing else is assumed about it.
pub uninterp spec fn decoded_rgba(data: Seq<u8>) -> Option<(u32, u32, Seq<u32>)>;

/// Relies on image::load_from_memory: decoding either fails or yields a
/// pixel buffer with exactly width * height RGBA pixels, determined by the
/// input bytes alone (the RGBA8 conversion included).
#[verifier::external_body]
pub(crate) fn decode_raster(data: &[u8]) -> (r: Option<Raster>)
    ensures
        match r {
            Some(ras) => ras.wf() && decoded_rgba(data@) == Some(
                (ras.width, ras.height, ras.pixels@),
            ),
            None => decoded_rgba(data@) is None,
        },
{
    match image::load_from_memory(data) {
        Ok(img) => {
            let rgba = img.to_rgba8();
            let (width, height) = rgba.dimensions();
            let pixels: Vec<u32> = rgba.into_raw().chunks_exact(4).map(
                |c| u32::from_le_bytes([c[0], c[1], c[2], c[3]]),
            ).collect();
            Some(Raster { width, height, pixels })
        },
        Err(_) => None,
    }
}

} // verus!
