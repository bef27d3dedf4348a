use png::HasParameters;
use vstd::prelude::*;

use crate::fb::{byte_seq, Fb};

verus! {

/// The PNG file that png's encoder writes for an 8-bit RGB image `width`
/// pixels wide and `height` high whose rows, top to bottom, are `data`.
pub uninterp spec fn png_rgb8_of(width: u32, height: u32, data: Seq<u8>) -> Seq<u8>;

/// Relies on `png::Encoder` set to `ColorType::RGB` and `BitDepth::Eight`,
/// then `write_header` and `write_image_data` into a `Vec`: the file of the
/// image, or the encoder's error as text. `write_image_data` refuses data
/// that is not three bytes per pixel and otherwise only writes into the
/// `Vec`, which cannot fail; it splits rows with `chunks`, which panics on
/// an image zero pixels wide, and sizes the data in `usize`.
#[verifier::external_body]
fn png_rgb8(width: u32, height: u32, data: &Vec<u8>) -> (r: Result<Vec<u8>, String>)
    requires
        width > 0,
        3 * width * height <= usize::MAX,
    ensures
        r matches Ok(v) ==> v@ == png_rgb8_of(width, height, data@),
        data@.len() != 3 * width * height <==> r is Err,
{
    let mut out = Vec::new();
    {
        let mut encoder = png::Encoder::new(&mut out, width, height);
        encoder.set(png::ColorType::RGB).set(png::BitDepth::Eight);
        let mut writer = encoder.write_header().map_err(|e| format!("{:?}", e))?;
        writer.write_image_data(data).map_err(|e| format!("{:?}", e))?;
    }
    Ok(out)
}

/// Encodes the framebuffer as an 8-bit RGB PNG file: the encoder's file of
/// the grid's bytes (`Fb::to_bytes`).
pub fn encode(fb: Fb<[u8; 3]>) -> (r: Result<Vec<u8>, String>)
    requires
        fb.wf(),
        fb.spec_width() > 0,
        3 * fb.spec_width() * fb.spec_height() <= usize::MAX,
    ensures
        r is Ok,
        r matches Ok(v) ==> v@ == png_rgb8_of(
            fb.spec_width() as u32,
            fb.spec_height() as u32,
            byte_seq(fb.pixels()),
        ),
{
    let width = fb.width() as u32;
    let height = fb.height() as u32;
    let bytes = fb.to_bytes();
    png_rgb8(width, height, &bytes)
}

} // verus!
