//! The image encoder: from a pixel buffer to the bytes of a PNG file.

use vstd::prelude::*;

use crate::image::PixelLayout;

verus! {

/// `png::EncodingError`, the error of the image encoder. Nothing is read
/// from it.
#[verifier::external_type_specification]
#[verifier::external_body]
pub struct ExEncodingError(png::EncodingError);

/// The PNG file that the `png` crate writes for a buffer of `height` rows of
/// `width` pixels in the given layout, or `None` where it writes none.
pub uninterp spec fn png_encoding(width: u32, height: u32, layout: PixelLayout, data: Seq<u8>) -> Option<
    Seq<u8>,
>;

/// Runs the `png` crate's encoder into a fresh vector: `Encoder::new` with the
/// dimensions, `set_color` and `set_depth` for the layout, `write_header`, then
/// `Writer::write_image_data` with the buffer; dropping the writer ends the
/// file.
///
/// With its default settings the encoder's output is a function of the
/// dimensions, the layout and the buffer alone. Writing into a vector, it
/// reports an error only for a dimension of zero, for a layout that the
/// format does not know, and for a buffer whose length is not the one that
/// the dimensions ask for; none of these is admitted here, so the call
/// succeeds.
///
/// The encoder hands each row, with one byte in front, to a compressor that
/// counts runs of zero bytes in 32 bits: a row has to stay below `u32::MAX`
/// bytes. It also computes the size of all rows with their leading bytes,
/// and a bound on the compressed size from it: buffer and height together
/// have to fit `isize`.
#[verifier::external_body]
pub(crate) fn encode_png(width: u32, height: u32, layout: PixelLayout, data: &[u8]) -> (r: Result<
    Vec<u8>,
    png::EncodingError,
>)
    requires
        width >= 1,
        height >= 1,
        layout.row_bytes(width as int) < u32::MAX,
        data@.len() == layout.buffer_len(width as int, height as int),
        data@.len() + height <= isize::MAX,
    ensures
        r is Ok,
        png_encoding(width, height, layout, data@) == Some(r->Ok_0@),
{
    let (color, depth) = match layout {
        PixelLayout::Gray1 => (png::ColorType::Grayscale, png::BitDepth::One),
        PixelLayout::Gray8 => (png::ColorType::Grayscale, png::BitDepth::Eight),
        PixelLayout::Rgb8 => (png::ColorType::Rgb, png::BitDepth::Eight),
        PixelLayout::Rgba8 => (png::ColorType::Rgba, png::BitDepth::Eight),
    };
    let mut file = Vec::new();
    let mut encoder = png::Encoder::new(&mut file, width, height);
    encoder.set_color(color);
    encoder.set_depth(depth);
    encoder.write_header()?.write_image_data(data)?;
    Ok(file)
}

} // verus!
