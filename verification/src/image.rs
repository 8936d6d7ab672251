//! The raster canvas: a pixel buffer in one of four color encodings.

use vstd::prelude::*;

use crate::canvas::Canvas;
use crate::encoder::encode_png;
use crate::layout::lemma_cell_in_grid;
use crate::Error;

verus! {

/// A color encoding together with its foreground and background values,
/// in that order.
#[derive(Debug, Clone, Copy, PartialEq, Eq)]
pub enum Color {
    /// One bit per pixel, eight pixels to a byte, most significant bit first.
    Bitmap(bool, bool),
    /// One byte per pixel, 0 is black and 255 is white.
    Grayscale(u8, u8),
    /// Three bytes per pixel: red, green, blue.
    Rgb([u8; 3], [u8; 3]),
    /// Four bytes per pixel: red, green, blue, alpha.
    Rgba([u8; 4], [u8; 4]),
}

/// The value of a single pixel in one of the four encodings.
#[derive(Debug, Clone, Copy, PartialEq, Eq)]
pub enum ColorValue {
    Bit(bool),
    Gray(u8),
    Rgb([u8; 3]),
    Rgba([u8; 4]),
}

/// How the samples of a pixel buffer are laid out for the image encoder.
#[derive(Debug, Clone, Copy, PartialEq, Eq)]
pub enum PixelLayout {
    /// One grayscale sample of one bit.
    Gray1,
    /// One grayscale sample of eight bits.
    Gray8,
    /// Three samples of eight bits.
    Rgb8,
    /// Four samples of eight bits.
    Rgba8,
}

impl Color {
    /// The value that a painted pixel holds.
    pub open spec fn foreground(self) -> ColorValue {
        match self {
            Color::Bitmap(fg, _) => ColorValue::Bit(fg),
            Color::Grayscale(fg, _) => ColorValue::Gray(fg),
            Color::Rgb(fg, _) => ColorValue::Rgb(fg),
            Color::Rgba(fg, _) => ColorValue::Rgba(fg),
        }
    }

    /// The value that an unpainted pixel holds.
    pub open spec fn background(self) -> ColorValue {
        match self {
            Color::Bitmap(_, bg) => ColorValue::Bit(bg),
            Color::Grayscale(_, bg) => ColorValue::Gray(bg),
            Color::Rgb(_, bg) => ColorValue::Rgb(bg),
            Color::Rgba(_, bg) => ColorValue::Rgba(bg),
        }
    }

    /// The foreground value where `painted` holds, the background value elsewhere.
    pub open spec fn value(self, painted: bool) -> ColorValue {
        if painted {
            self.foreground()
        } else {
            self.background()
        }
    }

    /// The layout that the image encoder is told about.
    pub open spec fn pixel_layout(self) -> PixelLayout {
        match self {
            Color::Bitmap(_, _) => PixelLayout::Gray1,
            Color::Grayscale(_, _) => PixelLayout::Gray8,
            Color::Rgb(_, _) => PixelLayout::Rgb8,
            Color::Rgba(_, _) => PixelLayout::Rgba8,
        }
    }

    /// Bytes in one row of a canvas `width` pixels wide. A bitmap row ends on a
    /// byte boundary, so its last byte may hold bits beyond the last pixel.
    pub open spec fn row_bytes(self, width: int) -> int {
        self.pixel_layout().row_bytes(width)
    }

    /// Bytes in the buffer of a `width` by `height` canvas.
    pub open spec fn buffer_len(self, width: int, height: int) -> int {
        self.pixel_layout().buffer_len(width, height)
    }

    /// Whether the image encoder takes a `width` by `height` canvas in this
    /// encoding: each dimension fits the 32 bits that the format gives it, a
    /// row stays below `u32::MAX` bytes, and the buffer with one more byte
    /// for each row fits `isize`.
    pub open spec fn encodable(self, width: int, height: int) -> bool {
        &&& width <= u32::MAX
        &&& height <= u32::MAX
        &&& self.row_bytes(width) < u32::MAX
        &&& self.buffer_len(width, height) + height <= isize::MAX
    }

    /// The byte at position `i` of a buffer in which every pixel is background.
    pub open spec fn background_byte(self, i: int) -> u8 {
        match self {
            Color::Bitmap(_, bg) => if bg { 0xffu8 } else { 0x00u8 },
            Color::Grayscale(_, bg) => bg,
            Color::Rgb(_, bg) => bg[i % 3],
            Color::Rgba(_, bg) => bg[i % 4],
        }
    }
}

impl Color {
    /// The value that a painted pixel holds.
    pub fn foreground_value(&self) -> (value: ColorValue)
        ensures
            value == self.foreground(),
    {
        match self {
            Color::Bitmap(fg, _) => ColorValue::Bit(*fg),
            Color::Grayscale(fg, _) => ColorValue::Gray(*fg),
            Color::Rgb(fg, _) => ColorValue::Rgb(*fg),
            Color::Rgba(fg, _) => ColorValue::Rgba(*fg),
        }
    }

    /// The value that an unpainted pixel holds.
    pub fn background_value(&self) -> (value: ColorValue)
        ensures
            value == self.background(),
    {
        match self {
            Color::Bitmap(_, bg) => ColorValue::Bit(*bg),
            Color::Grayscale(_, bg) => ColorValue::Gray(*bg),
            Color::Rgb(_, bg) => ColorValue::Rgb(*bg),
            Color::Rgba(_, bg) => ColorValue::Rgba(*bg),
        }
    }

    /// The layout that the image encoder is told about.
    pub fn layout(&self) -> (layout: PixelLayout)
        ensures
            layout == self.pixel_layout(),
    {
        match self {
            Color::Bitmap(_, _) => PixelLayout::Gray1,
            Color::Grayscale(_, _) => PixelLayout::Gray8,
            Color::Rgb(_, _) => PixelLayout::Rgb8,
            Color::Rgba(_, _) => PixelLayout::Rgba8,
        }
    }

    /// Whether the buffer of a `width` by `height` canvas in this encoding
    /// has a size that fits in `usize`.
    pub fn buffer_fits(&self, width: usize, height: usize) -> (fits: bool)
        ensures
            fits == (self.buffer_len(width as int, height as int) <= usize::MAX),
    {
        match self {
            Color::Bitmap(_, _) => {
                let bytes_per_row: usize = width / 8 + if width % 8 != 0 { 1 } else { 0 };
                height.checked_mul(bytes_per_row).is_some()
            },
            Color::Grayscale(_, _) => width.checked_mul(height).is_some(),
            Color::Rgb(_, _) => {
                assert(width * height <= width * height * 3) by (nonlinear_arith)
                    requires
                        0 <= width * height,
                ;
                match width.checked_mul(height) {
                    Some(pixels) => pixels.checked_mul(3).is_some(),
                    None => false,
                }
            },
            Color::Rgba(_, _) => {
                assert(width * height <= width * height * 4) by (nonlinear_arith)
                    requires
                        0 <= width * height,
                ;
                match width.checked_mul(height) {
                    Some(pixels) => pixels.checked_mul(4).is_some(),
                    None => false,
                }
            },
        }
    }

    /// Whether the image encoder takes a `width` by `height` canvas in this
    /// encoding.
    pub fn can_encode(&self, width: usize, height: usize) -> (yes: bool)
        ensures
            yes == self.encodable(width as int, height as int),
    {
        if width > u32::MAX as usize || height > u32::MAX as usize {
            return false;
        }
        let row: usize = match self {
            Color::Bitmap(_, _) => width / 8 + if width % 8 != 0 { 1 } else { 0 },
            Color::Grayscale(_, _) => width,
            Color::Rgb(_, _) => match width.checked_mul(3) {
                Some(row) => row,
                None => { return false; },
            },
            Color::Rgba(_, _) => match width.checked_mul(4) {
                Some(row) => row,
                None => { return false; },
            },
        };
        if row >= u32::MAX as usize {
            return false;
        }
        proof {
            assert(self.buffer_len(width as int, height as int) == row * height) by (nonlinear_arith)
                requires
                    self.buffer_len(width as int, height as int) == match *self {
                        Color::Bitmap(_, _) => height * row,
                        Color::Grayscale(_, _) => width * height * 1,
                        Color::Rgb(_, _) => width * height * 3,
                        Color::Rgba(_, _) => width * height * 4,
                    },
                    row == match *self {
                        Color::Bitmap(_, _) => row as int,
                        Color::Grayscale(_, _) => width as int,
                        Color::Rgb(_, _) => width * 3,
                        Color::Rgba(_, _) => width * 4,
                    },
            ;
        }
        match row.checked_mul(height) {
            Some(len) => match len.checked_add(height) {
                Some(total) => total <= isize::MAX as usize,
                None => false,
            },
            None => false,
        }
    }

    /// One bit per pixel: dark modules are bit 1 on a background of bit 0.
    pub fn bitmap() -> (color: Color)
        ensures
            color == Color::Bitmap(true, false),
    {
        Color::Bitmap(true, false)
    }

    /// Grayscale: black modules on a white background.
    pub fn grayscale() -> (color: Color)
        ensures
            color == Color::Grayscale(0, 255),
    {
        Color::Grayscale(0, 255)
    }

    /// RGB: black modules on a white background.
    pub fn rgb() -> (color: Color)
        ensures
            color == Color::Rgb([0u8, 0u8, 0u8], [255u8, 255u8, 255u8]),
    {
        Color::Rgb([0, 0, 0], [255, 255, 255])
    }

    /// RGBA: opaque black modules on an opaque white background.
    pub fn rgba() -> (color: Color)
        ensures
            color == Color::Rgba([0u8, 0u8, 0u8, 255u8], [255u8, 255u8, 255u8, 255u8]),
    {
        Color::Rgba([0, 0, 0, 255], [255, 255, 255, 255])
    }
}

impl Default for Color {
    /// The bitmap encoding with its usual colors.
    fn default() -> (color: Color)
        ensures
            color == Color::Bitmap(true, false),
    {
        Color::Bitmap(true, false)
    }
}

impl PixelLayout {
    /// Bytes that one pixel takes. A one-bit pixel shares its byte with seven others.
    pub open spec fn pixel_bytes(self) -> int {
        match self {
            PixelLayout::Gray1 => 1,
            PixelLayout::Gray8 => 1,
            PixelLayout::Rgb8 => 3,
            PixelLayout::Rgba8 => 4,
        }
    }

    /// Bytes in one row of `width` pixels.
    pub open spec fn row_bytes(self, width: int) -> int {
        match self {
            PixelLayout::Gray1 => width / 8 + if width % 8 != 0 { 1int } else { 0int },
            _ => width * self.pixel_bytes(),
        }
    }

    /// Bytes in `height` rows of `width` pixels.
    pub open spec fn buffer_len(self, width: int, height: int) -> int {
        match self {
            PixelLayout::Gray1 => height * self.row_bytes(width),
            _ => width * height * self.pixel_bytes(),
        }
    }
}

/// A pixel buffer that starts out as background and is painted pixel by pixel.
#[derive(Debug, Clone)]
pub struct Png {
    width: usize,
    height: usize,
    data: Vec<u8>,
    color: Color,
}

impl View for Png {
    type V = Canvas;

    closed spec fn view(&self) -> Canvas {
        Canvas {
            width: self.width as int,
            height: self.height as int,
            color: self.color,
            bytes: self.data@,
        }
    }
}

/// A buffer of `count` copies of `pattern`.
fn tiled<const N: usize>(pattern: &[u8; N], count: usize) -> (data: Vec<u8>)
    requires
        N >= 1,
        count * N <= usize::MAX,
    ensures
        data@.len() == count * N,
        forall|i: int| 0 <= i < data@.len() ==> data@[i] == pattern[i % (N as int)],
{
    let total: usize = count * N;
    let mut data: Vec<u8> = Vec::new();
    let mut i: usize = 0;
    while i < total
        invariant
            N >= 1,
            i <= total,
            data@.len() == i,
            forall|j: int| 0 <= j < i ==> data@[j] == pattern[j % (N as int)],
        decreases total - i,
    {
        data.push(pattern[i % N]);
        i = i + 1;
    }
    data
}

impl Png {
    /// Well-formedness: see [`Canvas::wf`].
    pub open spec fn wf(&self) -> bool {
        self@.wf()
    }

    /// Creates a `width` by `height` canvas on which every pixel is background.
    /// A width or height of zero is rejected.
    pub fn new(width: usize, height: usize, color: Color) -> (r: Result<Png, Error>)
        requires
            color.buffer_len(width as int, height as int) <= usize::MAX,
        ensures
            r is Err <==> width == 0 || height == 0,
            r matches Err(e) ==> e == Error::InvalidConfiguration,
            r matches Ok(image) ==> {
                &&& image.wf()
                &&& image@ == Canvas::blank(width as int, height as int, color)
                &&& forall|x: int, y: int|
                    image@.holds(x, y) ==> #[trigger] image@.pixel(x, y) == color.background()
            },
    {
        if width == 0 || height == 0 {
            return Err(Error::InvalidConfiguration);
        }
        let data: Vec<u8> = match color {
            Color::Bitmap(_, bg) => {
                let bytes_per_row: usize = width / 8 + if width % 8 != 0 { 1 } else { 0 };
                let fill: u8 = if bg { 0xff } else { 0x00 };
                vec![fill; height * bytes_per_row]
            },
            Color::Grayscale(_, bg) => vec![bg; width * height],
            Color::Rgb(_, bg) => {
                assert(width * height <= width * height * 3) by (nonlinear_arith)
                    requires
                        0 <= width * height,
                ;
                tiled(&bg, width * height)
            },
            Color::Rgba(_, bg) => {
                assert(width * height <= width * height * 4) by (nonlinear_arith)
                    requires
                        0 <= width * height,
                ;
                tiled(&bg, width * height)
            },
        };
        let image = Png { width, height, data, color };
        assert(image@.bytes =~= Canvas::blank(width as int, height as int, color).bytes);
        proof {
            assert forall|x: int, y: int| image@.holds(x, y) implies #[trigger] image@.pixel(x, y)
                == color.background() by {
                Canvas::lemma_blank_reads_background(width as int, height as int, color, x, y);
            }
        }
        Ok(image)
    }

    /// Paints pixel `(x, y)`: sets it to the foreground value and leaves every
    /// other pixel as it was.
    pub fn set_color(&mut self, x: usize, y: usize)
        requires
            old(self).wf(),
            x < old(self)@.width,
            y < old(self)@.height,
        ensures
            final(self).wf(),
            final(self)@ == old(self)@.paint(x as int, y as int),
            final(self)@.width == old(self)@.width,
            final(self)@.height == old(self)@.height,
            final(self)@.color == old(self)@.color,
            final(self)@.pixel(x as int, y as int) == old(self)@.color.foreground(),
            forall|x2: int, y2: int|
                old(self)@.holds(x2, y2) && (x2 != x || y2 != y) ==> #[trigger] final(self)@.pixel(x2, y2)
                    == old(self)@.pixel(x2, y2),
            old(self)@.color matches Color::Bitmap(fg, _) ==> (final(self)@.bytes[y * old(
                self,
            )@.color.row_bytes(old(self)@.width) + x / 8] & (1u8 << ((7 - x % 8) as u8)) != 0) == fg,
    {
        proof {
            let before = self@;
            before.lemma_paint_keeps_shape(x as int, y as int);
            before.lemma_paint_reads_foreground(x as int, y as int);
            before.lemma_pixel_in_buffer(x as int, y as int);
            assert forall|x2: int, y2: int|
                before.holds(x2, y2) && (x2 != x || y2 != y) implies #[trigger] before.paint(
                x as int,
                y as int,
            ).pixel(x2, y2) == before.pixel(x2, y2) by {
                before.lemma_paint_keeps_others(x as int, y as int, x2, y2);
            }
            lemma_cell_in_grid(x as int, y as int, self.width as int, self.height as int);
            assert(self.data@.len() == self.data.len() <= usize::MAX);
            assert(before.pixel_index(x as int, y as int) + 1 <= self.data@.len());
        }
        match self.color {
            Color::Bitmap(fg, _) => {
                let stride: usize = self.width / 8 + if self.width % 8 != 0 { 1 } else { 0 };
                proof {
                    lemma_cell_in_grid(x as int / 8, y as int, stride as int, self.height as int);
                    assert(stride * self.height == self.height * stride) by (nonlinear_arith);
                    assert(self@.pixel_index(x as int, y as int) == y * stride + x / 8);
                }
                let index: usize = y * stride + x / 8;
                let mask: u8 = 1u8 << (7 - (x % 8) as u8);
                let byte: u8 = self.data[index];
                if fg {
                    self.data[index] = byte | mask;
                } else {
                    self.data[index] = byte & !mask;
                }
            },
            Color::Grayscale(fg, _) => {
                let index: usize = y * self.width + x;
                self.data[index] = fg;
            },
            Color::Rgb(fg, _) => {
                let index: usize = (y * self.width + x) * 3;
                self.data[index] = fg[0];
                self.data[index + 1] = fg[1];
                self.data[index + 2] = fg[2];
            },
            Color::Rgba(fg, _) => {
                let index: usize = (y * self.width + x) * 4;
                self.data[index] = fg[0];
                self.data[index + 1] = fg[1];
                self.data[index + 2] = fg[2];
                self.data[index + 3] = fg[3];
            },
        }
        assert(self@.bytes =~= old(self)@.paint(x as int, y as int).bytes);
    }

    /// Reads back the value of pixel `(x, y)`.
    pub fn pixel(&self, x: usize, y: usize) -> (value: ColorValue)
        requires
            self.wf(),
            x < self@.width,
            y < self@.height,
        ensures
            value == self@.pixel(x as int, y as int),
    {
        proof {
            self@.lemma_width_fits_row();
            self@.lemma_pixel_in_buffer(x as int, y as int);
            lemma_cell_in_grid(x as int, y as int, self.width as int, self.height as int);
            assert(self.data@.len() == self.data.len() <= usize::MAX);
        }
        match self.color {
            Color::Bitmap(_, _) => {
                let stride: usize = self.width / 8 + if self.width % 8 != 0 { 1 } else { 0 };
                proof {
                    lemma_cell_in_grid(x as int / 8, y as int, stride as int, self.height as int);
                    assert(self@.pixel_index(x as int, y as int) == y * stride + x / 8);
                }
                let byte: u8 = self.data[y * stride + x / 8];
                let mask: u8 = 1u8 << (7 - (x % 8) as u8);
                ColorValue::Bit(byte & mask != 0)
            },
            Color::Grayscale(_, _) => ColorValue::Gray(self.data[y * self.width + x]),
            Color::Rgb(_, _) => {
                let index: usize = (y * self.width + x) * 3;
                ColorValue::Rgb([self.data[index], self.data[index + 1], self.data[index + 2]])
            },
            Color::Rgba(_, _) => {
                let index: usize = (y * self.width + x) * 4;
                ColorValue::Rgba(
                    [self.data[index], self.data[index + 1], self.data[index + 2], self.data[index + 3]],
                )
            },
        }
    }

    /// Hands out what the image encoder needs: width, height, the layout of
    /// the samples, and a copy of the buffer.
    pub fn export(&self) -> (r: (usize, usize, PixelLayout, Vec<u8>))
        ensures
            r.0 == self@.width,
            r.1 == self@.height,
            r.2 == self@.color.pixel_layout(),
            r.3@ == self@.bytes,
    {
        let data: Vec<u8> = self.data.clone();
        assert(data@ =~= self.data@);
        (self.width, self.height, self.color.layout(), data)
    }

    /// Encodes the canvas as a PNG file. A canvas that the image encoder
    /// does not take gives `EncodingFailure`; every other canvas is encoded.
    pub fn encode(&self) -> (r: Result<Vec<u8>, Error>)
        requires
            self.wf(),
        ensures
            r is Ok <==> self@.encodable(),
            r matches Ok(file) ==> self@.encoded() == Some(file@),
            r matches Err(e) ==> e == Error::EncodingFailure && self@.encoded() is None,
    {
        if !self.color.can_encode(self.width, self.height) {
            return Err(Error::EncodingFailure);
        }
        match encode_png(self.width as u32, self.height as u32, self.color.layout(), self.data.as_slice()) {
            Ok(file) => Ok(file),
            Err(_) => Err(Error::EncodingFailure),
        }
    }
}

} // verus!
