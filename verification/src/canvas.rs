//! The mathematical model of a canvas, and what painting does to it.

use vstd::prelude::*;

use crate::encoder::png_encoding;
use crate::image::{Color, ColorValue};
use crate::layout::{lemma_cell_in_grid, lemma_cell_of_index, lemma_index_row_in_grid, lemma_index_to_cell};

verus! {

/// What a canvas holds: its dimensions in pixels, its encoding, and its bytes.
pub struct Canvas {
    pub width: int,
    pub height: int,
    pub color: Color,
    pub bytes: Seq<u8>,
}

/// The bit that holds pixel `x` of a bitmap row in its byte: bit 7 for the
/// first pixel of the byte, bit 0 for the last.
pub open spec fn bit_shift(x: int) -> u8 {
    (7 - x % 8) as u8
}

/// The mask that selects pixel `x` in its byte of a bitmap row.
pub open spec fn bit_mask(x: int) -> u8 {
    1u8 << bit_shift(x)
}

impl Canvas {
    /// Both dimensions are at least one and the buffer has the size that they ask for.
    pub open spec fn wf(self) -> bool {
        &&& 1 <= self.width
        &&& 1 <= self.height
        &&& self.bytes.len() == self.color.buffer_len(self.width, self.height)
    }

    /// Pixel positions that a row has room for. A bitmap row has room for a
    /// multiple of eight, which may be more than the canvas is wide.
    pub open spec fn row_pixels(self) -> int {
        match self.color {
            Color::Bitmap(_, _) => self.color.row_bytes(self.width) * 8,
            _ => self.width,
        }
    }

    /// Whether the buffer holds a pixel position `(x, y)`.
    pub open spec fn holds(self, x: int, y: int) -> bool {
        0 <= x < self.row_pixels() && 0 <= y < self.height
    }

    /// The index of the first byte of pixel `(x, y)`.
    pub open spec fn pixel_index(self, x: int, y: int) -> int {
        match self.color {
            Color::Bitmap(_, _) => y * self.color.row_bytes(self.width) + x / 8,
            Color::Grayscale(_, _) => y * self.width + x,
            Color::Rgb(_, _) => (y * self.width + x) * 3,
            Color::Rgba(_, _) => (y * self.width + x) * 4,
        }
    }

    /// The value read back at pixel position `(x, y)`.
    pub open spec fn pixel(self, x: int, y: int) -> ColorValue {
        let i = self.pixel_index(x, y);
        match self.color {
            Color::Bitmap(_, _) => ColorValue::Bit(self.bytes[i] & bit_mask(x) != 0),
            Color::Grayscale(_, _) => ColorValue::Gray(self.bytes[i]),
            Color::Rgb(_, _) => ColorValue::Rgb([self.bytes[i], self.bytes[i + 1], self.bytes[i + 2]]),
            Color::Rgba(_, _) => ColorValue::Rgba(
                [self.bytes[i], self.bytes[i + 1], self.bytes[i + 2], self.bytes[i + 3]],
            ),
        }
    }

    /// The canvas on which nothing has been painted.
    pub open spec fn blank(width: int, height: int, color: Color) -> Canvas {
        Canvas {
            width,
            height,
            color,
            bytes: Seq::new(
                color.buffer_len(width, height) as nat,
                |i: int| color.background_byte(i),
            ),
        }
    }

    /// The canvas after pixel `(x, y)` has been painted.
    pub open spec fn paint(self, x: int, y: int) -> Canvas {
        let i = self.pixel_index(x, y);
        let bytes = match self.color {
            Color::Bitmap(fg, _) => self.bytes.update(
                i,
                if fg {
                    self.bytes[i] | bit_mask(x)
                } else {
                    self.bytes[i] & !bit_mask(x)
                },
            ),
            Color::Grayscale(fg, _) => self.bytes.update(i, fg),
            Color::Rgb(fg, _) => self.bytes.update(i, fg[0]).update(i + 1, fg[1]).update(i + 2, fg[2]),
            Color::Rgba(fg, _) => self.bytes.update(i, fg[0]).update(i + 1, fg[1]).update(
                i + 2,
                fg[2],
            ).update(i + 3, fg[3]),
        };
        Canvas { bytes, ..self }
    }

    /// Whether the image encoder takes this canvas: see [`Color::encodable`].
    pub open spec fn encodable(self) -> bool {
        self.color.encodable(self.width, self.height)
    }

    /// The PNG file of this canvas, or `None` where the image encoder does
    /// not take it or writes no file.
    pub open spec fn encoded(self) -> Option<Seq<u8>> {
        if self.encodable() {
            png_encoding(self.width as u32, self.height as u32, self.color.pixel_layout(), self.bytes)
        } else {
            None
        }
    }
}

proof fn lemma_bit_set(b: u8, k: u8)
    requires
        k < 8,
    ensures
        (b | (1u8 << k)) & (1u8 << k) != 0,
        (b & !(1u8 << k)) & (1u8 << k) == 0,
{
    assert((b | (1u8 << k)) & (1u8 << k) != 0) by (bit_vector)
        requires
            k < 8,
    ;
    assert((b & !(1u8 << k)) & (1u8 << k) == 0) by (bit_vector)
        requires
            k < 8,
    ;
}

proof fn lemma_bit_kept(b: u8, k: u8, j: u8)
    requires
        k < 8,
        j < 8,
        j != k,
    ensures
        (b | (1u8 << k)) & (1u8 << j) == b & (1u8 << j),
        (b & !(1u8 << k)) & (1u8 << j) == b & (1u8 << j),
{
    assert((b | (1u8 << k)) & (1u8 << j) == b & (1u8 << j)) by (bit_vector)
        requires
            k < 8,
            j < 8,
            j != k,
    ;
    assert((b & !(1u8 << k)) & (1u8 << j) == b & (1u8 << j)) by (bit_vector)
        requires
            k < 8,
            j < 8,
            j != k,
    ;
}

proof fn lemma_bit_of_fill(k: u8)
    requires
        k < 8,
    ensures
        0xffu8 & (1u8 << k) != 0,
        0x00u8 & (1u8 << k) == 0,
{
    assert(0xffu8 & (1u8 << k) != 0) by (bit_vector)
        requires
            k < 8,
    ;
    assert(0x00u8 & (1u8 << k) == 0) by (bit_vector);
}

impl Canvas {
    /// The first byte of a pixel that the buffer holds, and the bytes after it
    /// that belong to the same pixel, lie inside the buffer.
    pub proof fn lemma_pixel_in_buffer(self, x: int, y: int)
        requires
            self.wf(),
            self.holds(x, y),
        ensures
            0 <= self.pixel_index(x, y),
            self.pixel_index(x, y) + self.color.pixel_layout().pixel_bytes() <= self.bytes.len(),
    {
        match self.color {
            Color::Bitmap(_, _) => {
                let stride = self.color.row_bytes(self.width);
                lemma_cell_in_grid(x / 8, y, stride, self.height);
                assert(stride * self.height == self.height * stride) by (nonlinear_arith);
            },
            _ => {
                lemma_cell_in_grid(x, y, self.width, self.height);
                assert(self.pixel_index(x, y) + self.color.pixel_layout().pixel_bytes() <= self.bytes.len());
            },
        }
    }

    /// Two pixel positions that the buffer holds share their first byte only
    /// if they are the same pixel or, in a bitmap, two of the eight pixels of one byte.
    pub proof fn lemma_pixel_index_unique(self, x1: int, y1: int, x2: int, y2: int)
        requires
            self.wf(),
            self.holds(x1, y1),
            self.holds(x2, y2),
            self.pixel_index(x1, y1) == self.pixel_index(x2, y2),
        ensures
            y1 == y2,
            self.color is Bitmap ==> x1 / 8 == x2 / 8,
            !(self.color is Bitmap) ==> x1 == x2,
    {
        match self.color {
            Color::Bitmap(_, _) => {
                let stride = self.color.row_bytes(self.width);
                lemma_cell_of_index(x1 / 8, y1, stride);
                lemma_cell_of_index(x2 / 8, y2, stride);
            },
            _ => {
                lemma_cell_of_index(x1, y1, self.width);
                lemma_cell_of_index(x2, y2, self.width);
            },
        }
    }

    /// On a blank canvas every pixel position reads as background, the
    /// spare bits at the end of a bitmap row included.
    pub proof fn lemma_blank_reads_background(width: int, height: int, color: Color, x: int, y: int)
        requires
            1 <= width,
            1 <= height,
            Canvas::blank(width, height, color).holds(x, y),
        ensures
            Canvas::blank(width, height, color).wf(),
            Canvas::blank(width, height, color).pixel(x, y) == color.background(),
    {
        let c = Canvas::blank(width, height, color);
        assert(0 <= color.buffer_len(width, height)) by (nonlinear_arith)
            requires
                1 <= width,
                1 <= height,
                color.buffer_len(width, height) == match color {
                    Color::Bitmap(_, _) => height * (width / 8 + if width % 8 != 0 { 1int } else { 0int }),
                    Color::Grayscale(_, _) => width * height * 1,
                    Color::Rgb(_, _) => width * height * 3,
                    Color::Rgba(_, _) => width * height * 4,
                },
        ;
        c.lemma_pixel_in_buffer(x, y);
        match color {
            Color::Bitmap(_, _) => {
                lemma_bit_of_fill(bit_shift(x));
            },
            Color::Grayscale(_, _) => {},
            Color::Rgb(_, bg) => {
                assert(c.pixel(x, y)->Rgb_0 =~= bg);
            },
            Color::Rgba(_, bg) => {
                assert(c.pixel(x, y)->Rgba_0 =~= bg);
            },
        }
    }

    /// The buffer of a blank canvas, spelled out: a bitmap takes the width
    /// divided by eight, rounded up, in bytes for each row, and every byte is
    /// `0xff` or `0x00` by the background bit; the other encodings take one,
    /// three or four bytes for each pixel, and the bytes of every pixel are
    /// those of the background value.
    pub proof fn lemma_blank_layout(width: int, height: int, color: Color)
        requires
            1 <= width,
            1 <= height,
        ensures
            Canvas::blank(width, height, color).wf(),
            Canvas::blank(width, height, color).bytes.len() == match color {
                Color::Bitmap(_, _) => height * ((width + 7) / 8),
                Color::Grayscale(_, _) => width * height,
                Color::Rgb(_, _) => width * height * 3,
                Color::Rgba(_, _) => width * height * 4,
            },
            color matches Color::Bitmap(_, bg) ==> forall|i: int|
                0 <= i < height * ((width + 7) / 8) ==> #[trigger] Canvas::blank(width, height, color).bytes[i]
                    == (if bg {
                    0xffu8
                } else {
                    0x00u8
                }),
            forall|x: int, y: int|
                0 <= x < width && 0 <= y < height ==> {
                    let i = #[trigger] Canvas::blank(width, height, color).pixel_index(x, y);
                    let bytes = Canvas::blank(width, height, color).bytes;
                    match color {
                        Color::Bitmap(_, bg) => (bytes[i] & bit_mask(x) != 0) == bg,
                        Color::Grayscale(_, bg) => bytes[i] == bg,
                        Color::Rgb(_, bg) => bytes[i] == bg[0] && bytes[i + 1] == bg[1] && bytes[i + 2] == bg[2],
                        Color::Rgba(_, bg) => bytes[i] == bg[0] && bytes[i + 1] == bg[1] && bytes[i + 2] == bg[2]
                            && bytes[i + 3] == bg[3],
                    }
                },
    {
        let c = Canvas::blank(width, height, color);
        Canvas::lemma_buffer_len_positive(width, height, color);
        assert forall|x: int, y: int| 0 <= x < width && 0 <= y < height implies {
            let i = #[trigger] c.pixel_index(x, y);
            match color {
                Color::Bitmap(_, bg) => (c.bytes[i] & bit_mask(x) != 0) == bg,
                Color::Grayscale(_, bg) => c.bytes[i] == bg,
                Color::Rgb(_, bg) => c.bytes[i] == bg[0] && c.bytes[i + 1] == bg[1] && c.bytes[i + 2] == bg[2],
                Color::Rgba(_, bg) => c.bytes[i] == bg[0] && c.bytes[i + 1] == bg[1] && c.bytes[i + 2] == bg[2]
                    && c.bytes[i + 3] == bg[3],
            }
        } by {
            c.lemma_width_fits_row();
            Canvas::lemma_blank_reads_background(width, height, color, x, y);
            c.lemma_pixel_in_buffer(x, y);
        }
    }

    /// Painting keeps the dimensions, the encoding and the size of the buffer.
    pub proof fn lemma_paint_keeps_shape(self, x: int, y: int)
        requires
            self.wf(),
            0 <= x < self.width,
            0 <= y < self.height,
        ensures
            self.paint(x, y).wf(),
            self.paint(x, y).width == self.width,
            self.paint(x, y).height == self.height,
            self.paint(x, y).color == self.color,
    {
        self.lemma_width_fits_row();
        self.lemma_pixel_in_buffer(x, y);
    }

    /// A painted pixel reads back as foreground.
    pub proof fn lemma_paint_reads_foreground(self, x: int, y: int)
        requires
            self.wf(),
            0 <= x < self.width,
            0 <= y < self.height,
        ensures
            self.holds(x, y),
            self.paint(x, y).pixel(x, y) == self.color.foreground(),
    {
        self.lemma_width_fits_row();
        self.lemma_pixel_in_buffer(x, y);
        match self.color {
            Color::Bitmap(fg, _) => {
                lemma_bit_set(self.bytes[self.pixel_index(x, y)], bit_shift(x));
            },
            Color::Grayscale(_, _) => {},
            Color::Rgb(fg, _) => {
                assert(self.paint(x, y).pixel(x, y)->Rgb_0 =~= fg);
            },
            Color::Rgba(fg, _) => {
                assert(self.paint(x, y).pixel(x, y)->Rgba_0 =~= fg);
            },
        }
    }

    /// Painting one pixel changes no other pixel position of the buffer.
    pub proof fn lemma_paint_keeps_others(self, x: int, y: int, x2: int, y2: int)
        requires
            self.wf(),
            0 <= x < self.width,
            0 <= y < self.height,
            self.holds(x2, y2),
            x2 != x || y2 != y,
        ensures
            self.paint(x, y).pixel(x2, y2) == self.pixel(x2, y2),
    {
        self.lemma_width_fits_row();
        self.lemma_pixel_in_buffer(x, y);
        self.lemma_pixel_in_buffer(x2, y2);
        if self.pixel_index(x, y) == self.pixel_index(x2, y2) {
            self.lemma_pixel_index_unique(x, y, x2, y2);
            let b = self.bytes[self.pixel_index(x, y)];
            lemma_bit_kept(b, bit_shift(x), bit_shift(x2));
        }
    }

    /// Painting never turns a pixel back: what read as foreground before
    /// still reads as foreground afterwards.
    pub proof fn lemma_paint_never_reverts(self, x: int, y: int, x2: int, y2: int)
        requires
            self.wf(),
            0 <= x < self.width,
            0 <= y < self.height,
            self.holds(x2, y2),
            self.pixel(x2, y2) == self.color.foreground(),
        ensures
            self.paint(x, y).pixel(x2, y2) == self.color.foreground(),
    {
        if x2 == x && y2 == y {
            self.lemma_paint_reads_foreground(x, y);
        } else {
            self.lemma_paint_keeps_others(x, y, x2, y2);
        }
    }

    /// A row has room for every pixel of the canvas.
    pub proof fn lemma_width_fits_row(self)
        ensures
            self.width <= self.row_pixels(),
    {
    }
}

/// The byte that holds eight one-bit pixels, the first in its highest bit.
pub open spec fn pack_bits(x0: bool, x1: bool, x2: bool, x3: bool, x4: bool, x5: bool, x6: bool, x7: bool) -> u8 {
    (if x0 { 1u8 << 7u8 } else { 0u8 }) | (if x1 { 1u8 << 6u8 } else { 0u8 }) | (if x2 { 1u8 << 5u8 } else { 0u8 })
        | (if x3 { 1u8 << 4u8 } else { 0u8 }) | (if x4 { 1u8 << 3u8 } else { 0u8 }) | (if x5 { 1u8 << 2u8 } else { 0u8 })
        | (if x6 { 1u8 << 1u8 } else { 0u8 }) | (if x7 { 1u8 << 0u8 } else { 0u8 })
}

proof fn lemma_pack_of_bits(b: u8)
    ensures
        b == pack_bits(
            b & (1u8 << 7u8) != 0,
            b & (1u8 << 6u8) != 0,
            b & (1u8 << 5u8) != 0,
            b & (1u8 << 4u8) != 0,
            b & (1u8 << 3u8) != 0,
            b & (1u8 << 2u8) != 0,
            b & (1u8 << 1u8) != 0,
            b & (1u8 << 0u8) != 0,
        ),
{
    assert(b == (if b & (1u8 << 7u8) != 0 { 1u8 << 7u8 } else { 0u8 }) | (if b & (1u8 << 6u8) != 0 { 1u8 << 6u8 } else { 0u8 })
        | (if b & (1u8 << 5u8) != 0 { 1u8 << 5u8 } else { 0u8 }) | (if b & (1u8 << 4u8) != 0 { 1u8 << 4u8 } else { 0u8 })
        | (if b & (1u8 << 3u8) != 0 { 1u8 << 3u8 } else { 0u8 }) | (if b & (1u8 << 2u8) != 0 { 1u8 << 2u8 } else { 0u8 })
        | (if b & (1u8 << 1u8) != 0 { 1u8 << 1u8 } else { 0u8 }) | (if b & (1u8 << 0u8) != 0 { 1u8 << 0u8 } else { 0u8 }))
        by (bit_vector);
}

proof fn lemma_bits_of_pack(x0: bool, x1: bool, x2: bool, x3: bool, x4: bool, x5: bool, x6: bool, x7: bool)
    ensures
        (pack_bits(x0, x1, x2, x3, x4, x5, x6, x7) & (1u8 << 7u8) != 0) == x0,
        (pack_bits(x0, x1, x2, x3, x4, x5, x6, x7) & (1u8 << 6u8) != 0) == x1,
        (pack_bits(x0, x1, x2, x3, x4, x5, x6, x7) & (1u8 << 5u8) != 0) == x2,
        (pack_bits(x0, x1, x2, x3, x4, x5, x6, x7) & (1u8 << 4u8) != 0) == x3,
        (pack_bits(x0, x1, x2, x3, x4, x5, x6, x7) & (1u8 << 3u8) != 0) == x4,
        (pack_bits(x0, x1, x2, x3, x4, x5, x6, x7) & (1u8 << 2u8) != 0) == x5,
        (pack_bits(x0, x1, x2, x3, x4, x5, x6, x7) & (1u8 << 1u8) != 0) == x6,
        (pack_bits(x0, x1, x2, x3, x4, x5, x6, x7) & (1u8 << 0u8) != 0) == x7,
{
    assert({
        let b = (if x0 { 1u8 << 7u8 } else { 0u8 }) | (if x1 { 1u8 << 6u8 } else { 0u8 }) | (if x2 { 1u8 << 5u8 } else { 0u8 })
            | (if x3 { 1u8 << 4u8 } else { 0u8 }) | (if x4 { 1u8 << 3u8 } else { 0u8 }) | (if x5 { 1u8 << 2u8 } else { 0u8 })
            | (if x6 { 1u8 << 1u8 } else { 0u8 }) | (if x7 { 1u8 << 0u8 } else { 0u8 });
        &&& (b & (1u8 << 7u8) != 0) == x0
        &&& (b & (1u8 << 6u8) != 0) == x1
        &&& (b & (1u8 << 5u8) != 0) == x2
        &&& (b & (1u8 << 4u8) != 0) == x3
        &&& (b & (1u8 << 3u8) != 0) == x4
        &&& (b & (1u8 << 2u8) != 0) == x5
        &&& (b & (1u8 << 1u8) != 0) == x6
        &&& (b & (1u8 << 0u8) != 0) == x7
    }) by (bit_vector);
}

impl Canvas {
    /// The bit of pixel position `(x, y)` in a bitmap on which exactly the
    /// pixels where `painted` holds are foreground. Positions beyond the
    /// width are background.
    pub open spec fn bit_from_pixels(
        width: int,
        fg: bool,
        bg: bool,
        painted: spec_fn(int, int) -> bool,
        x: int,
        y: int,
    ) -> bool {
        if x < width && painted(x, y) {
            fg
        } else {
            bg
        }
    }

    /// Byte `i` of the buffer of a canvas on which exactly the pixels where
    /// `painted` holds are foreground.
    pub open spec fn byte_from_pixels(width: int, color: Color, painted: spec_fn(int, int) -> bool, i: int) -> u8 {
        match color {
            Color::Bitmap(fg, bg) => {
                let stride = color.row_bytes(width);
                let y = i / stride;
                let x = (i % stride) * 8;
                pack_bits(
                    Canvas::bit_from_pixels(width, fg, bg, painted, x, y),
                    Canvas::bit_from_pixels(width, fg, bg, painted, x + 1, y),
                    Canvas::bit_from_pixels(width, fg, bg, painted, x + 2, y),
                    Canvas::bit_from_pixels(width, fg, bg, painted, x + 3, y),
                    Canvas::bit_from_pixels(width, fg, bg, painted, x + 4, y),
                    Canvas::bit_from_pixels(width, fg, bg, painted, x + 5, y),
                    Canvas::bit_from_pixels(width, fg, bg, painted, x + 6, y),
                    Canvas::bit_from_pixels(width, fg, bg, painted, x + 7, y),
                )
            },
            Color::Grayscale(fg, bg) => if painted(i % width, i / width) {
                fg
            } else {
                bg
            },
            Color::Rgb(fg, bg) => if painted((i / 3) % width, (i / 3) / width) {
                fg[i % 3]
            } else {
                bg[i % 3]
            },
            Color::Rgba(fg, bg) => if painted((i / 4) % width, (i / 4) / width) {
                fg[i % 4]
            } else {
                bg[i % 4]
            },
        }
    }

    /// The canvas on which exactly the pixels where `painted` holds are
    /// foreground and all others background.
    pub open spec fn from_pixels(width: int, height: int, color: Color, painted: spec_fn(int, int) -> bool) -> Canvas {
        Canvas {
            width,
            height,
            color,
            bytes: Seq::new(
                color.buffer_len(width, height) as nat,
                |i: int| Canvas::byte_from_pixels(width, color, painted, i),
            ),
        }
    }

    /// A canvas with positive dimensions has at least one byte for each row.
    pub proof fn lemma_buffer_len_positive(width: int, height: int, color: Color)
        requires
            1 <= width,
            1 <= height,
        ensures
            1 <= color.row_bytes(width),
            height <= color.buffer_len(width, height),
    {
        assert(height <= width * height) by (nonlinear_arith)
            requires
                1 <= width,
                1 <= height,
        ;
        let stride = color.row_bytes(width);
        assert(height <= height * stride) by (nonlinear_arith)
            requires
                1 <= stride,
                1 <= height,
        ;
    }

    /// Reading a pixel of `from_pixels` gives the foreground value where
    /// `painted` holds inside the canvas, and the background value elsewhere.
    pub proof fn lemma_from_pixels_reads(
        width: int,
        height: int,
        color: Color,
        painted: spec_fn(int, int) -> bool,
        x: int,
        y: int,
    )
        requires
            1 <= width,
            1 <= height,
            Canvas::from_pixels(width, height, color, painted).holds(x, y),
        ensures
            Canvas::from_pixels(width, height, color, painted).wf(),
            Canvas::from_pixels(width, height, color, painted).pixel(x, y) == color.value(
                x < width && painted(x, y),
            ),
    {
        let c = Canvas::from_pixels(width, height, color, painted);
        Canvas::lemma_buffer_len_positive(width, height, color);
        c.lemma_pixel_in_buffer(x, y);
        let i = c.pixel_index(x, y);
        match color {
            Color::Bitmap(fg, bg) => {
                let stride = color.row_bytes(width);
                lemma_cell_of_index(x / 8, y, stride);
                let base = (x / 8) * 8;
                lemma_bits_of_pack(
                    Canvas::bit_from_pixels(width, fg, bg, painted, base, y),
                    Canvas::bit_from_pixels(width, fg, bg, painted, base + 1, y),
                    Canvas::bit_from_pixels(width, fg, bg, painted, base + 2, y),
                    Canvas::bit_from_pixels(width, fg, bg, painted, base + 3, y),
                    Canvas::bit_from_pixels(width, fg, bg, painted, base + 4, y),
                    Canvas::bit_from_pixels(width, fg, bg, painted, base + 5, y),
                    Canvas::bit_from_pixels(width, fg, bg, painted, base + 6, y),
                    Canvas::bit_from_pixels(width, fg, bg, painted, base + 7, y),
                );
                assert(x == base + x % 8);
                assert(bit_shift(x) == 7 - x % 8);
            },
            Color::Grayscale(_, _) => {
                lemma_cell_of_index(x, y, width);
            },
            Color::Rgb(fg, bg) => {
                lemma_cell_of_index(x, y, width);
                if painted(x, y) {
                    assert(c.pixel(x, y)->Rgb_0 =~= fg);
                } else {
                    assert(c.pixel(x, y)->Rgb_0 =~= bg);
                }
            },
            Color::Rgba(fg, bg) => {
                lemma_cell_of_index(x, y, width);
                if painted(x, y) {
                    assert(c.pixel(x, y)->Rgba_0 =~= fg);
                } else {
                    assert(c.pixel(x, y)->Rgba_0 =~= bg);
                }
            },
        }
    }

    /// A canvas is `from_pixels` of a predicate as soon as each of its pixel
    /// positions reads as that predicate says: the pixels fix every byte.
    pub proof fn lemma_pixels_fix_bytes(self, painted: spec_fn(int, int) -> bool)
        requires
            self.wf(),
            forall|x: int, y: int|
                self.holds(x, y) ==> #[trigger] self.pixel(x, y) == self.color.value(
                    x < self.width && painted(x, y),
                ),
        ensures
            self == Canvas::from_pixels(self.width, self.height, self.color, painted),
    {
        let target = Canvas::from_pixels(self.width, self.height, self.color, painted);
        Canvas::lemma_buffer_len_positive(self.width, self.height, self.color);
        assert forall|i: int| 0 <= i < self.bytes.len() implies self.bytes[i] == target.bytes[i] by {
            self.lemma_byte_from_pixels(painted, i);
        }
        assert(self.bytes =~= target.bytes);
    }

    proof fn lemma_byte_from_pixels(self, painted: spec_fn(int, int) -> bool, i: int)
        requires
            self.wf(),
            forall|x: int, y: int|
                self.holds(x, y) ==> #[trigger] self.pixel(x, y) == self.color.value(
                    x < self.width && painted(x, y),
                ),
            0 <= i < self.bytes.len(),
        ensures
            self.bytes[i] == Canvas::byte_from_pixels(self.width, self.color, painted, i),
    {
        Canvas::lemma_buffer_len_positive(self.width, self.height, self.color);
        let w = self.width;
        match self.color {
            Color::Bitmap(fg, bg) => {
                let stride = self.color.row_bytes(w);
                lemma_index_to_cell(i, stride);
                assert(stride * self.height == self.height * stride) by (nonlinear_arith);
                lemma_index_row_in_grid(i, stride, self.height);
                let y = i / stride;
                let base = (i % stride) * 8;
                assert forall|k: int| 0 <= k < 8 implies (self.bytes[i] & #[trigger] bit_mask(base + k) != 0)
                    == Canvas::bit_from_pixels(w, fg, bg, painted, base + k, y) by {
                    assert(self.holds(base + k, y));
                    assert(self.pixel_index(base + k, y) == i);
                    assert(self.pixel(base + k, y) == self.color.value(
                        base + k < w && painted(base + k, y),
                    ));
                }
                assert(bit_mask(base + 0) == 1u8 << 7u8);
                assert(bit_mask(base + 1) == 1u8 << 6u8);
                assert(bit_mask(base + 2) == 1u8 << 5u8);
                assert(bit_mask(base + 3) == 1u8 << 4u8);
                assert(bit_mask(base + 4) == 1u8 << 3u8);
                assert(bit_mask(base + 5) == 1u8 << 2u8);
                assert(bit_mask(base + 6) == 1u8 << 1u8);
                assert(bit_mask(base + 7) == 1u8 << 0u8);
                lemma_pack_of_bits(self.bytes[i]);
            },
            Color::Grayscale(_, _) => {
                lemma_index_to_cell(i, w);
                lemma_index_row_in_grid(i, w, self.height);
                assert(self.holds(i % w, i / w));
                assert(self.pixel_index(i % w, i / w) == i);
                assert(self.pixel(i % w, i / w) == self.color.value(
                    i % w < w && painted(i % w, i / w),
                ));
            },
            Color::Rgb(fg, bg) => {
                let p = i / 3;
                lemma_index_to_cell(p, w);
                lemma_index_row_in_grid(p, w, self.height);
                assert(self.holds(p % w, p / w));
                assert(self.pixel_index(p % w, p / w) == p * 3);
                let v = self.pixel(p % w, p / w);
                assert(v == self.color.value(p % w < w && painted(p % w, p / w)));
                assert(v->Rgb_0[i % 3] == self.bytes[i]);
            },
            Color::Rgba(fg, bg) => {
                let p = i / 4;
                lemma_index_to_cell(p, w);
                lemma_index_row_in_grid(p, w, self.height);
                assert(self.holds(p % w, p / w));
                assert(self.pixel_index(p % w, p / w) == p * 4);
                let v = self.pixel(p % w, p / w);
                assert(v == self.color.value(p % w < w && painted(p % w, p / w)));
                assert(v->Rgba_0[i % 4] == self.bytes[i]);
            },
        }
    }
}

} // verus!
