//! Render QR codes into PNG images.
//!
//! A payload is encoded into a square matrix of dark and light modules, the
//! matrix is painted on a canvas in one of four color encodings, and the
//! canvas is written out as a PNG file.

pub mod canvas;
mod encoder;
pub mod image;
pub mod layout;
pub mod matrix;
pub mod raster;
mod symbol;

pub use canvas::{bit_mask, bit_shift, pack_bits, Canvas};
pub use encoder::png_encoding;
pub use image::{Color, ColorValue, PixelLayout, Png};
pub use matrix::{ModuleMatrix, Modules};
pub use raster::{canvas_fits, canvas_side, covered, module_of, rasterize, rendering, side_in_pixels};
pub use symbol::{encode_payload, encoded_cells, payload_cells, QrCodeEcc};

use vstd::prelude::*;

verus! {

/// The ways in which building or rendering a QR code can fail.
#[derive(Debug, Clone, Copy, PartialEq, Eq)]
pub enum Error {
    /// The payload does not fit any QR code version at the requested level.
    PayloadTooLarge,
    /// A zoom factor or a canvas dimension of zero was requested.
    InvalidConfiguration,
    /// The image encoder could not serialize the pixel buffer: the image is
    /// larger than the encoder takes, or the encoder wrote no file.
    EncodingFailure,
}

/// What a QR code holds: its modules and how large they are to be drawn.
pub struct QrCodeView {
    pub modules: Modules,
    pub zoom: int,
    pub margin: int,
}

impl QrCodeView {
    /// The matrix is well-formed and a module is at least one pixel wide.
    pub open spec fn wf(self) -> bool {
        &&& self.modules.wf()
        &&& 1 <= self.zoom <= u32::MAX
        &&& 0 <= self.margin <= u32::MAX
    }

    /// The side of the image in pixels.
    pub open spec fn side(self) -> int {
        canvas_side(self.modules, self.zoom, self.margin)
    }

    /// The canvas that shows this QR code in the given colors.
    pub open spec fn canvas(self, color: Color) -> Canvas {
        rendering(self.modules, self.zoom, self.margin, color)
    }
}

/// A QR code, ready to be drawn at a chosen size.
#[derive(Debug, Clone)]
pub struct QrCode {
    modules: ModuleMatrix,
    zoom: u32,
    margin: u32,
}

impl View for QrCode {
    type V = QrCodeView;

    closed spec fn view(&self) -> QrCodeView {
        QrCodeView { modules: self.modules@, zoom: self.zoom as int, margin: self.margin as int }
    }
}

impl QrCode {
    /// Well-formedness: see [`QrCodeView::wf`].
    pub open spec fn wf(&self) -> bool {
        self@.wf()
    }

    /// Encodes `content` as a QR code at the given error-correction level.
    /// Every module is one pixel wide and there is no margin until
    /// [`QrCode::zoom`] and [`QrCode::margin`] say otherwise.
    pub fn new(content: &[u8], level: QrCodeEcc) -> (r: Result<QrCode, Error>)
        ensures
            match r {
                Ok(code) => {
                    &&& code.wf()
                    &&& payload_cells(content@, level) == Some(code@.modules.cells)
                    &&& 21 <= code@.modules.side <= 177
                    &&& code@.zoom == 1
                    &&& code@.margin == 0
                },
                Err(e) => e == Error::PayloadTooLarge && payload_cells(content@, level) is None,
            },
    {
        match encode_payload(content, level) {
            Ok(modules) => Ok(QrCode { modules, zoom: 1, margin: 0 }),
            Err(e) => Err(e),
        }
    }

    /// Sets the width of a module in pixels. Zero is rejected and leaves the
    /// QR code as it was.
    pub fn zoom(&mut self, zoom: u32) -> (r: Result<&mut Self, Error>)
        requires
            old(self).wf(),
        ensures
            zoom == 0 ==> r == Err::<&mut Self, Error>(Error::InvalidConfiguration) && *final(self) == *old(
                self,
            ),
            zoom >= 1 ==> r is Ok && r->Ok_0.wf() && r->Ok_0@ == (QrCodeView {
                zoom: zoom as int,
                ..old(self)@
            }) && *final(self) == *final(r->Ok_0),
    {
        if zoom == 0 {
            return Err(Error::InvalidConfiguration);
        }
        self.zoom = zoom;
        Ok(self)
    }

    /// Sets the width in pixels of the border around the modules.
    pub fn margin(&mut self, margin: u32) -> (r: &mut Self)
        requires
            old(self).wf(),
        ensures
            r.wf(),
            r@ == (QrCodeView { margin: margin as int, ..old(self)@ }),
            *final(self) == *final(r),
    {
        self.margin = margin;
        self
    }

    /// The module matrix of this QR code.
    pub fn modules(&self) -> (modules: &ModuleMatrix)
        ensures
            modules@ == self@.modules,
    {
        &self.modules
    }

    /// Draws the QR code in the given colors and encodes the image as a PNG
    /// file. An image that the image encoder does not take gives
    /// `EncodingFailure` before anything is drawn; every other image is
    /// encoded.
    pub fn generate(&self, color: Color) -> (r: Result<Vec<u8>, Error>)
        requires
            self.wf(),
        ensures
            r is Ok <==> self@.canvas(color).encodable(),
            r matches Ok(file) ==> self@.canvas(color).encoded() == Some(file@),
            r matches Err(e) ==> e == Error::EncodingFailure && self@.canvas(color).encoded() is None,
    {
        let side: usize = match side_in_pixels(&self.modules, self.zoom, self.margin) {
            Some(side) => side,
            None => { return Err(Error::EncodingFailure); },
        };
        if !color.can_encode(side, side) {
            return Err(Error::EncodingFailure);
        }
        rasterize(&self.modules, self.zoom, self.margin, color).encode()
    }
}

} // verus!
