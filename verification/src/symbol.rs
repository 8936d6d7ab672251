//! The QR symbol encoder: from a payload to a module matrix.

use vstd::pervasive::unreached;
use vstd::prelude::*;

use crate::layout::lemma_cell_in_grid;
use crate::matrix::ModuleMatrix;
use crate::Error;

verus! {

/// How much of a QR code may be damaged before it stops being readable.
#[derive(Debug, Clone, Copy, PartialEq, Eq)]
pub enum QrCodeEcc {
    /// About 7% of the codewords can be restored.
    Low,
    /// About 15% of the codewords can be restored.
    Medium,
    /// About 25% of the codewords can be restored.
    Quartile,
    /// About 30% of the codewords can be restored.
    High,
}

/// A QR symbol as `qrcodegen` built it: a square grid of modules that is
/// read through [`symbol_size`] and [`symbol_module`].
#[verifier::external_body]
pub struct Symbol {
    inner: qrcodegen::QrCode,
}

/// `qrcodegen::DataTooLong`, the error of the symbol encoder. Nothing is
/// read from it.
#[verifier::external_type_specification]
#[verifier::external_body]
pub struct ExDataTooLong(qrcodegen::DataTooLong);

/// The number of modules along one side of a symbol.
pub uninterp spec fn symbol_side(symbol: Symbol) -> int;

/// The modules of a symbol, row after row from the top, each row from the
/// left; `true` is dark.
pub uninterp spec fn symbol_cells(symbol: Symbol) -> Seq<bool>;

/// The modules of the symbol that `qrcodegen` builds for a payload in byte
/// mode at a given level, row after row, or `None` where the payload fits no
/// version of the symbol at that level.
pub uninterp spec fn encoded_cells(data: Seq<u8>, level: QrCodeEcc) -> Option<Seq<bool>>;

/// The modules of the QR code of a payload, row after row, or `None` where
/// there is none: the payload fits no version of the symbol at that level,
/// or it is so long that its bits cannot be counted in `isize`.
pub open spec fn payload_cells(data: Seq<u8>, level: QrCodeEcc) -> Option<Seq<bool>> {
    if data.len() * 8 <= isize::MAX {
        encoded_cells(data, level)
    } else {
        None
    }
}

/// Calls `qrcodegen::QrCode::size`, which returns the side of the symbol,
/// between 21 and 177 modules. The symbol has that many rows of that many
/// modules.
#[verifier::external_body]
fn symbol_size(symbol: &Symbol) -> (side: i32)
    ensures
        side == symbol_side(*symbol),
        21 <= side <= 177,
        symbol_cells(*symbol).len() == side * side,
{
    symbol.inner.size()
}

/// Calls `qrcodegen::QrCode::get_module`, which returns whether the module
/// in column `x` of row `y` is dark, and `false` for coordinates outside the
/// symbol.
#[verifier::external_body]
fn symbol_module(symbol: &Symbol, x: i32, y: i32) -> (dark: bool)
    ensures
        dark == (0 <= x < symbol_side(*symbol) && 0 <= y < symbol_side(*symbol) && symbol_cells(
            *symbol,
        )[y * symbol_side(*symbol) + x]),
{
    symbol.inner.get_module(x, y)
}

/// Calls `qrcodegen::QrCode::encode_binary`, which encodes the payload in
/// byte mode into the smallest version that holds it. The symbol is a function
/// of the payload and the level alone. The call fails where the payload fits
/// no version at that level. It first stores the payload bit by bit, so the
/// number of bits has to fit a vector.
#[verifier::external_body]
fn encode_binary(data: &[u8], level: QrCodeEcc) -> (r: Result<Symbol, qrcodegen::DataTooLong>)
    requires
        data@.len() * 8 <= isize::MAX,
    ensures
        match r {
            Ok(symbol) => encoded_cells(data@, level) == Some(symbol_cells(symbol)),
            Err(_) => encoded_cells(data@, level) is None,
        },
{
    let ecl = match level {
        QrCodeEcc::Low => qrcodegen::QrCodeEcc::Low,
        QrCodeEcc::Medium => qrcodegen::QrCodeEcc::Medium,
        QrCodeEcc::Quartile => qrcodegen::QrCodeEcc::Quartile,
        QrCodeEcc::High => qrcodegen::QrCodeEcc::High,
    };
    Ok(Symbol { inner: qrcodegen::QrCode::encode_binary(data, ecl)? })
}

/// Copies the modules of a symbol into a matrix, row by row.
fn read_symbol(symbol: &Symbol) -> (matrix: ModuleMatrix)
    ensures
        matrix.wf(),
        matrix@.side == symbol_side(*symbol),
        matrix@.cells == symbol_cells(*symbol),
        21 <= matrix@.side <= 177,
{
    let side: i32 = symbol_size(symbol);
    let mut cells: Vec<bool> = Vec::new();
    let mut y: i32 = 0;
    while y < side
        invariant
            side == symbol_side(*symbol),
            21 <= side <= 177,
            symbol_cells(*symbol).len() == side * side,
            0 <= y <= side,
            cells@.len() == y * side,
            forall|i: int| 0 <= i < cells@.len() ==> cells@[i] == symbol_cells(*symbol)[i],
        decreases side - y,
    {
        let mut x: i32 = 0;
        while x < side
            invariant
                side == symbol_side(*symbol),
                21 <= side <= 177,
                symbol_cells(*symbol).len() == side * side,
                0 <= y < side,
                0 <= x <= side,
                cells@.len() == y * side + x,
                forall|i: int| 0 <= i < cells@.len() ==> cells@[i] == symbol_cells(*symbol)[i],
            decreases side - x,
        {
            proof {
                lemma_cell_in_grid(x as int, y as int, side as int, side as int);
            }
            cells.push(symbol_module(symbol, x, y));
            x = x + 1;
        }
        assert((y + 1) * side == y * side + side) by (nonlinear_arith);
        y = y + 1;
    }
    assert(cells@ =~= symbol_cells(*symbol));
    match ModuleMatrix::new(side as usize, cells) {
        Some(matrix) => matrix,
        None => unreached(),
    }
}

/// Encodes a payload into the module matrix of its QR code.
pub fn encode_payload(content: &[u8], level: QrCodeEcc) -> (r: Result<ModuleMatrix, Error>)
    ensures
        match r {
            Ok(matrix) => {
                &&& matrix.wf()
                &&& 21 <= matrix@.side <= 177
                &&& payload_cells(content@, level) == Some(matrix@.cells)
            },
            Err(e) => e == Error::PayloadTooLarge && payload_cells(content@, level) is None,
        },
{
    if content.len() > isize::MAX as usize / 8 {
        return Err(Error::PayloadTooLarge);
    }
    match encode_binary(content, level) {
        Ok(symbol) => Ok(read_symbol(&symbol)),
        Err(_) => Err(Error::PayloadTooLarge),
    }
}

} // verus!
