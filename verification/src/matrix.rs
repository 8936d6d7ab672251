//! The module matrix of a QR code: a square grid of dark and light cells.

use vstd::prelude::*;

use crate::layout::lemma_cell_in_grid;

verus! {

/// What a module matrix holds: its side and its cells, row after row.
pub struct Modules {
    pub side: int,
    pub cells: Seq<bool>,
}

impl Modules {
    /// The grid is square and has at least one cell.
    pub open spec fn wf(self) -> bool {
        &&& 1 <= self.side
        &&& self.cells.len() == self.side * self.side
    }

    /// Whether column `x` of row `y` is dark. Outside the grid nothing is dark.
    pub open spec fn is_dark(self, x: int, y: int) -> bool {
        0 <= x < self.side && 0 <= y < self.side && self.cells[y * self.side + x]
    }
}

/// A square grid of modules, each dark or light. Column `x` grows to the
/// right and row `y` grows downwards from the top left corner.
#[derive(Debug, Clone)]
pub struct ModuleMatrix {
    size: usize,
    cells: Vec<bool>,
}

impl View for ModuleMatrix {
    type V = Modules;

    closed spec fn view(&self) -> Modules {
        Modules { side: self.size as int, cells: self.cells@ }
    }
}

impl ModuleMatrix {
    /// Well-formedness: see [`Modules::wf`].
    pub open spec fn wf(&self) -> bool {
        self@.wf()
    }

    /// Builds a matrix of side `size` from its cells, given row after row.
    /// Returns `None` unless `size` is at least one and there are `size * size` cells.
    pub fn new(size: usize, cells: Vec<bool>) -> (r: Option<ModuleMatrix>)
        ensures
            r is Some <==> size >= 1 && cells@.len() == size * size,
            r matches Some(matrix) ==> matrix.wf() && matrix@ == (Modules {
                side: size as int,
                cells: cells@,
            }),
    {
        if size == 0 {
            return None;
        }
        assert(cells@.len() == cells.len() <= usize::MAX);
        match size.checked_mul(size) {
            Some(count) => {
                if cells.len() == count {
                    Some(ModuleMatrix { size, cells })
                } else {
                    None
                }
            },
            None => None,
        }
    }

    /// The number of modules along one side.
    pub fn size(&self) -> (n: usize)
        ensures
            n == self@.side,
    {
        self.size
    }

    /// Whether the module in column `x` of row `y` is dark. Outside the grid
    /// every module is light.
    pub fn get_module(&self, x: usize, y: usize) -> (dark: bool)
        requires
            self.wf(),
        ensures
            dark == self@.is_dark(x as int, y as int),
    {
        if x < self.size && y < self.size {
            proof {
                lemma_cell_in_grid(x as int, y as int, self.size as int, self.size as int);
                assert(self.cells@.len() == self.cells.len() <= usize::MAX);
            }
            self.cells[y * self.size + x]
        } else {
            false
        }
    }
}

} // verus!
