//! Rasterization: from a module matrix to a painted canvas.

use vstd::pervasive::unreached;
use vstd::prelude::*;

use crate::canvas::Canvas;
use crate::image::{Color, Png};
use crate::layout::{lemma_cell_in_grid, lemma_cell_of_index, lemma_index_to_cell};
use crate::matrix::{ModuleMatrix, Modules};

verus! {

/// The side of the canvas, in pixels: every module is `zoom` pixels wide and
/// a border of `margin` pixels runs around the modules.
pub open spec fn canvas_side(modules: Modules, zoom: int, margin: int) -> int {
    modules.side * zoom + 2 * margin
}

/// The column (or row) of the module whose block holds pixel column (or row) `x`.
pub open spec fn module_of(zoom: int, margin: int, x: int) -> int {
    (x - margin) / zoom
}

/// Whether pixel `(x, y)` lies in the block of a dark module. The block of
/// module `(mx, my)` is the square of `zoom` by `zoom` pixels whose top left
/// corner is `(mx * zoom + margin, my * zoom + margin)`.
pub open spec fn covered(modules: Modules, zoom: int, margin: int, x: int, y: int) -> bool {
    x >= margin && y >= margin && modules.is_dark(module_of(zoom, margin, x), module_of(zoom, margin, y))
}

/// The canvas that shows a module matrix: the blocks of the dark modules are
/// foreground, everything else is background.
pub open spec fn rendering(modules: Modules, zoom: int, margin: int, color: Color) -> Canvas {
    Canvas::from_pixels(
        canvas_side(modules, zoom, margin),
        canvas_side(modules, zoom, margin),
        color,
        |x: int, y: int| covered(modules, zoom, margin, x, y),
    )
}

/// A pixel column belongs to module column `m` exactly if it is one of the
/// `zoom` columns that start at `m * zoom + margin`.
pub proof fn lemma_module_of(zoom: int, margin: int, x: int, m: int)
    requires
        zoom >= 1,
        x >= margin,
    ensures
        module_of(zoom, margin, x) == m <==> m * zoom + margin <= x < m * zoom + margin + zoom,
{
    let d = x - margin;
    lemma_index_to_cell(d, zoom);
    if m * zoom <= d < m * zoom + zoom {
        lemma_cell_of_index(d - m * zoom, m, zoom);
    }
}

/// Every pixel of the block of a module inside the matrix is covered exactly
/// if the module is dark, and no pixel outside all blocks is covered: the
/// margin stays background.
pub proof fn lemma_covered_blocks(modules: Modules, zoom: int, margin: int, x: int, y: int)
    requires
        modules.wf(),
        zoom >= 1,
        margin >= 0,
    ensures
        forall|mx: int, my: int|
            mx * zoom + margin <= x < mx * zoom + margin + zoom && my * zoom + margin <= y < my * zoom
                + margin + zoom && 0 <= mx < modules.side && 0 <= my < modules.side ==> covered(
                modules,
                zoom,
                margin,
                x,
                y,
            ) == #[trigger] modules.is_dark(mx, my),
        covered(modules, zoom, margin, x, y) ==> margin <= x < margin + modules.side * zoom && margin
            <= y < margin + modules.side * zoom,
{
    assert forall|mx: int, my: int|
        mx * zoom + margin <= x < mx * zoom + margin + zoom && my * zoom + margin <= y < my * zoom
            + margin + zoom && 0 <= mx < modules.side && 0 <= my < modules.side implies covered(
        modules,
        zoom,
        margin,
        x,
        y,
    ) == #[trigger] modules.is_dark(mx, my) by {
        assert(0 <= mx * zoom && 0 <= my * zoom) by (nonlinear_arith)
            requires
                0 <= mx,
                0 <= my,
                1 <= zoom,
        ;
        lemma_module_of(zoom, margin, x, mx);
        lemma_module_of(zoom, margin, y, my);
    }
    if covered(modules, zoom, margin, x, y) {
        let mx = module_of(zoom, margin, x);
        let my = module_of(zoom, margin, y);
        lemma_module_of(zoom, margin, x, mx);
        lemma_module_of(zoom, margin, y, my);
        lemma_cell_in_grid(0, mx, zoom, modules.side);
        lemma_cell_in_grid(0, my, zoom, modules.side);
        assert(zoom * modules.side == modules.side * zoom) by (nonlinear_arith);
    }
}

/// The rendering is a square of `canvas_side` pixels. In it every pixel of
/// the block of a dark module is foreground, every pixel of the block of a
/// light module is background, and so is every pixel of the margin.
pub proof fn lemma_rendering_shows_modules(
    modules: Modules,
    zoom: int,
    margin: int,
    color: Color,
    x: int,
    y: int,
)
    requires
        modules.wf(),
        zoom >= 1,
        margin >= 0,
        0 <= x < canvas_side(modules, zoom, margin),
        0 <= y < canvas_side(modules, zoom, margin),
    ensures
        rendering(modules, zoom, margin, color).wf(),
        rendering(modules, zoom, margin, color).width == canvas_side(modules, zoom, margin),
        rendering(modules, zoom, margin, color).height == canvas_side(modules, zoom, margin),
        rendering(modules, zoom, margin, color).holds(x, y),
        forall|mx: int, my: int|
            mx * zoom + margin <= x < mx * zoom + margin + zoom && my * zoom + margin <= y < my * zoom
                + margin + zoom && 0 <= mx < modules.side && 0 <= my < modules.side ==> rendering(
                modules,
                zoom,
                margin,
                color,
            ).pixel(x, y) == color.value(#[trigger] modules.is_dark(mx, my)),
        x < margin || y < margin || x >= margin + modules.side * zoom || y >= margin + modules.side * zoom
            ==> rendering(modules, zoom, margin, color).pixel(x, y) == color.background(),
{
    let side = canvas_side(modules, zoom, margin);
    let image = rendering(modules, zoom, margin, color);
    assert(1 <= modules.side * zoom) by (nonlinear_arith)
        requires
            1 <= modules.side,
            1 <= zoom,
    ;
    image.lemma_width_fits_row();
    Canvas::lemma_from_pixels_reads(
        side,
        side,
        color,
        |x: int, y: int| covered(modules, zoom, margin, x, y),
        x,
        y,
    );
    lemma_covered_blocks(modules, zoom, margin, x, y);
}

/// Where foreground and background are the same value, every pixel of the
/// rendering holds that value, whatever the modules are.
pub proof fn lemma_rendering_uniform(modules: Modules, zoom: int, margin: int, color: Color, x: int, y: int)
    requires
        modules.wf(),
        zoom >= 1,
        margin >= 0,
        color.foreground() == color.background(),
        rendering(modules, zoom, margin, color).holds(x, y),
    ensures
        rendering(modules, zoom, margin, color).pixel(x, y) == color.background(),
{
    let side = canvas_side(modules, zoom, margin);
    assert(1 <= modules.side * zoom) by (nonlinear_arith)
        requires
            1 <= modules.side,
            1 <= zoom,
    ;
    Canvas::lemma_from_pixels_reads(
        side,
        side,
        color,
        |x: int, y: int| covered(modules, zoom, margin, x, y),
        x,
        y,
    );
}

/// Whether pixel `(x, y)` has been painted once the pass, which takes the
/// modules column by column and the pixels of a block column by column,
/// stands before pixel `(px, py)` of the block of module `(col, row)`.
spec fn painted_before(
    modules: Modules,
    zoom: int,
    margin: int,
    col: int,
    row: int,
    px: int,
    py: int,
    x: int,
    y: int,
) -> bool {
    let mx = module_of(zoom, margin, x);
    let my = module_of(zoom, margin, y);
    covered(modules, zoom, margin, x, y) && (mx < col || (mx == col && (my < row || (my == row && (x < px || (x
        == px && y < py))))))
}

/// A covered pixel lies in the block of its module.
proof fn lemma_covered_in_block(modules: Modules, zoom: int, margin: int, x: int, y: int)
    requires
        modules.wf(),
        zoom >= 1,
        margin >= 0,
    ensures
        covered(modules, zoom, margin, x, y) ==> {
            &&& 0 <= module_of(zoom, margin, x) < modules.side
            &&& 0 <= module_of(zoom, margin, y) < modules.side
            &&& module_of(zoom, margin, x) * zoom + margin <= x < module_of(zoom, margin, x) * zoom + margin
                + zoom
            &&& module_of(zoom, margin, y) * zoom + margin <= y < module_of(zoom, margin, y) * zoom + margin
                + zoom
            &&& x < margin + modules.side * zoom
            &&& y < margin + modules.side * zoom
        },
{
    if covered(modules, zoom, margin, x, y) {
        lemma_module_of(zoom, margin, x, module_of(zoom, margin, x));
        lemma_module_of(zoom, margin, y, module_of(zoom, margin, y));
        lemma_covered_blocks(modules, zoom, margin, x, y);
    }
}

/// The side of the canvas that shows `matrix` at this zoom and margin, or
/// `None` where it does not fit `usize`.
pub fn side_in_pixels(matrix: &ModuleMatrix, zoom: u32, margin: u32) -> (side: Option<usize>)
    ensures
        match side {
            Some(side) => side == canvas_side(matrix@, zoom as int, margin as int),
            None => canvas_side(matrix@, zoom as int, margin as int) > usize::MAX,
        },
{
    let n: usize = matrix.size();
    proof {
        assert(0 <= n * zoom) by (nonlinear_arith)
            requires
                0 <= n,
                0 <= zoom,
        ;
    }
    let blocks: usize = match n.checked_mul(zoom as usize) {
        Some(blocks) => blocks,
        None => { return None; },
    };
    let border: usize = match (margin as usize).checked_mul(2) {
        Some(border) => border,
        None => { return None; },
    };
    blocks.checked_add(border)
}

/// Whether the canvas that shows `matrix` at this zoom and margin has a
/// buffer whose size fits in `usize`.
pub fn canvas_fits(matrix: &ModuleMatrix, zoom: u32, margin: u32, color: Color) -> (fits: bool)
    requires
        matrix.wf(),
        zoom >= 1,
    ensures
        fits == (color.buffer_len(
            canvas_side(matrix@, zoom as int, margin as int),
            canvas_side(matrix@, zoom as int, margin as int),
        ) <= usize::MAX),
{
    proof {
        let side = canvas_side(matrix@, zoom as int, margin as int);
        assert(1 <= matrix@.side * zoom) by (nonlinear_arith)
            requires
                1 <= matrix@.side,
                1 <= zoom,
        ;
        Canvas::lemma_buffer_len_positive(side, side, color);
    }
    match side_in_pixels(matrix, zoom, margin) {
        Some(side) => color.buffer_fits(side, side),
        None => false,
    }
}

/// Paints the blocks of the dark modules of `matrix` on a fresh canvas.
pub fn rasterize(matrix: &ModuleMatrix, zoom: u32, margin: u32, color: Color) -> (image: Png)
    requires
        matrix.wf(),
        zoom >= 1,
        color.buffer_len(
            canvas_side(matrix@, zoom as int, margin as int),
            canvas_side(matrix@, zoom as int, margin as int),
        ) <= usize::MAX,
    ensures
        image.wf(),
        image@ == rendering(matrix@, zoom as int, margin as int, color),
        image@.width == canvas_side(matrix@, zoom as int, margin as int),
        image@.height == canvas_side(matrix@, zoom as int, margin as int),
        image@.color == color,
        forall|x: int, y: int|
            image@.holds(x, y) ==> #[trigger] image@.pixel(x, y) == color.value(
                covered(matrix@, zoom as int, margin as int, x, y),
            ),
{
    let ghost modules = matrix@;
    let ghost z = zoom as int;
    let ghost g = margin as int;
    let n: usize = matrix.size();
    let zoom: usize = zoom as usize;
    let margin: usize = margin as usize;
    proof {
        let side = canvas_side(modules, z, g);
        assert(1 <= n * z) by (nonlinear_arith)
            requires
                1 <= n,
                1 <= z,
        ;
        Canvas::lemma_buffer_len_positive(side, side, color);
    }
    let side: usize = n * zoom + 2 * margin;
    let mut image: Png = match Png::new(side, side, color) {
        Ok(image) => image,
        Err(_) => unreached(),
    };
    proof {
        assert forall|x: int, y: int| image@.holds(x, y) implies #[trigger] image@.pixel(x, y) == color.value(
            painted_before(modules, z, g, 0, 0, 0, 0, x, y),
        ) by {
            Canvas::lemma_blank_reads_background(side as int, side as int, color, x, y);
        }
    }
    let mut col: usize = 0;
    while col < n
        invariant
            matrix.wf(),
            modules == matrix@,
            n == modules.side,
            z == zoom >= 1,
            g == margin,
            side == n * zoom + 2 * margin,
            col <= n,
            image.wf(),
            image@.width == side,
            image@.height == side,
            image@.color == color,
            forall|x: int, y: int|
                image@.holds(x, y) ==> #[trigger] image@.pixel(x, y) == color.value(
                    painted_before(modules, z, g, col as int, 0, 0, 0, x, y),
                ),
        decreases n - col,
    {
        let mut row: usize = 0;
        while row < n
            invariant
                matrix.wf(),
                modules == matrix@,
                n == modules.side,
                z == zoom >= 1,
                g == margin,
                side == n * zoom + 2 * margin,
                col < n,
                row <= n,
                image.wf(),
                image@.width == side,
                image@.height == side,
                image@.color == color,
                forall|x: int, y: int|
                    image@.holds(x, y) ==> #[trigger] image@.pixel(x, y) == color.value(
                        painted_before(modules, z, g, col as int, row as int, 0, 0, x, y),
                    ),
            decreases n - row,
        {
            proof {
                lemma_cell_in_grid(0, col as int, z, n as int);
                lemma_cell_in_grid(0, row as int, z, n as int);
                assert(z * n == n * z) by (nonlinear_arith);
            }
            if matrix.get_module(col, row) {
                let x_start: usize = col * zoom + margin;
                let y_start: usize = row * zoom + margin;
                let mut px: usize = x_start;
                proof {
                    assert forall|x: int, y: int| image@.holds(x, y) implies #[trigger] image@.pixel(x, y)
                        == color.value(
                        painted_before(modules, z, g, col as int, row as int, px as int, y_start as int, x, y),
                    ) by {
                        lemma_covered_in_block(modules, z, g, x, y);
                    }
                }
                while px < x_start + zoom
                    invariant
                        matrix.wf(),
                        modules == matrix@,
                        n == modules.side,
                        z == zoom >= 1,
                        g == margin,
                        side == n * zoom + 2 * margin,
                        col < n,
                        row < n,
                        modules.is_dark(col as int, row as int),
                        x_start == col * zoom + margin,
                        y_start == row * zoom + margin,
                        x_start + zoom <= side,
                        y_start + zoom <= side,
                        x_start <= px <= x_start + zoom,
                        image.wf(),
                        image@.width == side,
                        image@.height == side,
                        image@.color == color,
                        forall|x: int, y: int|
                            image@.holds(x, y) ==> #[trigger] image@.pixel(x, y) == color.value(
                                painted_before(
                                    modules,
                                    z,
                                    g,
                                    col as int,
                                    row as int,
                                    px as int,
                                    y_start as int,
                                    x,
                                    y,
                                ),
                            ),
                    decreases x_start + zoom - px,
                {
                    let mut py: usize = y_start;
                    while py < y_start + zoom
                        invariant
                            matrix.wf(),
                            modules == matrix@,
                            n == modules.side,
                            z == zoom >= 1,
                            g == margin,
                            side == n * zoom + 2 * margin,
                            col < n,
                            row < n,
                            modules.is_dark(col as int, row as int),
                            x_start == col * zoom + margin,
                            y_start == row * zoom + margin,
                            x_start + zoom <= side,
                            y_start + zoom <= side,
                            x_start <= px < x_start + zoom,
                            y_start <= py <= y_start + zoom,
                            image.wf(),
                            image@.width == side,
                            image@.height == side,
                            image@.color == color,
                            forall|x: int, y: int|
                                image@.holds(x, y) ==> #[trigger] image@.pixel(x, y) == color.value(
                                    painted_before(
                                        modules,
                                        z,
                                        g,
                                        col as int,
                                        row as int,
                                        px as int,
                                        py as int,
                                        x,
                                        y,
                                    ),
                                ),
                        decreases y_start + zoom - py,
                    {
                        let ghost before = image@;
                        image.set_color(px, py);
                        proof {
                            lemma_module_of(z, g, px as int, col as int);
                            lemma_module_of(z, g, py as int, row as int);
                            assert forall|x: int, y: int| image@.holds(x, y) implies #[trigger] image@.pixel(
                                x,
                                y,
                            ) == color.value(
                                painted_before(
                                    modules,
                                    z,
                                    g,
                                    col as int,
                                    row as int,
                                    px as int,
                                    py + 1,
                                    x,
                                    y,
                                ),
                            ) by {
                                if x != px || y != py {
                                    assert(image@.pixel(x, y) == before.pixel(x, y));
                                }
                            }
                        }
                        py = py + 1;
                    }
                    proof {
                        assert forall|x: int, y: int| image@.holds(x, y) implies #[trigger] image@.pixel(x, y)
                            == color.value(
                            painted_before(
                                modules,
                                z,
                                g,
                                col as int,
                                row as int,
                                px + 1,
                                y_start as int,
                                x,
                                y,
                            ),
                        ) by {
                            lemma_covered_in_block(modules, z, g, x, y);
                        }
                    }
                    px = px + 1;
                }
            }
            proof {
                assert forall|x: int, y: int| image@.holds(x, y) implies #[trigger] image@.pixel(x, y)
                    == color.value(painted_before(modules, z, g, col as int, row + 1, 0, 0, x, y)) by {
                    lemma_covered_in_block(modules, z, g, x, y);
                }
            }
            row = row + 1;
        }
        proof {
            assert forall|x: int, y: int| image@.holds(x, y) implies #[trigger] image@.pixel(x, y) == color.value(
                painted_before(modules, z, g, col + 1, 0, 0, 0, x, y),
            ) by {
                lemma_covered_in_block(modules, z, g, x, y);
            }
        }
        col = col + 1;
    }
    proof {
        assert forall|x: int, y: int| image@.holds(x, y) implies #[trigger] image@.pixel(x, y) == color.value(
            x < image@.width && covered(modules, z, g, x, y),
        ) by {
            lemma_covered_in_block(modules, z, g, x, y);
        }
        image@.lemma_pixels_fix_bytes(|x: int, y: int| covered(modules, z, g, x, y));
    }
    image
}

} // verus!
