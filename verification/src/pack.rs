//! The packer: composites the tiles into the canvas.

use vstd::prelude::*;
use vstd::arithmetic::div_mod::{
    lemma_fundamental_div_mod,
    lemma_fundamental_div_mod_converse,
    lemma_mod_pos_bound,
};
use crate::color::Color;
use crate::grid::{Grid, PixelGrid, grids};
use crate::layout::{
    canvas_dimensions,
    canvas_size,
    fits,
    lemma_canvas_aligned,
    lemma_canvas_holds_all,
};

verus! {

/// A square grid of `tile_size` pixels a side.
pub open spec fn is_tile(g: Grid, tile_size: nat) -> bool {
    g.wf() && g.width == tile_size && g.height == tile_size
}

/// The canvas of the given dimensions after the first `placed` tiles have
/// been laid down: the canvas is a grid of cells of `tile_size` pixels, the
/// cells are numbered row by row from the top left, cell `k` shows tile `k`
/// for every `k < placed`, and every other pixel is empty.
pub open spec fn composed(
    tiles: Seq<Grid>,
    tile_size: nat,
    width: nat,
    height: nat,
    placed: nat,
) -> Grid {
    let t = tile_size as int;
    Grid {
        width,
        height,
        rows: Seq::new(
            height,
            |y: int|
                Seq::new(
                    width,
                    |x: int|
                        {
                            let k = (y / t) * (width as int / t) + x / t;
                            if k < placed {
                                tiles[k].rows[y % t][x % t]
                            } else {
                                Color::transparent()
                            }
                        },
                ),
        ),
    }
}

/// The packed canvas: dimensions as the search finds them, and every tile in
/// its cell.
pub open spec fn packed(tiles: Seq<Grid>, tile_size: nat) -> Grid {
    let size = canvas_size(tiles.len(), tile_size);
    composed(tiles, tile_size, size.0 as nat, size.1 as nat, tiles.len())
}

/// The pixel `(px, py)` of a canvas `cols` cells wide lies in the cell with
/// number `row * cols + col` exactly when it lies in the square of that cell,
/// and then its place within the cell is its offset from the square's corner.
proof fn lemma_cell(t: int, cols: int, col: int, row: int, px: int, py: int)
    requires
        t > 0,
        0 <= col < cols,
        0 <= row,
        0 <= px < cols * t,
        0 <= py,
    ensures
        ((py / t) * cols + px / t == row * cols + col) <==> (col * t <= px < col * t + t && row * t
            <= py < row * t + t),
        (col * t <= px < col * t + t && row * t <= py < row * t + t) ==> px % t == px - col * t
            && py % t == py - row * t,
{
    let a = px / t;
    let b = py / t;
    lemma_fundamental_div_mod(px, t);
    lemma_fundamental_div_mod(py, t);
    lemma_mod_pos_bound(px, t);
    lemma_mod_pos_bound(py, t);
    assert(0 <= a < cols && 0 <= b) by (nonlinear_arith)
        requires
            t > 0,
            px == t * a + px % t,
            py == t * b + py % t,
            0 <= px % t < t,
            0 <= py % t < t,
            0 <= px < cols * t,
            0 <= py,
    ;
    if col * t <= px < col * t + t && row * t <= py < row * t + t {
        lemma_fundamental_div_mod_converse(px, t, col, px - col * t);
        lemma_fundamental_div_mod_converse(py, t, row, py - row * t);
    }
    if b * cols + a == row * cols + col {
        lemma_fundamental_div_mod_converse(b * cols + a, cols, b, a);
        lemma_fundamental_div_mod_converse(row * cols + col, cols, row, col);
        assert(col * t <= px < col * t + t && row * t <= py < row * t + t) by (nonlinear_arith)
            requires
                a == col,
                b == row,
                px == t * a + px % t,
                py == t * b + py % t,
                0 <= px % t < t,
                0 <= py % t < t,
        ;
    }
}

/// Every tile stands whole in a cell of its own: pixel `(x, y)` of tile `k`
/// is the pixel at the same offset in cell `k` of the packed canvas, that
/// cell lies inside the canvas, and no other tile shares it.
pub proof fn lemma_packed_shows_tile(tiles: Seq<Grid>, tile_size: nat, k: int, x: int, y: int)
    requires
        tile_size > 0,
        0 <= k < tiles.len(),
        0 <= x < tile_size,
        0 <= y < tile_size,
    ensures
        ({
            let t = tile_size as int;
            let canvas = packed(tiles, tile_size);
            let cols = canvas.width as int / t;
            let px = (k % cols) * t + x;
            let py = (k / cols) * t + y;
            &&& cols > 0
            &&& 0 <= px < canvas.width
            &&& 0 <= py < canvas.height
            &&& (py / t) * cols + px / t == k
            &&& canvas.at(px, py) == tiles[k].at(x, y)
        }),
{
    let t = tile_size as int;
    let n = tiles.len();
    lemma_canvas_aligned(n, tile_size);
    lemma_canvas_holds_all(n, tile_size);
    let (width, height) = canvas_size(n, tile_size);
    let cols = width / t;
    let cell_rows = height / t;
    lemma_fundamental_div_mod(width, t);
    lemma_fundamental_div_mod(height, t);
    assert(cols > 0) by (nonlinear_arith)
        requires
            cols * cell_rows >= 1,
            width == t * cols,
            width >= 0,
            t > 0,
    ;
    let col = k % cols;
    let row = k / cols;
    lemma_fundamental_div_mod(k, cols);
    lemma_mod_pos_bound(k, cols);
    let px = col * t + x;
    let py = row * t + y;
    assert(0 <= row < cell_rows && 0 <= px < width && 0 <= py < height) by (nonlinear_arith)
        requires
            k == cols * row + col,
            0 <= k < cols * cell_rows,
            0 <= col < cols,
            width == t * cols,
            height == t * cell_rows,
            px == col * t + x,
            py == row * t + y,
            0 <= x < t,
            0 <= y < t,
    ;
    lemma_cell(t, cols, col, row, px, py);
    assert(row * cols + col == k) by (nonlinear_arith)
        requires
            k == cols * row + col,
    ;
}

/// Packs the tiles into one canvas.
///
/// The canvas has the dimensions that [`canvas_dimensions`] gives for the
/// number of tiles. The tiles are laid down in their order, left to right,
/// starting a new row of cells whenever the previous one is full; each tile
/// overwrites the pixels of its cell. Pixels that no tile covers are empty.
pub fn pack(tiles: &Vec<PixelGrid>, tile_size: u32) -> (canvas: PixelGrid)
    requires
        tile_size > 0,
        forall|k: int| 0 <= k < tiles@.len() ==> is_tile((#[trigger] tiles@[k])@, tile_size as nat),
        fits(tiles@.len(), tile_size as nat),
    ensures
        canvas@ == packed(grids(tiles@), tile_size as nat),
        canvas@.width % (tile_size as nat) == 0,
        canvas@.height % (tile_size as nat) == 0,
        (canvas@.width / (tile_size as nat)) * (canvas@.height / (tile_size as nat)) >= tiles@.len(),
{
    let ghost all = grids(tiles@);
    let ghost t = tile_size as int;
    let (width, height) = canvas_dimensions(tiles.len(), tile_size);
    let ghost cols = width as int / t;
    let ghost cell_rows = height as int / t;
    proof {
        lemma_fundamental_div_mod(width as int, t);
        lemma_fundamental_div_mod(height as int, t);
        assert(width == cols * t && height == cell_rows * t) by (nonlinear_arith)
            requires
                width == t * cols + 0,
                height == t * cell_rows + 0,
        ;
    }
    let mut canvas = PixelGrid::new(width, height);
    let mut x: u32 = 0;
    let mut y: u32 = 0;
    let ghost mut col: int = 0;
    let ghost mut row: int = 0;
    proof {
        assert(canvas@ =~~= composed(all, tile_size as nat, width as nat, height as nat, 0));
    }
    let mut i: usize = 0;
    while i < tiles.len()
        invariant
            i <= tiles@.len(),
            all == grids(tiles@),
            t == tile_size,
            t > 0,
            forall|k: int|
                0 <= k < tiles@.len() ==> is_tile((#[trigger] tiles@[k])@, tile_size as nat),
            width == cols * t,
            height == cell_rows * t,
            cols == width as int / t,
            cols * cell_rows >= tiles@.len(),
            i == row * cols + col,
            0 <= col <= cols,
            0 <= row,
            x == col * t,
            y == row * t,
            canvas@ == composed(all, tile_size as nat, width as nat, height as nat, i as nat),
        decreases tiles@.len() - i,
    {
        proof {
            assert(cols > 0) by (nonlinear_arith)
                requires
                    cols * cell_rows >= 1,
                    cols >= 0,
            ;
        }
        if x == width {
            proof {
                assert(col == cols) by (nonlinear_arith)
                    requires
                        col * t == cols * t,
                        t > 0,
                ;
                assert((row + 1) * cols + 0 == row * cols + cols) by (nonlinear_arith);
                assert(row + 1 < cell_rows && (row + 1) * t + t <= cell_rows * t)
                    by (nonlinear_arith)
                    requires
                        (row + 1) * cols < cols * cell_rows,
                        cols > 0,
                        t > 0,
                ;
                assert((row + 1) * t == row * t + t) by (nonlinear_arith);
                row = row + 1;
                col = 0;
            }
            y += tile_size;
            x = 0;
        }
        proof {
            assert(col < cols) by {
                if col == cols {
                    assert(col * t == cols * t);
                }
            }
            assert(row < cell_rows && row * t + t <= cell_rows * t && col * t + t <= cols * t)
                by (nonlinear_arith)
                requires
                    row * cols + col < cols * cell_rows,
                    0 <= col < cols,
                    0 <= row,
                    t > 0,
            ;
        }
        let tile = &tiles[i];
        canvas.overlay(tile, x, y);
        proof {
            let after = composed(all, tile_size as nat, width as nat, height as nat, (i + 1) as nat);
            canvas.lemma_view_wf();
            assert(canvas@.rows.len() == after.rows.len());
            assert forall|py: int| 0 <= py < height implies canvas@.rows[py] =~= after.rows[py] by {
                assert forall|px: int| 0 <= px < width implies canvas@.rows[py][px]
                    == after.rows[py][px] by {
                    lemma_cell(t, cols, col, row, px, py);
                    assert(all[i as int] == tile@);
                }
            }
            assert(canvas@ =~~= after);
            assert((col + 1) * t == col * t + t) by (nonlinear_arith);
            col = col + 1;
        }
        x += tile_size;
        i += 1;
    }
    proof {
        assert(canvas@ == packed(all, tile_size as nat));
        assert(cols * cell_rows == cell_rows * cols) by (nonlinear_arith);
    }
    canvas
}

} // verus!
