//! The tile extractor: slices a grid into square tiles, row-major.

use vstd::prelude::*;
use vstd::arithmetic::div_mod::{lemma_fundamental_div_mod, lemma_fundamental_div_mod_converse};
use crate::error::{Axis, TilesetError};
use crate::grid::{Grid, PixelGrid, grids};

verus! {

/// Why `source` cannot be cut into tiles of `tile_size`, if it cannot: a zero
/// tile size is reported first, then the width, then the height.
pub open spec fn rejection(source: Grid, tile_size: nat) -> Option<TilesetError> {
    if tile_size == 0 {
        Some(TilesetError::InvalidTileSize)
    } else if source.width % tile_size != 0 {
        Some(TilesetError::DimensionMismatch { axis: Axis::Width })
    } else if source.height % tile_size != 0 {
        Some(TilesetError::DimensionMismatch { axis: Axis::Height })
    } else {
        None
    }
}

/// How many tiles of `tile_size` the source holds.
pub open spec fn tile_count(source: Grid, tile_size: nat) -> nat {
    (source.width / tile_size) * (source.height / tile_size)
}

/// The tile in column `col` of tile row `row`.
pub open spec fn tile_at(source: Grid, tile_size: nat, col: int, row: int) -> Grid {
    source.block(col * tile_size, row * tile_size, tile_size, tile_size)
}

/// All tiles of the source: tile rows top to bottom, and within a tile row
/// the tiles left to right.
pub open spec fn tiles_of(source: Grid, tile_size: nat) -> Seq<Grid> {
    let cols = source.width / tile_size;
    Seq::new(
        tile_count(source, tile_size),
        |k: int| tile_at(source, tile_size, k % (cols as int), k / (cols as int)),
    )
}

/// Every tile of a source is a well-formed square of the tile size.
pub proof fn lemma_tiles_are_tiles(source: Grid, tile_size: nat, k: int)
    requires
        0 <= k < tiles_of(source, tile_size).len(),
    ensures
        tiles_of(source, tile_size)[k].wf(),
        tiles_of(source, tile_size)[k].width == tile_size,
        tiles_of(source, tile_size)[k].height == tile_size,
{
}

/// Tile `col` of a row of `cols` tiles ends inside an extent of `cols * size`.
proof fn lemma_tile_inside(col: int, cols: int, size: int)
    requires
        0 <= col < cols,
        0 < size,
    ensures
        0 <= col * size,
        col * size + size <= cols * size,
{
    assert(0 <= col * size && col * size + size <= cols * size) by (nonlinear_arith)
        requires
            0 <= col < cols,
            0 < size,
    ;
}

/// Cuts `source` into tiles of `tile_size` by `tile_size` pixels.
///
/// Fails, with nothing extracted, on a zero tile size and on a source whose
/// width or height is not a multiple of the tile size.
pub fn extract_tiles(source: &PixelGrid, tile_size: u32) -> (r: Result<
    Vec<PixelGrid>,
    TilesetError,
>)
    ensures
        match r {
            Ok(tiles) => {
                &&& rejection(source@, tile_size as nat) is None
                &&& grids(tiles@) == tiles_of(source@, tile_size as nat)
                &&& tiles@.len() == tile_count(source@, tile_size as nat)
            },
            Err(e) => rejection(source@, tile_size as nat) == Some(e),
        },
{
    if tile_size == 0 {
        return Err(TilesetError::InvalidTileSize);
    }
    if source.width() % tile_size != 0 {
        return Err(TilesetError::DimensionMismatch { axis: Axis::Width });
    }
    if source.height() % tile_size != 0 {
        return Err(TilesetError::DimensionMismatch { axis: Axis::Height });
    }
    let cols = source.width() / tile_size;
    let rows = source.height() / tile_size;
    proof {
        lemma_fundamental_div_mod(source@.width as int, tile_size as int);
        lemma_fundamental_div_mod(source@.height as int, tile_size as int);
        assert(tile_size * cols == cols * tile_size) by (nonlinear_arith);
        assert(tile_size * rows == rows * tile_size) by (nonlinear_arith);
    }
    let ghost want = tiles_of(source@, tile_size as nat);
    let mut tiles: Vec<PixelGrid> = Vec::new();
    let mut row: u32 = 0;
    while row < rows
        invariant
            row <= rows,
            tile_size > 0,
            cols == source@.width / (tile_size as nat),
            source@.width == cols * tile_size,
            source@.height == rows * tile_size,
            source@.width <= u32::MAX,
            source@.height <= u32::MAX,
            tiles@.len() == row * cols,
            forall|k: int|
                0 <= k < tiles@.len() ==> (#[trigger] tiles@[k])@ == tile_at(
                    source@,
                    tile_size as nat,
                    k % (cols as int),
                    k / (cols as int),
                ),
        decreases rows - row,
    {
        let mut col: u32 = 0;
        while col < cols
            invariant
                row < rows,
                col <= cols,
                tile_size > 0,
                cols == source@.width / (tile_size as nat),
                source@.width == cols * tile_size,
                source@.height == rows * tile_size,
                source@.width <= u32::MAX,
                source@.height <= u32::MAX,
                tiles@.len() == row * cols + col,
                forall|k: int|
                    0 <= k < tiles@.len() ==> (#[trigger] tiles@[k])@ == tile_at(
                        source@,
                        tile_size as nat,
                        k % (cols as int),
                        k / (cols as int),
                    ),
            decreases cols - col,
        {
            proof {
                lemma_tile_inside(col as int, cols as int, tile_size as int);
                lemma_tile_inside(row as int, rows as int, tile_size as int);
                lemma_fundamental_div_mod_converse(
                    row * cols + col,
                    cols as int,
                    row as int,
                    col as int,
                );
            }
            let tile = source.crop(col * tile_size, row * tile_size, tile_size, tile_size);
            tiles.push(tile);
            col += 1;
        }
        proof {
            assert(row * cols + cols == (row + 1) * cols) by (nonlinear_arith);
        }
        row += 1;
    }
    proof {
        assert(rows * cols == cols * rows) by (nonlinear_arith);
        assert(grids(tiles@) =~= want);
    }
    Ok(tiles)
}

} // verus!
