//! The whole pipeline: extract, deduplicate, pack.

use vstd::prelude::*;
use crate::error::TilesetError;
use crate::grid::{Grid, PixelGrid, grids};
use crate::extract::{extract_tiles, rejection, tile_count, tiles_of, lemma_tiles_are_tiles};
use crate::dedup::{dedup, distinct, lemma_distinct_contains, lemma_distinct_len};
use crate::layout::{can_pack, fits, pixel_budget, lemma_small_budget_fits};
use crate::pack::{is_tile, pack, packed};

verus! {

/// The tileset of a source image: its distinct tiles, in order of first
/// appearance, packed into one canvas.
pub open spec fn tileset_of(source: Grid, tile_size: nat) -> Grid {
    packed(distinct(tiles_of(source, tile_size)), tile_size)
}

/// Whether the tileset of `source` can be built on this machine. A source
/// that is rejected always can: nothing is built for it.
pub open spec fn buildable(source: Grid, tile_size: nat) -> bool {
    rejection(source, tile_size) is None ==> fits(
        distinct(tiles_of(source, tile_size)).len(),
        tile_size,
    )
}

/// Every distinct tile of a source is a tile.
pub proof fn lemma_distinct_tiles_are_tiles(source: Grid, tile_size: nat, k: int)
    requires
        0 <= k < distinct(tiles_of(source, tile_size)).len(),
    ensures
        is_tile(distinct(tiles_of(source, tile_size))[k], tile_size),
{
    let all = tiles_of(source, tile_size);
    let kept = distinct(all);
    assert(kept.contains(kept[k]));
    lemma_distinct_contains(all, kept[k]);
    let i = choose|i: int| 0 <= i < all.len() && all[i] == kept[k];
    lemma_tiles_are_tiles(source, tile_size, i);
}

/// The tileset can be built wherever the canvas for all tiles of the source,
/// were they all distinct, would fit by [`lemma_small_budget_fits`].
pub proof fn lemma_small_source_is_buildable(source: Grid, tile_size: nat)
    requires
        pixel_budget(tile_count(source, tile_size), tile_size) <= u32::MAX,
        4 * pixel_budget(tile_count(source, tile_size), tile_size) * pixel_budget(
            tile_count(source, tile_size),
            tile_size,
        ) <= isize::MAX,
        4 * pixel_budget(tile_count(source, tile_size), tile_size) * tile_size <= isize::MAX,
    ensures
        buildable(source, tile_size),
{
    let all = tiles_of(source, tile_size);
    let kept = distinct(all).len();
    let most = pixel_budget(tile_count(source, tile_size), tile_size) as int;
    let budget = pixel_budget(kept, tile_size) as int;
    lemma_distinct_len(all);
    assert(budget <= most && 4 * budget * budget <= 4 * most * most && 4 * budget * tile_size <= 4
        * most * tile_size) by (nonlinear_arith)
        requires
            budget == kept * tile_size,
            most == tile_count(source, tile_size) * tile_size,
            kept <= tile_count(source, tile_size),
    ;
    lemma_small_budget_fits(kept, tile_size);
}

/// The first two stages: the distinct tiles of `source`, or why it has none.
fn distinct_tiles(source: &PixelGrid, tile_size: u32) -> (r: Result<Vec<PixelGrid>, TilesetError>)
    ensures
        match r {
            Ok(kept) => {
                &&& rejection(source@, tile_size as nat) is None
                &&& grids(kept@) == distinct(tiles_of(source@, tile_size as nat))
                &&& forall|k: int|
                    0 <= k < kept@.len() ==> is_tile((#[trigger] kept@[k])@, tile_size as nat)
            },
            Err(e) => rejection(source@, tile_size as nat) == Some(e),
        },
{
    let tiles = match extract_tiles(source, tile_size) {
        Ok(tiles) => tiles,
        Err(e) => {
            return Err(e);
        },
    };
    let kept = dedup(tiles);
    proof {
        assert forall|k: int| 0 <= k < kept@.len() implies is_tile(
            (#[trigger] kept@[k])@,
            tile_size as nat,
        ) by {
            assert(grids(kept@)[k] == kept@[k]@);
            lemma_distinct_tiles_are_tiles(source@, tile_size as nat, k);
        }
    }
    Ok(kept)
}

/// What [`build_tileset`] and [`try_build_tileset`] promise of their result
/// for a given source and tile size.
pub open spec fn is_outcome(
    source: Grid,
    tile_size: nat,
    r: Result<PixelGrid, TilesetError>,
) -> bool {
    match r {
        Ok(canvas) => {
            &&& rejection(source, tile_size) is None
            &&& canvas@ == tileset_of(source, tile_size)
            &&& canvas@.width % tile_size == 0
            &&& canvas@.height % tile_size == 0
            &&& (canvas@.width / tile_size) * (canvas@.height / tile_size) >= distinct(
                tiles_of(source, tile_size),
            ).len()
        },
        Err(e) => rejection(source, tile_size) == Some(e),
    }
}

/// Builds the tileset of `source` for tiles of `tile_size` pixels.
///
/// A zero tile size, a width that is not a multiple of the tile size and a
/// height that is not a multiple of the tile size are reported, in this
/// order of precedence, and nothing is built. Every other source yields its
/// tileset, which depends on nothing but the source's pixels and the tile
/// size: its dimensions are multiples of the tile size, and it has a cell
/// for every distinct tile.
pub fn build_tileset(source: &PixelGrid, tile_size: u32) -> (r: Result<PixelGrid, TilesetError>)
    requires
        buildable(source@, tile_size as nat),
    ensures
        is_outcome(source@, tile_size as nat, r),
{
    match distinct_tiles(source, tile_size) {
        Ok(kept) => Ok(pack(&kept, tile_size)),
        Err(e) => Err(e),
    }
}

/// [`build_tileset`] for callers that cannot know beforehand whether the
/// tileset can be built on this machine: `None` says that it cannot.
pub fn try_build_tileset(source: &PixelGrid, tile_size: u32) -> (r: Option<
    Result<PixelGrid, TilesetError>,
>)
    ensures
        r is None <==> !buildable(source@, tile_size as nat),
        r matches Some(outcome) ==> is_outcome(source@, tile_size as nat, outcome),
{
    match distinct_tiles(source, tile_size) {
        Ok(kept) => {
            if can_pack(kept.len(), tile_size) {
                Some(Ok(pack(&kept, tile_size)))
            } else {
                None
            }
        },
        Err(e) => Some(Err(e)),
    }
}

} // verus!
