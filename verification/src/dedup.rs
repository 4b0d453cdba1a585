//! The deduplicator: keeps the first occurrence of every tile.

use vstd::prelude::*;
use crate::grid::{Grid, PixelGrid, grids};

verus! {

/// The first occurrences in `tiles`, in the order in which they occur.
pub open spec fn distinct(tiles: Seq<Grid>) -> Seq<Grid>
    decreases tiles.len(),
{
    if tiles.len() == 0 {
        Seq::empty()
    } else {
        let before = distinct(tiles.drop_last());
        if before.contains(tiles.last()) {
            before
        } else {
            before.push(tiles.last())
        }
    }
}

/// Whether position `i` of `tiles` holds a tile that no earlier position holds.
pub open spec fn is_first(tiles: Seq<Grid>, i: int) -> bool {
    0 <= i < tiles.len() && forall|j: int| 0 <= j < i ==> #[trigger] tiles[j] != tiles[i]
}

/// The position at which `tile` first occurs in `tiles`. Meaningful only for
/// a tile that occurs.
pub open spec fn first_index(tiles: Seq<Grid>, tile: Grid) -> int {
    choose|i: int| is_first(tiles, i) && tiles[i] == tile
}

/// A first occurrence before the last position is a first occurrence with
/// the last position taken away, and the other way round.
proof fn lemma_is_first_in_head(tiles: Seq<Grid>, i: int)
    requires
        0 <= i < tiles.len() - 1,
    ensures
        is_first(tiles, i) <==> is_first(tiles.drop_last(), i),
{
    let head = tiles.drop_last();
    assert(head[i] == tiles[i]);
    if is_first(tiles, i) {
        assert forall|j: int| 0 <= j < i implies #[trigger] head[j] != head[i] by {
            assert(tiles[j] != tiles[i]);
        }
    }
    if is_first(head, i) {
        assert forall|j: int| 0 <= j < i implies #[trigger] tiles[j] != tiles[i] by {
            assert(head[j] != head[i]);
        }
    }
}

/// A tile that occurs has a first occurrence, and only one.
pub proof fn lemma_first_index(tiles: Seq<Grid>, tile: Grid)
    requires
        tiles.contains(tile),
    ensures
        is_first(tiles, first_index(tiles, tile)),
        tiles[first_index(tiles, tile)] == tile,
        forall|i: int| is_first(tiles, i) && tiles[i] == tile ==> i == first_index(tiles, tile),
    decreases tiles.len(),
{
    let head = tiles.drop_last();
    if head.contains(tile) {
        lemma_first_index(head, tile);
        let i = first_index(head, tile);
        lemma_is_first_in_head(tiles, i);
        assert(head[i] == tiles[i]);
        assert(is_first(tiles, i) && tiles[i] == tile);
    } else {
        let at = choose|i: int| 0 <= i < tiles.len() && tiles[i] == tile;
        assert forall|j: int| 0 <= j < tiles.len() - 1 implies #[trigger] tiles[j] != tile by {
            if tiles[j] == tile {
                assert(head[j] == tile);
            }
        }
        assert(is_first(tiles, at) && tiles[at] == tile);
    }
    let first = first_index(tiles, tile);
    assert forall|i: int| is_first(tiles, i) && tiles[i] == tile implies i == first by {
        if i < first {
            assert(tiles[i] != tiles[first]);
        } else if first < i {
            assert(tiles[first] != tiles[i]);
        }
    }
}

/// A tile that occurs before the last position first occurs at the same
/// position whether or not the last position is looked at.
proof fn lemma_first_index_in_head(tiles: Seq<Grid>, tile: Grid)
    requires
        tiles.len() > 0,
        tiles.drop_last().contains(tile),
    ensures
        first_index(tiles, tile) == first_index(tiles.drop_last(), tile),
        0 <= first_index(tiles, tile) < tiles.len() - 1,
{
    let head = tiles.drop_last();
    lemma_first_index(head, tile);
    let i = first_index(head, tile);
    lemma_is_first_in_head(tiles, i);
    assert(head[i] == tiles[i]);
    assert(tiles.contains(tile));
    lemma_first_index(tiles, tile);
}

/// No two tiles of the distinct sequence are the same.
pub proof fn lemma_distinct_no_duplicates(tiles: Seq<Grid>)
    ensures
        distinct(tiles).no_duplicates(),
    decreases tiles.len(),
{
    if tiles.len() > 0 {
        lemma_distinct_no_duplicates(tiles.drop_last());
    }
}

/// A tile is in the distinct sequence exactly when it is in the input.
pub proof fn lemma_distinct_contains(tiles: Seq<Grid>, tile: Grid)
    ensures
        distinct(tiles).contains(tile) <==> tiles.contains(tile),
    decreases tiles.len(),
{
    if tiles.len() > 0 {
        let head = tiles.drop_last();
        let last = tiles.last();
        lemma_distinct_contains(head, tile);
        lemma_distinct_contains(head, last);
        let before = distinct(head);
        let after = distinct(tiles);
        if after.contains(tile) {
            let i = choose|i: int| 0 <= i < after.len() && after[i] == tile;
            if i < before.len() {
                assert(before[i] == tile);
                let j = choose|j: int| 0 <= j < head.len() && head[j] == tile;
                assert(tiles[j] == tile);
            } else {
                assert(tiles[tiles.len() - 1] == tile);
            }
        }
        if tiles.contains(tile) {
            let j = choose|j: int| 0 <= j < tiles.len() && tiles[j] == tile;
            if j < head.len() {
                assert(head[j] == tile);
            }
            if before.contains(tile) {
                let i = choose|i: int| 0 <= i < before.len() && before[i] == tile;
                assert(after[i] == tile);
            } else {
                assert(tile == last);
                assert(after[after.len() - 1] == tile);
            }
        }
    }
}

/// Every tile of the input is the same as exactly one tile of the distinct
/// sequence.
pub proof fn lemma_distinct_exactly_one(tiles: Seq<Grid>, k: int)
    requires
        0 <= k < tiles.len(),
    ensures
        exists|i: int| 0 <= i < distinct(tiles).len() && distinct(tiles)[i] == tiles[k],
        forall|i: int, j: int|
            0 <= i < distinct(tiles).len() && 0 <= j < distinct(tiles).len() && distinct(tiles)[i]
                == tiles[k] && distinct(tiles)[j] == tiles[k] ==> i == j,
{
    lemma_distinct_no_duplicates(tiles);
    lemma_distinct_contains(tiles, tiles[k]);
    assert(tiles.contains(tiles[k]));
}

/// The distinct sequence is no longer than the input, and it is empty only
/// for an empty input.
pub proof fn lemma_distinct_len(tiles: Seq<Grid>)
    ensures
        distinct(tiles).len() <= tiles.len(),
        tiles.len() > 0 ==> distinct(tiles).len() >= 1,
    decreases tiles.len(),
{
    if tiles.len() > 0 {
        lemma_distinct_len(tiles.drop_last());
    }
}

/// The distinct sequence lists the tiles in the order of their first
/// occurrence in the input: of two of its tiles, the one that stands earlier
/// first occurs earlier.
pub proof fn lemma_distinct_order(tiles: Seq<Grid>, a: int, b: int)
    requires
        0 <= a < b < distinct(tiles).len(),
    ensures
        first_index(tiles, distinct(tiles)[a]) < first_index(tiles, distinct(tiles)[b]),
    decreases tiles.len(),
{
    let head = tiles.drop_last();
    let last = tiles.last();
    let before = distinct(head);
    let after = distinct(tiles);
    assert(before[a] == after[a]);
    assert(before.contains(after[a]));
    lemma_distinct_contains(head, after[a]);
    lemma_first_index_in_head(tiles, after[a]);
    if b < before.len() {
        lemma_distinct_order(head, a, b);
        assert(before[b] == after[b]);
        assert(before.contains(after[b]));
        lemma_distinct_contains(head, after[b]);
        lemma_first_index_in_head(tiles, after[b]);
    } else {
        assert(after[b] == last);
        lemma_distinct_contains(head, last);
        assert(tiles[tiles.len() - 1] == last);
        assert(tiles.contains(last));
        lemma_first_index(tiles, last);
        let i = first_index(tiles, last);
        if i < head.len() {
            assert(head[i] == last);
        }
    }
}

/// Whether some grid of `set` has the same dimensions and pixels as `tile`.
pub fn contains_tile(set: &Vec<PixelGrid>, tile: &PixelGrid) -> (found: bool)
    ensures
        found == grids(set@).contains(tile@),
{
    let mut i: usize = 0;
    while i < set.len()
        invariant
            i <= set@.len(),
            forall|k: int| 0 <= k < i ==> (#[trigger] set@[k])@ != tile@,
        decreases set@.len() - i,
    {
        if set[i].equals(tile) {
            assert(grids(set@)[i as int] == tile@);
            return true;
        }
        i += 1;
    }
    false
}

/// Reduces `tiles` to its distinct tiles. A tile is dropped exactly when an
/// earlier tile has the same dimensions and the same pixels; the tiles that
/// stay keep their relative order.
pub fn dedup(tiles: Vec<PixelGrid>) -> (out: Vec<PixelGrid>)
    ensures
        grids(out@) == distinct(grids(tiles@)),
        out@.len() <= tiles@.len(),
        tiles@.len() > 0 ==> out@.len() >= 1,
{
    let mut out: Vec<PixelGrid> = Vec::new();
    let ghost items = tiles@;
    let ghost all = grids(tiles@);
    for tile in it: tiles
        invariant
            it.seq() == items,
            all == grids(items),
            grids(out@) == distinct(all.take(it.index() as int)),
    {
        let ghost seen = all.take(it.index() as int);
        let ghost next = all.take(it.index() + 1);
        proof {
            assert(next.drop_last() =~= seen);
            assert(next.last() == tile@);
        }
        if !contains_tile(&out, &tile) {
            out.push(tile);
            assert(grids(out@) =~= distinct(seen).push(tile@));
        }
    }
    proof {
        assert(all.take(items.len() as int) =~= all);
        lemma_distinct_len(all);
    }
    out
}

} // verus!
