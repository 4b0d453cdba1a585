//! The dimension search: how wide and how high the canvas is.

use vstd::prelude::*;
use vstd::arithmetic::div_mod::{
    lemma_fundamental_div_mod,
    lemma_fundamental_div_mod_converse,
    lemma_mod_pos_bound,
};

verus! {

/// The bound of the dimension search: the tile count times the tile size.
/// This is a length, the width of all tiles laid out in one row, not an area.
pub open spec fn pixel_budget(count: nat, tile_size: nat) -> nat {
    count * tile_size
}

/// What the dimension search asks of a candidate before comparing it with
/// the best pair so far: both sides below the budget, both sides multiples
/// of the tile size, and an area of at least the budget times the tile size.
pub open spec fn eligible(count: nat, tile_size: nat, width: int, height: int) -> bool {
    &&& 0 <= width < pixel_budget(count, tile_size)
    &&& 0 <= height < pixel_budget(count, tile_size)
    &&& height * width >= pixel_budget(count, tile_size) * tile_size
    &&& height % (tile_size as int) == 0
    &&& width % (tile_size as int) == 0
}

/// An eligible candidate whose half perimeter is below that of the single
/// row of tiles the search starts from.
pub open spec fn improves(count: nat, tile_size: nat, width: int, height: int) -> bool {
    eligible(count, tile_size, width, height) && width + height < pixel_budget(count, tile_size)
        + tile_size
}

/// Whether `width` by `height` is what the dimension search returns.
///
/// The search visits heights in ascending order and, for each height, widths
/// in ascending order, and replaces its best pair only by a strictly smaller
/// half perimeter. So it ends on the improving candidate of least half
/// perimeter, and among those of least half perimeter on the one of least
/// height; where nothing improves, it ends on the single row it started from.
pub open spec fn is_canvas_size(count: nat, tile_size: nat, width: int, height: int) -> bool {
    if exists|w: int, h: int| improves(count, tile_size, w, h) {
        &&& improves(count, tile_size, width, height)
        &&& forall|w: int, h: int| #[trigger]
            improves(count, tile_size, w, h) ==> width + height < w + h || (width + height == w
                + h && height <= h)
    } else {
        width == pixel_budget(count, tile_size) && height == tile_size
    }
}

/// The canvas dimensions, `(width, height)`, for `count` tiles.
pub open spec fn canvas_size(count: nat, tile_size: nat) -> (int, int) {
    choose|d: (int, int)| is_canvas_size(count, tile_size, d.0, d.1)
}

/// Whether the canvas for `count` tiles can be built on this machine: the
/// pixel budget fits the type of a dimension, and the canvas can be held in
/// memory.
pub open spec fn fits(count: nat, tile_size: nat) -> bool {
    &&& pixel_budget(count, tile_size) <= u32::MAX
    &&& 4 * canvas_size(count, tile_size).0 * canvas_size(count, tile_size).1 <= isize::MAX
}

/// A layout in whole tiles that the search would accept in place of the
/// single row: `improves`, with the tile size divided out.
spec fn fills(count: nat, cols: int, rows: int) -> bool {
    &&& 0 <= cols < count
    &&& 0 <= rows < count
    &&& rows * cols >= count
    &&& cols + rows < count + 1
}

/// `cols` by `rows` is no worse than the layout `c` by `r`: it has the
/// smaller half perimeter, or the same with no more rows.
spec fn no_worse(cols: int, rows: int, c: int, r: int) -> bool {
    cols + rows < c + r || (cols + rows == c + r && rows <= r)
}

/// Whether `cols` by `rows` is where the search ends, counted in tiles: the
/// single row where no layout fills, and else the best layout that fills.
spec fn is_best_layout(count: nat, cols: int, rows: int) -> bool {
    &&& (cols == count && rows == 1) || fills(count, cols, rows)
    &&& forall|c: int, r: int| #[trigger]
        fills(count, c, r) ==> fills(count, cols, rows) && no_worse(cols, rows, c, r)
}

/// An improving candidate is a whole number of tiles each way, and that
/// layout fills.
proof fn lemma_improves_fills(count: nat, tile_size: nat, width: int, height: int)
    requires
        tile_size > 0,
        improves(count, tile_size, width, height),
    ensures
        width == (width / (tile_size as int)) * tile_size,
        height == (height / (tile_size as int)) * tile_size,
        fills(count, width / (tile_size as int), height / (tile_size as int)),
{
    let t = tile_size as int;
    let c = width / t;
    let r = height / t;
    lemma_fundamental_div_mod(width, t);
    lemma_fundamental_div_mod(height, t);
    assert(width == c * t && height == r * t) by (nonlinear_arith)
        requires
            width == t * c + 0,
            height == t * r + 0,
    ;
    assert(fills(count, c, r)) by (nonlinear_arith)
        requires
            t > 0,
            count >= 0,
            width == c * t,
            height == r * t,
            0 <= width < count * t,
            0 <= height < count * t,
            height * width >= (count * t) * t,
            width + height < count * t + t,
    {
        assert(0 <= c && 0 <= r);
        assert(c < count && r < count);
        assert((r * c) * (t * t) == height * width);
        assert((count * t) * t == count * (t * t));
        assert(r * c >= count);
        assert((c + r) * t < (count + 1) * t);
        assert(c + r < count + 1);
    }
}

/// A layout that fills, scaled by the tile size, is an improving candidate.
proof fn lemma_fills_improves(count: nat, tile_size: nat, cols: int, rows: int)
    requires
        tile_size > 0,
        fills(count, cols, rows),
    ensures
        improves(count, tile_size, cols * tile_size, rows * tile_size),
{
    let t = tile_size as int;
    let w = cols * t;
    let h = rows * t;
    lemma_fundamental_div_mod_converse(w, t, cols, 0);
    lemma_fundamental_div_mod_converse(h, t, rows, 0);
    assert(0 <= w < count * t && 0 <= h < count * t && h * w >= (count * t) * t && w + h < count
        * t + t) by (nonlinear_arith)
        requires
            t > 0,
            w == cols * t,
            h == rows * t,
            0 <= cols < count,
            0 <= rows < count,
            rows * cols >= count,
            cols + rows < count + 1,
    {
        assert(h * w == (rows * cols) * (t * t));
        assert((count * t) * t == count * (t * t));
        assert((cols + rows) * t < (count + 1) * t);
    }
}

/// The best layout in tiles, scaled by the tile size, is the result of the
/// search in pixels, and it has a cell for every tile.
proof fn lemma_best_layout_is_canvas_size(count: nat, tile_size: nat, cols: int, rows: int)
    requires
        tile_size > 0,
        is_best_layout(count, cols, rows),
    ensures
        is_canvas_size(count, tile_size, cols * tile_size, rows * tile_size),
        rows * cols >= count,
        0 <= cols <= count,
        0 <= rows <= count || rows == 1,
{
    let t = tile_size as int;
    let width = cols * t;
    let height = rows * t;
    if fills(count, cols, rows) {
        lemma_fills_improves(count, tile_size, cols, rows);
        assert forall|w: int, h: int| #[trigger] improves(count, tile_size, w, h) implies width
            + height < w + h || (width + height == w + h && height <= h) by {
            lemma_improves_fills(count, tile_size, w, h);
            let c = w / t;
            let r = h / t;
            assert(fills(count, c, r));
            assert(width + height < w + h || (width + height == w + h && height <= h))
                by (nonlinear_arith)
                requires
                    t > 0,
                    width == cols * t,
                    height == rows * t,
                    w == c * t,
                    h == r * t,
                    cols + rows < c + r || (cols + rows == c + r && rows <= r),
            {
                assert(cols * t + rows * t == (cols + rows) * t);
                assert(c * t + r * t == (c + r) * t);
            }
        }
    } else {
        assert forall|w: int, h: int| !improves(count, tile_size, w, h) by {
            if improves(count, tile_size, w, h) {
                lemma_improves_fills(count, tile_size, w, h);
                assert(fills(count, w / t, h / t));
            }
        }
        assert(height == t && 1 * cols >= count) by (nonlinear_arith)
            requires
                height == 1 * t,
                cols == count,
        ;
    }
}

/// `cols` is the least number of columns with which `rows` rows have room
/// for `count` tiles.
proof fn lemma_narrowest(count: int, rows: int, cols: int)
    requires
        count >= 1,
        rows >= 1,
        cols == (count - 1) / rows + 1,
    ensures
        1 <= cols <= count,
        rows * cols >= count,
        rows * (cols - 1) < count,
{
    let q = (count - 1) / rows;
    lemma_fundamental_div_mod(count - 1, rows);
    lemma_mod_pos_bound(count - 1, rows);
    assert(0 <= q <= count - 1 && rows * (q + 1) >= count && rows * q < count)
        by (nonlinear_arith)
        requires
            count - 1 == rows * q + (count - 1) % rows,
            0 <= (count - 1) % rows < rows,
            rows >= 1,
            count >= 1,
    ;
}

/// The best layout among the cells that the search has passed when it
/// stands at column `cols` of row `rows`.
proof fn lemma_scan(count: nat, rows: nat, cols: nat) -> (best: (int, int))
    requires
        cols <= count,
    ensures
        best == (count as int, 1int) || (fills(count, best.0, best.1) && (best.1 < rows || (best.1
            == rows && best.0 < cols))),
        forall|c: int, r: int| #[trigger]
            fills(count, c, r) && (r < rows || (r == rows && c < cols)) ==> fills(
                count,
                best.0,
                best.1,
            ) && no_worse(best.0, best.1, c, r),
    decreases rows, cols,
{
    if cols > 0 {
        let before = lemma_scan(count, rows, (cols - 1) as nat);
        let c = cols - 1;
        let r = rows as int;
        if r * c >= count && r < count && c + r < before.0 + before.1 {
            (c, r)
        } else {
            before
        }
    } else if rows > 0 {
        lemma_scan(count, (rows - 1) as nat, count)
    } else {
        (count as int, 1int)
    }
}

/// At most one pair of dimensions is the result of the search.
pub proof fn lemma_canvas_size_unique(
    count: nat,
    tile_size: nat,
    w1: int,
    h1: int,
    w2: int,
    h2: int,
)
    requires
        is_canvas_size(count, tile_size, w1, h1),
        is_canvas_size(count, tile_size, w2, h2),
    ensures
        w1 == w2,
        h1 == h2,
{
}

/// A pair that is the result of the search is the canvas size.
pub proof fn lemma_canvas_size_is(count: nat, tile_size: nat, width: int, height: int)
    requires
        is_canvas_size(count, tile_size, width, height),
    ensures
        canvas_size(count, tile_size) == (width, height),
{
    let found = (width, height);
    assert(is_canvas_size(count, tile_size, found.0, found.1));
    let d = canvas_size(count, tile_size);
    lemma_canvas_size_unique(count, tile_size, width, height, d.0, d.1);
}

/// The search has a result for every tile count and tile size, so the
/// canvas size is what [`is_canvas_size`] describes.
pub proof fn lemma_canvas_size_exists(count: nat, tile_size: nat)
    ensures
        is_canvas_size(
            count,
            tile_size,
            canvas_size(count, tile_size).0,
            canvas_size(count, tile_size).1,
        ),
{
    if tile_size == 0 {
        assert(count * 0 == 0) by (nonlinear_arith);
        lemma_canvas_size_is(count, tile_size, 0, 0);
    } else {
        let best = lemma_scan(count, count, 0);
        assert(is_best_layout(count, best.0, best.1));
        lemma_best_layout_is_canvas_size(count, tile_size, best.0, best.1);
        lemma_canvas_size_is(count, tile_size, best.0 * tile_size, best.1 * tile_size);
    }
}

/// The canvas is a whole number of tiles wide and a whole number of tiles
/// high.
pub proof fn lemma_canvas_aligned(count: nat, tile_size: nat)
    requires
        tile_size > 0,
    ensures
        canvas_size(count, tile_size).0 >= 0,
        canvas_size(count, tile_size).1 >= 0,
        canvas_size(count, tile_size).0 % (tile_size as int) == 0,
        canvas_size(count, tile_size).1 % (tile_size as int) == 0,
{
    lemma_canvas_size_exists(count, tile_size);
    let t = tile_size as int;
    if !(exists|w: int, h: int| improves(count, tile_size, w, h)) {
        lemma_fundamental_div_mod_converse(count * t, t, count as int, 0);
        lemma_fundamental_div_mod_converse(t, t, 1, 0);
    }
}

/// The canvas has a cell for every tile: counted in tiles, its width times
/// its height is at least the tile count.
pub proof fn lemma_canvas_holds_all(count: nat, tile_size: nat)
    requires
        tile_size > 0,
    ensures
        (canvas_size(count, tile_size).0 / (tile_size as int)) * (canvas_size(count, tile_size).1
            / (tile_size as int)) >= count,
{
    lemma_canvas_size_exists(count, tile_size);
    let t = tile_size as int;
    let (width, height) = canvas_size(count, tile_size);
    if exists|w: int, h: int| improves(count, tile_size, w, h) {
        lemma_improves_fills(count, tile_size, width, height);
        assert((width / t) * (height / t) == (height / t) * (width / t)) by (nonlinear_arith);
    } else {
        lemma_fundamental_div_mod_converse(count * t, t, count as int, 0);
        lemma_fundamental_div_mod_converse(t, t, 1, 0);
        assert(count * 1 == count) by (nonlinear_arith);
    }
}

/// Neither side of the canvas is longer than the pixel budget, but for the
/// height of the single row, which is the tile size.
pub proof fn lemma_canvas_within_budget(count: nat, tile_size: nat)
    ensures
        0 <= canvas_size(count, tile_size).0 <= pixel_budget(count, tile_size),
        0 <= canvas_size(count, tile_size).1 <= pixel_budget(count, tile_size) || canvas_size(
            count,
            tile_size,
        ).1 == tile_size,
{
    lemma_canvas_size_exists(count, tile_size);
}

/// The canvas fits wherever a square with the pixel budget as its side
/// would, and the single row of tiles too.
pub proof fn lemma_small_budget_fits(count: nat, tile_size: nat)
    requires
        pixel_budget(count, tile_size) <= u32::MAX,
        4 * pixel_budget(count, tile_size) * pixel_budget(count, tile_size) <= isize::MAX,
        4 * pixel_budget(count, tile_size) * tile_size <= isize::MAX,
    ensures
        fits(count, tile_size),
{
    lemma_canvas_within_budget(count, tile_size);
    let budget = pixel_budget(count, tile_size) as int;
    let (width, height) = canvas_size(count, tile_size);
    assert(4 * width * height <= 4 * budget * budget || 4 * width * height <= 4 * budget
        * tile_size) by (nonlinear_arith)
        requires
            0 <= width <= budget,
            0 <= height <= budget || height == tile_size,
    ;
}

/// The search for the layout in whole tiles: `(cols, rows)`.
///
/// Within one row of the search only the narrowest layout that has room for
/// all tiles can replace the best so far: every wider one has a larger half
/// perimeter. So each row is settled by one division.
fn best_layout(count: u32) -> (layout: (u32, u32))
    ensures
        is_best_layout(count as nat, layout.0 as int, layout.1 as int),
{
    let mut best_cols: u32 = count;
    let mut best_rows: u32 = 1;
    if count == 0 {
        return (best_cols, best_rows);
    }
    let mut rows: u32 = 1;
    proof {
        assert forall|c: int, r: int| #[trigger] fills(count as nat, c, r) && r < 1 implies false by {
            assert(r * c == 0) by (nonlinear_arith)
                requires
                    r == 0,
            ;
        }
    }
    while rows < count
        invariant
            1 <= rows <= count,
            (best_cols == count && best_rows == 1) || (fills(
                count as nat,
                best_cols as int,
                best_rows as int,
            ) && best_rows < rows),
            forall|c: int, r: int| #[trigger]
                fills(count as nat, c, r) && r < rows ==> fills(
                    count as nat,
                    best_cols as int,
                    best_rows as int,
                ) && no_worse(best_cols as int, best_rows as int, c, r),
        decreases count - rows,
    {
        let cols: u32 = (count - 1) / rows + 1;
        proof {
            lemma_narrowest(count as int, rows as int, cols as int);
        }
        let half: u64 = (rows as u64) + (cols as u64);
        let best_half: u64 = (best_rows as u64) + (best_cols as u64);
        let ghost before = (best_cols as int, best_rows as int);
        if cols < count && half < best_half {
            best_cols = cols;
            best_rows = rows;
        }
        proof {
            assert forall|c: int, r: int| #[trigger]
                fills(count as nat, c, r) && r < rows + 1 implies fills(
                count as nat,
                best_cols as int,
                best_rows as int,
            ) && no_worse(best_cols as int, best_rows as int, c, r) by {
                if r == rows {
                    assert(c >= cols) by (nonlinear_arith)
                        requires
                            rows * c >= count,
                            rows * (cols - 1) < count,
                            rows >= 1,
                    ;
                } else {
                    assert(no_worse(before.0, before.1, c, r));
                }
            }
        }
        rows += 1;
    }
    (best_cols, best_rows)
}

/// The dimensions, `(width, height)`, of the canvas that holds `count` tiles
/// of `tile_size` pixels.
///
/// Both are multiples of the tile size, and the canvas has room for every
/// tile. For no tiles at all the canvas is `0` wide and one tile high.
pub fn canvas_dimensions(count: usize, tile_size: u32) -> (size: (u32, u32))
    requires
        pixel_budget(count as nat, tile_size as nat) <= u32::MAX,
    ensures
        is_canvas_size(count as nat, tile_size as nat, size.0 as int, size.1 as int),
        (size.0 as int, size.1 as int) == canvas_size(count as nat, tile_size as nat),
        tile_size > 0 ==> size.0 % tile_size == 0 && size.1 % tile_size == 0,
        tile_size > 0 ==> (size.0 / tile_size) * (size.1 / tile_size) >= count,
{
    let ghost n = count as nat;
    let ghost t = tile_size as nat;
    if tile_size == 0 {
        proof {
            assert(n * 0 == 0) by (nonlinear_arith);
            lemma_canvas_size_is(n, t, 0, 0);
        }
        return (0, 0);
    }
    proof {
        assert(n <= n * t) by (nonlinear_arith)
            requires
                t >= 1,
                n >= 0,
        ;
    }
    let (cols, rows) = best_layout(count as u32);
    proof {
        lemma_best_layout_is_canvas_size(n, t, cols as int, rows as int);
        assert(cols * t <= n * t && (rows * t <= n * t || rows * t == t)) by (nonlinear_arith)
            requires
                0 <= cols <= n,
                0 <= rows <= n || rows == 1,
                t >= 1,
        ;
    }
    let width = cols * tile_size;
    let height = rows * tile_size;
    proof {
        lemma_canvas_size_is(n, t, width as int, height as int);
        lemma_canvas_aligned(n, t);
        lemma_canvas_holds_all(n, t);
    }
    (width, height)
}

/// Whether the canvas for `count` tiles can be built on this machine.
pub fn can_pack(count: usize, tile_size: u32) -> (ok: bool)
    ensures
        ok == fits(count as nat, tile_size as nat),
{
    assert(count * tile_size <= u128::MAX) by (nonlinear_arith)
        requires
            count <= u64::MAX,
            tile_size <= u32::MAX,
    ;
    let budget: u128 = (count as u128) * (tile_size as u128);
    if budget > u32::MAX as u128 {
        return false;
    }
    let (width, height) = canvas_dimensions(count, tile_size);
    assert(4 * width * height <= u128::MAX) by (nonlinear_arith)
        requires
            width <= u32::MAX,
            height <= u32::MAX,
    ;
    let bytes: u128 = 4 * (width as u128) * (height as u128);
    bytes <= isize::MAX as u128
}

} // verus!
