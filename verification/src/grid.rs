//! The pixel grid: a rectangle of colors addressed by `(x, y)`.

use vstd::prelude::*;
use crate::color::Color;
use crate::raster::{
    Raster,
    in_rect,
    raster_eq,
    raster_get,
    raster_new,
    raster_pixels,
    raster_put,
    raster_replace,
    raster_size,
};

verus! {

/// The mathematical content of a pixel grid: its dimensions and its rows,
/// top to bottom, each row left to right.
#[verifier::ext_equal]
pub struct Grid {
    pub width: nat,
    pub height: nat,
    pub rows: Seq<Seq<Color>>,
}

impl Grid {
    /// There are `height` rows of `width` pixels each.
    pub open spec fn wf(self) -> bool {
        &&& self.rows.len() == self.height
        &&& forall|y: int| 0 <= y < self.height ==> (#[trigger] self.rows[y]).len() == self.width
    }

    /// The pixel at column `x` of row `y`.
    pub open spec fn at(self, x: int, y: int) -> Color {
        self.rows[y][x]
    }

    /// The grid of the given dimensions that holds only empty pixels.
    pub open spec fn blank(width: nat, height: nat) -> Grid {
        Grid {
            width,
            height,
            rows: Seq::new(height, |y: int| Seq::new(width, |x: int| Color::transparent())),
        }
    }

    /// The `width` by `height` rectangle of this grid whose top-left corner is
    /// at `(x0, y0)`.
    pub open spec fn block(self, x0: int, y0: int, width: nat, height: nat) -> Grid {
        Grid {
            width,
            height,
            rows: Seq::new(height, |y: int| Seq::new(width, |x: int| self.rows[y0 + y][x0 + x])),
        }
    }

    /// This grid with `top` copied over it, the top-left corner of `top` at
    /// `(x0, y0)`. Pixels of this grid outside that rectangle stay.
    pub open spec fn with_block(self, top: Grid, x0: int, y0: int) -> Grid {
        Grid {
            width: self.width,
            height: self.height,
            rows: Seq::new(
                self.height,
                |y: int|
                    Seq::new(
                        self.width,
                        |x: int|
                            if x0 <= x < x0 + top.width && y0 <= y < y0 + top.height {
                                top.rows[y - y0][x - x0]
                            } else {
                                self.rows[y][x]
                            },
                    ),
            ),
        }
    }

    /// This grid with the pixel at `(x, y)` replaced by `c`.
    pub open spec fn with_pixel(self, x: int, y: int, c: Color) -> Grid {
        Grid {
            width: self.width,
            height: self.height,
            rows: self.rows.update(y, self.rows[y].update(x, c)),
        }
    }

    /// Whether both grids have the same dimensions and the same pixel at
    /// every coordinate.
    pub open spec fn same_pixels(self, other: Grid) -> bool {
        &&& self.width == other.width
        &&& self.height == other.height
        &&& forall|x: int, y: int|
            0 <= x < self.width && 0 <= y < self.height ==> #[trigger] self.at(x, y) == other.at(
                x,
                y,
            )
    }
}

/// Two well-formed grids are equal exactly when they have the same
/// dimensions and the same pixel at every coordinate.
pub proof fn lemma_grid_equality(a: Grid, b: Grid)
    requires
        a.wf(),
        b.wf(),
    ensures
        a == b <==> a.same_pixels(b),
{
    if a.same_pixels(b) {
        assert forall|y: int| 0 <= y < a.height implies a.rows[y] =~= b.rows[y] by {
            assert forall|x: int| 0 <= x < a.width implies a.rows[y][x] == b.rows[y][x] by {
                assert(a.at(x, y) == b.at(x, y));
            }
        }
        assert(a =~~= b);
    }
}

/// Whether a grid of these dimensions can be held in memory: at four bytes
/// per pixel it is no larger than a vector can be.
pub open spec fn addressable(width: nat, height: nat) -> bool {
    4 * width * height <= isize::MAX
}

/// The contents of a sequence of grids, grid by grid.
pub open spec fn grids(v: Seq<PixelGrid>) -> Seq<Grid> {
    Seq::new(v.len(), |i: int| v[i]@)
}

/// A rectangular buffer of colors. The source image, every tile and the output
/// canvas are all values of this type.
pub struct PixelGrid {
    width: u32,
    height: u32,
    raster: Raster,
}

impl View for PixelGrid {
    type V = Grid;

    closed spec fn view(&self) -> Grid {
        Grid {
            width: self.width as nat,
            height: self.height as nat,
            rows: Seq::new(
                self.height as nat,
                |y: int| Seq::new(self.width as nat, |x: int| raster_pixels(self.raster)[(x, y)]),
            ),
        }
    }
}

impl PixelGrid {
    #[verifier::type_invariant]
    spec fn inv(self) -> bool {
        &&& raster_size(self.raster) == (self.width as nat, self.height as nat)
        &&& addressable(self.width as nat, self.height as nat)
    }

    /// Every grid's view is well formed.
    pub proof fn lemma_view_wf(&self)
        ensures
            self@.wf(),
    {
    }

    /// A grid of the given dimensions filled with empty pixels.
    pub fn new(width: u32, height: u32) -> (g: PixelGrid)
        requires
            addressable(width as nat, height as nat),
        ensures
            g@ == Grid::blank(width as nat, height as nat),
    {
        let raster = raster_new(width, height);
        let g = PixelGrid { width, height, raster };
        assert(g@ =~~= Grid::blank(width as nat, height as nat));
        g
    }

    /// The number of columns.
    pub fn width(&self) -> (w: u32)
        ensures
            w == self@.width,
    {
        self.width
    }

    /// The number of rows.
    pub fn height(&self) -> (h: u32)
        ensures
            h == self@.height,
    {
        self.height
    }

    /// The pixel at `(x, y)`.
    pub fn get_pixel(&self, x: u32, y: u32) -> (c: Color)
        requires
            x < self@.width,
            y < self@.height,
        ensures
            c == self@.at(x as int, y as int),
    {
        proof {
            use_type_invariant(self);
        }
        raster_get(&self.raster, x, y)
    }

    /// Overwrites the pixel at `(x, y)`.
    pub fn put_pixel(&mut self, x: u32, y: u32, c: Color)
        requires
            x < old(self)@.width,
            y < old(self)@.height,
        ensures
            final(self)@ == old(self)@.with_pixel(x as int, y as int, c),
    {
        proof {
            use_type_invariant(&*self);
        }
        raster_put(&mut self.raster, x, y, c);
        assert(self@ =~~= old(self)@.with_pixel(x as int, y as int, c));
    }

    /// Whether the two grids have the same dimensions and the same pixel at
    /// every coordinate.
    pub fn equals(&self, other: &PixelGrid) -> (same: bool)
        ensures
            same == (self@ == other@),
    {
        proof {
            use_type_invariant(self);
            use_type_invariant(other);
        }
        let same = raster_eq(&self.raster, &other.raster);
        proof {
            if same {
                assert(self@ =~~= other@);
            } else if self.width == other.width && self.height == other.height {
                let (x, y) = choose|x: int, y: int|
                    in_rect(0, 0, raster_size(self.raster), x, y) && raster_pixels(self.raster)[(
                        x,
                        y,
                    )] != raster_pixels(other.raster)[(x, y)];
                assert(self@.rows[y][x] != other@.rows[y][x]);
            }
        }
        same
    }

    /// Copies `top` over this grid, the top-left corner of `top` at `(x, y)`.
    /// Every pixel under `top` is overwritten; no other pixel changes.
    pub fn overlay(&mut self, top: &PixelGrid, x: u32, y: u32)
        requires
            x + top@.width <= old(self)@.width,
            y + top@.height <= old(self)@.height,
        ensures
            final(self)@ == old(self)@.with_block(top@, x as int, y as int),
    {
        proof {
            use_type_invariant(&*self);
            use_type_invariant(top);
        }
        raster_replace(&mut self.raster, &top.raster, x, y);
        assert(self@ =~~= old(self)@.with_block(top@, x as int, y as int));
    }

    /// A copy of the `width` by `height` rectangle whose top-left corner is at
    /// `(x0, y0)`.
    pub fn crop(&self, x0: u32, y0: u32, width: u32, height: u32) -> (g: PixelGrid)
        requires
            x0 + width <= self@.width,
            y0 + height <= self@.height,
        ensures
            g@ == self@.block(x0 as int, y0 as int, width as nat, height as nat),
    {
        proof {
            use_type_invariant(self);
            assert(4 * width * height <= 4 * self.width * self.height) by (nonlinear_arith)
                requires
                    width <= self.width,
                    height <= self.height,
            ;
        }
        let mut g = PixelGrid::new(width, height);
        let mut x: u32 = 0;
        while x < width
            invariant
                x <= width,
                x0 + width <= self@.width,
                y0 + height <= self@.height,
                g@.width == width,
                g@.height == height,
                g@.wf(),
                forall|i: int, j: int|
                    0 <= i < x && 0 <= j < height ==> g@.rows[j][i] == self@.rows[y0 + j][x0 + i],
            decreases width - x,
        {
            let mut y: u32 = 0;
            while y < height
                invariant
                    x < width,
                    y <= height,
                    x0 + width <= self@.width,
                    y0 + height <= self@.height,
                    g@.width == width,
                    g@.height == height,
                    g@.wf(),
                    forall|i: int, j: int|
                        0 <= i < x && 0 <= j < height ==> g@.rows[j][i] == self@.rows[y0 + j][x0
                            + i],
                    forall|j: int| 0 <= j < y ==> g@.rows[j][x as int] == self@.rows[y0 + j][x0 + x],
                decreases height - y,
            {
                let c = self.get_pixel(x0 + x, y0 + y);
                g.put_pixel(x, y, c);
                y += 1;
            }
            x += 1;
        }
        proof {
            let want = self@.block(x0 as int, y0 as int, width as nat, height as nat);
            assert(g@.rows.len() == want.rows.len());
            assert forall|j: int| 0 <= j < height implies g@.rows[j] =~= want.rows[j] by {
                assert(g@.rows[j].len() == width);
            }
            assert(g@.rows =~= want.rows);
            assert(g@ =~~= want);
        }
        g
    }
}

} // verus!
