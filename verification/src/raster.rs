//! The boundary to the `image` crate: an RGBA buffer and the operations the
//! library performs on it. Nothing in this file is proved; every contract
//! here restates what `image` documents or what its source shows.

use vstd::prelude::*;
use crate::color::Color;

verus! {

/// An `image::RgbaImage`, that is `image::ImageBuffer<Rgba<u8>, Vec<u8>>`.
/// What it holds is known only through [`raster_size`] and
/// [`raster_pixels`]. A buffer is only ever created by [`raster_new`], so its
/// backing vector holds exactly four bytes per pixel.
#[verifier::external_body]
pub struct Raster {
    buf: image::RgbaImage,
}

/// Width and height of the buffer, as `ImageBuffer::dimensions` reports them.
pub uninterp spec fn raster_size(r: Raster) -> (nat, nat);

/// The pixels of the buffer, keyed by `(x, y)`. Only keys inside the
/// buffer's dimensions mean anything.
pub uninterp spec fn raster_pixels(r: Raster) -> Map<(int, int), Color>;

/// Whether `(i, j)` lies in the rectangle of the given width and height
/// whose top-left corner is `(x, y)`.
pub open spec fn in_rect(x: int, y: int, size: (nat, nat), i: int, j: int) -> bool {
    x <= i < x + size.0 && y <= j < y + size.1
}

/// `ImageBuffer::new`: a buffer of the given dimensions whose samples are all
/// zero. The outside function panics when the buffer, of `4 * width * height`
/// bytes, is larger than a vector can be, which the precondition rules out.
#[verifier::external_body]
pub(crate) fn raster_new(width: u32, height: u32) -> (r: Raster)
    requires
        4 * width * height <= isize::MAX,
    ensures
        raster_size(r) == (width as nat, height as nat),
        forall|i: int, j: int|
            in_rect(0, 0, raster_size(r), i, j) ==> #[trigger] raster_pixels(r)[(i, j)]
                == Color::transparent(),
{
    Raster { buf: image::ImageBuffer::new(width, height) }
}

/// `ImageBuffer::get_pixel`: the pixel at `(x, y)`, channel by channel. The
/// outside function panics outside the buffer's bounds.
#[verifier::external_body]
pub(crate) fn raster_get(r: &Raster, x: u32, y: u32) -> (c: Color)
    requires
        in_rect(0, 0, raster_size(*r), x as int, y as int),
    ensures
        c == raster_pixels(*r)[(x as int, y as int)],
{
    let p = r.buf.get_pixel(x, y);
    Color { r: p.0[0], g: p.0[1], b: p.0[2], a: p.0[3] }
}

/// `ImageBuffer::put_pixel`: overwrites the pixel at `(x, y)` and nothing
/// else. The outside function panics outside the buffer's bounds, and
/// nowhere inside them.
#[verifier::external_body]
pub(crate) fn raster_put(r: &mut Raster, x: u32, y: u32, c: Color)
    requires
        in_rect(0, 0, raster_size(*old(r)), x as int, y as int),
    ensures
        raster_size(*final(r)) == raster_size(*old(r)),
        raster_pixels(*final(r)) == raster_pixels(*old(r)).insert((x as int, y as int), c),
    no_unwind
{
    r.buf.put_pixel(x, y, image::Rgba([c.r, c.g, c.b, c.a]));
}

/// `image::imageops::replace`: copies every pixel of `top` over `bottom`,
/// with the top-left corner of `top` at `(x, y)`. The outside function clips
/// what falls outside `bottom`; the precondition keeps `top` wholly inside,
/// so the contract has no clipped case to describe. It does not panic.
#[verifier::external_body]
pub(crate) fn raster_replace(bottom: &mut Raster, top: &Raster, x: u32, y: u32)
    requires
        x + raster_size(*top).0 <= raster_size(*old(bottom)).0,
        y + raster_size(*top).1 <= raster_size(*old(bottom)).1,
    ensures
        raster_size(*final(bottom)) == raster_size(*old(bottom)),
        forall|i: int, j: int|
            in_rect(0, 0, raster_size(*old(bottom)), i, j) ==> #[trigger] raster_pixels(
                *final(bottom),
            )[(i, j)] == if in_rect(x as int, y as int, raster_size(*top), i, j) {
                raster_pixels(*top)[(i - x, j - y)]
            } else {
                raster_pixels(*old(bottom))[(i, j)]
            },
    no_unwind
{
    image::imageops::replace(&mut bottom.buf, &top.buf, i64::from(x), i64::from(y));
}

/// `==` on `ImageBuffer` (derived): equal dimensions and equal sample
/// vectors, which for buffers made by [`raster_new`] is equal dimensions and
/// equal pixels at every coordinate.
#[verifier::external_body]
pub(crate) fn raster_eq(a: &Raster, b: &Raster) -> (same: bool)
    ensures
        same <==> raster_size(*a) == raster_size(*b) && forall|i: int, j: int|
            in_rect(0, 0, raster_size(*a), i, j) ==> #[trigger] raster_pixels(*a)[(i, j)]
                == raster_pixels(*b)[(i, j)],
{
    a.buf == b.buf
}

} // verus!
