use image::{imageops, GenericImageView, ImageBuffer, Rgba, RgbaImage};
use png2tileset::color::Color;
use png2tileset::grid::PixelGrid;
use png2tileset::pipeline::build_tileset;

fn as_grid(image: &RgbaImage) -> PixelGrid {
    let mut grid = PixelGrid::new(image.width(), image.height());
    for (x, y, Rgba([r, g, b, a])) in image.enumerate_pixels().map(|(x, y, p)| (x, y, *p)) {
        grid.put_pixel(x, y, Color { r, g, b, a });
    }
    grid
}

fn as_image(grid: &PixelGrid) -> RgbaImage {
    RgbaImage::from_fn(grid.width(), grid.height(), |x, y| {
        let Color { r, g, b, a } = grid.get_pixel(x, y);
        Rgba([r, g, b, a])
    })
}

/// The tileset of an image, made with the buffers and operations of `image`
/// alone: tiles copied pixel by pixel, compared with `==`, laid over a fresh
/// canvas, whose dimensions come from the plain search over all pairs.
fn tileset_by_image(image: &RgbaImage, tile_size: u32) -> RgbaImage {
    let mut kept: Vec<RgbaImage> = vec![];
    for y_tile in 0..image.height() / tile_size {
        for x_tile in 0..image.width() / tile_size {
            let mut tile = ImageBuffer::new(tile_size, tile_size);
            for x in 0..tile_size {
                for y in 0..tile_size {
                    let at = GenericImageView::get_pixel(
                        image,
                        x + x_tile * tile_size,
                        y + y_tile * tile_size,
                    );
                    tile.put_pixel(x, y, at);
                }
            }
            if !kept.contains(&tile) {
                kept.push(tile);
            }
        }
    }
    let budget = kept.len() as u32 * tile_size;
    let (mut width, mut height) = (budget, tile_size);
    for h in 0..budget {
        for w in 0..budget {
            if h * w >= budget * tile_size
                && h % tile_size == 0
                && w % tile_size == 0
                && w + h < width + height
            {
                width = w;
                height = h;
            }
        }
    }
    let mut canvas = ImageBuffer::new(width, height);
    let (mut x, mut y) = (0, 0);
    for tile in kept.iter() {
        if x == width {
            y += tile_size;
            x = 0;
        }
        imageops::overlay(&mut canvas, tile, x as i64, y as i64);
        x += tile_size;
    }
    canvas
}

/// A tilemap of opaque pixels with `kinds` different tiles, some repeated.
fn tilemap(cols: u32, rows: u32, tile_size: u32, kinds: u32) -> RgbaImage {
    RgbaImage::from_fn(cols * tile_size, rows * tile_size, |x, y| {
        let tile = (x / tile_size) * 7 + (y / tile_size) * 13;
        let kind = (tile * tile + tile / 3) % kinds;
        Rgba([(kind * 20) as u8, (x % tile_size * 9) as u8, (y % tile_size * 5) as u8, 255])
    })
}

#[test]
fn opaque_tilesets_are_those_of_the_image_buffers() {
    for (cols, rows, tile_size, kinds) in
        [(1, 1, 8, 1), (4, 4, 4, 3), (5, 3, 2, 6), (6, 6, 3, 11), (7, 2, 1, 20), (3, 9, 5, 9)]
    {
        let source = tilemap(cols, rows, tile_size, kinds);
        let expected = tileset_by_image(&source, tile_size);
        let canvas = build_tileset(&as_grid(&source), tile_size).unwrap();
        assert_eq!(as_image(&canvas), expected);
    }
}

#[test]
fn grid_and_image_buffer_agree_pixel_by_pixel() {
    let image = tilemap(3, 2, 4, 5);
    let grid = as_grid(&image);
    assert_eq!((grid.width(), grid.height()), image.dimensions());
    assert_eq!(as_image(&grid), image);
    assert_eq!(as_image(&PixelGrid::new(5, 3)), RgbaImage::new(5, 3));
    let mut below = tilemap(3, 2, 4, 5);
    let top = tilemap(1, 1, 4, 2);
    let mut canvas = as_grid(&below);
    canvas.overlay(&as_grid(&top), 8, 4);
    imageops::replace(&mut below, &top, 8, 4);
    assert_eq!(as_image(&canvas), below);
}
