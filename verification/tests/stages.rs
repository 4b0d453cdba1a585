use png2tileset::color::Color;
use png2tileset::dedup::{contains_tile, dedup};
use png2tileset::error::{Axis, TilesetError};
use png2tileset::extract::extract_tiles;
use png2tileset::grid::PixelGrid;
use png2tileset::layout::{can_pack, canvas_dimensions};
use png2tileset::pack::pack;

const CLEAR: Color = Color { r: 0, g: 0, b: 0, a: 0 };

fn shade(n: u8) -> Color {
    Color { r: n, g: n.wrapping_mul(3), b: 255 - n, a: 255 }
}

fn filled(width: u32, height: u32, paint: &dyn Fn(u32, u32) -> Color) -> PixelGrid {
    let mut grid = PixelGrid::new(width, height);
    for y in 0..height {
        for x in 0..width {
            grid.put_pixel(x, y, paint(x, y));
        }
    }
    grid
}

fn solid(size: u32, color: Color) -> PixelGrid {
    filled(size, size, &|_, _| color)
}

fn contents(grid: &PixelGrid) -> Vec<Color> {
    let mut all = vec![];
    for y in 0..grid.height() {
        for x in 0..grid.width() {
            all.push(grid.get_pixel(x, y));
        }
    }
    all
}

#[test]
fn new_grid_has_its_dimensions_and_only_empty_pixels() {
    let grid = PixelGrid::new(3, 2);
    assert_eq!(grid.width(), 3);
    assert_eq!(grid.height(), 2);
    assert_eq!(contents(&grid), vec![CLEAR; 6]);
    assert_eq!(Color::empty(), CLEAR);
    assert_eq!(Color::new(1, 2, 3, 4), Color { r: 1, g: 2, b: 3, a: 4 });
}

#[test]
fn put_pixel_changes_one_pixel_and_get_pixel_reads_it() {
    let mut grid = PixelGrid::new(3, 2);
    grid.put_pixel(2, 1, shade(7));
    grid.put_pixel(0, 1, shade(9));
    assert_eq!(grid.get_pixel(2, 1), shade(7));
    assert_eq!(grid.get_pixel(0, 1), shade(9));
    assert_eq!(contents(&grid), vec![CLEAR, CLEAR, CLEAR, shade(9), CLEAR, shade(7)]);
    grid.put_pixel(2, 1, shade(8));
    assert_eq!(grid.get_pixel(2, 1), shade(8));
    assert_eq!((grid.width(), grid.height()), (3, 2));
}

#[test]
fn grids_are_equal_when_dimensions_and_pixels_are() {
    let a = filled(2, 2, &|x, y| shade((x + 2 * y) as u8));
    let b = filled(2, 2, &|x, y| shade((x + 2 * y) as u8));
    assert!(a.equals(&b));
    assert!(a.equals(&a));
    let mut c = filled(2, 2, &|x, y| shade((x + 2 * y) as u8));
    c.put_pixel(1, 1, Color { r: 3, g: 9, b: 252, a: 254 });
    assert!(!a.equals(&c));
    assert!(!PixelGrid::new(2, 3).equals(&PixelGrid::new(3, 2)));
    assert!(!PixelGrid::new(0, 4).equals(&PixelGrid::new(0, 8)));
    assert!(PixelGrid::new(0, 4).equals(&PixelGrid::new(0, 4)));
}

#[test]
fn overlay_overwrites_its_rectangle_and_nothing_else() {
    let mut canvas = filled(4, 3, &|_, _| shade(1));
    let top = filled(2, 2, &|x, y| Color { r: x as u8, g: y as u8, b: 0, a: 0 });
    canvas.overlay(&top, 2, 1);
    let expected = filled(4, 3, &|x, y| {
        if x >= 2 && y >= 1 {
            Color { r: (x - 2) as u8, g: (y - 1) as u8, b: 0, a: 0 }
        } else {
            shade(1)
        }
    });
    assert_eq!(contents(&canvas), contents(&expected));
    assert_eq!((canvas.width(), canvas.height()), (4, 3));
}

#[test]
fn crop_copies_a_rectangle() {
    let grid = filled(5, 4, &|x, y| shade((x + 5 * y) as u8));
    let part = grid.crop(1, 2, 3, 2);
    assert_eq!((part.width(), part.height()), (3, 2));
    assert_eq!(
        contents(&part),
        vec![shade(11), shade(12), shade(13), shade(16), shade(17), shade(18)]
    );
    assert_eq!(grid.crop(5, 4, 0, 0).width(), 0);
}

#[test]
fn tiles_come_out_row_by_row() {
    let source = filled(6, 4, &|x, y| shade((x + 6 * y) as u8));
    let tiles = extract_tiles(&source, 2).unwrap();
    assert_eq!(tiles.len(), 6);
    for (k, tile) in tiles.iter().enumerate() {
        let (col, row) = (k as u32 % 3, k as u32 / 3);
        assert_eq!((tile.width(), tile.height()), (2, 2));
        assert!(tile.equals(&source.crop(col * 2, row * 2, 2, 2)));
    }
    assert_eq!(contents(&tiles[4]), vec![shade(14), shade(15), shade(20), shade(21)]);
}

#[test]
fn extraction_rejects_what_cannot_be_tiled() {
    let source = PixelGrid::new(6, 4);
    assert_eq!(extract_tiles(&source, 0).err(), Some(TilesetError::InvalidTileSize));
    assert_eq!(
        extract_tiles(&source, 4).err(),
        Some(TilesetError::DimensionMismatch { axis: Axis::Width })
    );
    assert_eq!(
        extract_tiles(&source, 3).err(),
        Some(TilesetError::DimensionMismatch { axis: Axis::Height })
    );
    assert_eq!(
        extract_tiles(&source, 5).err(),
        Some(TilesetError::DimensionMismatch { axis: Axis::Width })
    );
    assert_eq!(extract_tiles(&source, 1).unwrap().len(), 24);
    assert_eq!(extract_tiles(&PixelGrid::new(0, 4), 2).unwrap().len(), 0);
}

#[test]
fn dedup_keeps_first_occurrences_in_order() {
    let order = [5u8, 3, 5, 7, 3, 3, 9, 5];
    let tiles: Vec<PixelGrid> = order.iter().map(|n| solid(2, shade(*n))).collect();
    let kept = dedup(tiles);
    let seen: Vec<Color> = kept.iter().map(|t| t.get_pixel(0, 0)).collect();
    assert_eq!(seen, vec![shade(5), shade(3), shade(7), shade(9)]);
    for (i, a) in kept.iter().enumerate() {
        for (j, b) in kept.iter().enumerate() {
            assert_eq!(a.equals(b), i == j);
        }
    }
    for n in order {
        assert_eq!(kept.iter().filter(|t| t.equals(&solid(2, shade(n)))).count(), 1);
    }
}

#[test]
fn dedup_of_nothing_is_nothing_and_of_one_is_one() {
    assert_eq!(dedup(vec![]).len(), 0);
    assert_eq!(dedup(vec![solid(2, shade(1))]).len(), 1);
    assert_eq!(dedup(vec![solid(2, shade(1)), solid(2, shade(1))]).len(), 1);
}

#[test]
fn dedup_tells_tiles_apart_by_a_single_pixel() {
    let plain = solid(2, shade(1));
    let mut marked = solid(2, shade(1));
    marked.put_pixel(1, 0, Color { r: 1, g: 3, b: 254, a: 254 });
    let kept = dedup(vec![plain, marked, solid(2, shade(1))]);
    assert_eq!(kept.len(), 2);
    assert_eq!(kept[1].get_pixel(1, 0), Color { r: 1, g: 3, b: 254, a: 254 });
    assert!(contains_tile(&kept, &solid(2, shade(1))));
    assert!(!contains_tile(&kept, &solid(2, shade(2))));
    assert!(!contains_tile(&kept, &solid(3, shade(1))));
}

#[test]
fn canvas_dimensions_follow_the_search() {
    assert_eq!(canvas_dimensions(0, 8), (0, 8));
    assert_eq!(canvas_dimensions(1, 8), (8, 8));
    assert_eq!(canvas_dimensions(2, 8), (16, 8));
    assert_eq!(canvas_dimensions(3, 8), (24, 8));
    assert_eq!(canvas_dimensions(4, 8), (16, 16));
    assert_eq!(canvas_dimensions(5, 8), (24, 16));
    assert_eq!(canvas_dimensions(6, 8), (24, 16));
    assert_eq!(canvas_dimensions(7, 8), (32, 16));
    assert_eq!(canvas_dimensions(8, 8), (32, 16));
    assert_eq!(canvas_dimensions(9, 8), (24, 24));
    assert_eq!(canvas_dimensions(10, 16), (80, 32));
    assert_eq!(canvas_dimensions(64, 4), (32, 32));
    assert_eq!(canvas_dimensions(5, 1), (3, 2));
    assert_eq!(canvas_dimensions(7, 0), (0, 0));
}

#[test]
fn canvas_dimensions_match_the_plain_double_loop() {
    for tile_size in 1..5u32 {
        for count in 0..14u32 {
            let budget = count * tile_size;
            let (mut width, mut height) = (budget, tile_size);
            for h in 0..budget {
                for w in 0..budget {
                    if h * w >= budget * tile_size
                        && h % tile_size == 0
                        && w % tile_size == 0
                        && w + h < width + height
                    {
                        width = w;
                        height = h;
                    }
                }
            }
            assert_eq!(canvas_dimensions(count as usize, tile_size), (width, height));
        }
    }
}

#[test]
fn can_pack_knows_the_limits() {
    assert!(can_pack(0, 8));
    assert!(can_pack(100, 8));
    assert!(can_pack(3, 0));
    assert!(!can_pack(3, u32::MAX));
    assert!(!can_pack(usize::MAX, 2));
    assert!(can_pack(1, u32::MAX) == (isize::MAX as u128 >= 4 * (u32::MAX as u128).pow(2)));
}

#[test]
fn pack_lays_tiles_out_in_cells() {
    let tiles: Vec<PixelGrid> =
        (0..7u8).map(|n| filled(2, 2, &|x, y| Color { r: n, g: x as u8, b: y as u8, a: 9 })).collect();
    let canvas = pack(&tiles, 2);
    assert_eq!((canvas.width(), canvas.height()), (8, 4));
    let expected = filled(8, 4, &|x, y| {
        let cell = (y / 2) * 4 + x / 2;
        if cell < 7 {
            Color { r: cell as u8, g: (x % 2) as u8, b: (y % 2) as u8, a: 9 }
        } else {
            CLEAR
        }
    });
    assert_eq!(contents(&canvas), contents(&expected));
}

#[test]
fn pack_of_no_tiles_is_an_empty_canvas() {
    let canvas = pack(&vec![], 8);
    assert_eq!((canvas.width(), canvas.height()), (0, 8));
    assert_eq!(contents(&canvas), vec![]);
}

#[test]
fn pack_copies_clear_pixels_over_nothing() {
    let tile = filled(2, 2, &|x, y| Color { r: 40 + x as u8, g: 50 + y as u8, b: 60, a: 0 });
    let canvas = pack(&vec![filled(2, 2, &|x, y| Color { r: 40 + x as u8, g: 50 + y as u8, b: 60, a: 0 })], 2);
    assert!(canvas.equals(&tile));
}
