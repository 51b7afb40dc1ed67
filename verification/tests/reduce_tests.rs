use deepzoom_pano::reduce::{block_pixel_at, children_of, half_res, mean_of};
use deepzoom_pano::tile::{Pixel, Tile};

fn rgb(r: u8, g: u8, b: u8) -> Pixel {
    Pixel { r, g, b }
}

/// A tile whose pixel at `(x, y)` is a function of the block coordinate
/// `(ox + x, oy + y)`.
fn patterned(width: usize, height: usize, ox: usize, oy: usize) -> Tile {
    let mut t = Tile::new(width, height, rgb(0, 0, 0));
    let mut y: usize = 0;
    while y < height {
        let mut x: usize = 0;
        while x < width {
            t.set(x, y, pattern(ox + x, oy + y));
            x += 1;
        }
        y += 1;
    }
    t
}

fn pattern(x: usize, y: usize) -> Pixel {
    rgb((x * 37 + y * 11) as u8, (x * 5 + y * 91 + 3) as u8, (255 - ((x + y) % 256)) as u8)
}

fn floor_mean(ps: &[Pixel]) -> Pixel {
    let n: u32 = ps.len() as u32;
    let mut r: u32 = 0;
    let mut g: u32 = 0;
    let mut b: u32 = 0;
    for p in ps {
        r += p.r as u32;
        g += p.g as u32;
        b += p.b as u32;
    }
    rgb((r / n) as u8, (g / n) as u8, (b / n) as u8)
}

#[test]
fn mean_of_four_rounds_down() {
    let m = mean_of(
        Some(rgb(255, 0, 1)),
        Some(rgb(255, 0, 1)),
        Some(rgb(255, 0, 1)),
        Some(rgb(254, 1, 0)),
    );
    assert_eq!(m, rgb(254, 0, 0));
    let m = mean_of(
        Some(rgb(255, 255, 255)),
        Some(rgb(255, 255, 255)),
        Some(rgb(255, 255, 255)),
        Some(rgb(255, 255, 255)),
    );
    assert_eq!(m, rgb(255, 255, 255));
}

#[test]
fn mean_of_divides_by_the_number_present() {
    assert_eq!(mean_of(Some(rgb(200, 100, 50)), None, None, None), rgb(200, 100, 50));
    assert_eq!(mean_of(None, None, Some(rgb(200, 100, 50)), None), rgb(200, 100, 50));
    assert_eq!(
        mean_of(Some(rgb(200, 100, 51)), None, Some(rgb(100, 101, 50)), None),
        rgb(150, 100, 50)
    );
    assert_eq!(
        mean_of(Some(rgb(10, 20, 30)), Some(rgb(11, 20, 31)), None, Some(rgb(12, 22, 33))),
        rgb(11, 20, 31)
    );
}

#[test]
fn mean_of_nothing_is_black() {
    assert_eq!(mean_of(None, None, None, None), rgb(0, 0, 0));
}

#[test]
fn half_res_of_four_equal_sized_tiles() {
    let tl = patterned(4, 4, 0, 0);
    let tr = patterned(4, 4, 4, 0);
    let bl = patterned(4, 4, 0, 4);
    let br = patterned(4, 4, 4, 4);
    let half = half_res(&tl, Some(&tr), Some(&bl), Some(&br));
    assert_eq!(half.width(), 4);
    assert_eq!(half.height(), 4);
    let mut y: usize = 0;
    while y < 4 {
        let mut x: usize = 0;
        while x < 4 {
            let want = floor_mean(&[
                pattern(2 * x, 2 * y),
                pattern(2 * x + 1, 2 * y),
                pattern(2 * x, 2 * y + 1),
                pattern(2 * x + 1, 2 * y + 1),
            ]);
            assert_eq!(half.get(x, y), want);
            x += 1;
        }
        y += 1;
    }
}

#[test]
fn half_res_of_odd_sized_tiles_crosses_the_seams() {
    let tl = patterned(3, 3, 0, 0);
    let tr = patterned(3, 3, 3, 0);
    let bl = patterned(3, 3, 0, 3);
    let br = patterned(3, 3, 3, 3);
    let half = half_res(&tl, Some(&tr), Some(&bl), Some(&br));
    assert_eq!(half.width(), 3);
    assert_eq!(half.height(), 3);
    let mut y: usize = 0;
    while y < 3 {
        let mut x: usize = 0;
        while x < 3 {
            let want = floor_mean(&[
                pattern(2 * x, 2 * y),
                pattern(2 * x + 1, 2 * y),
                pattern(2 * x, 2 * y + 1),
                pattern(2 * x + 1, 2 * y + 1),
            ]);
            assert_eq!(half.get(x, y), want);
            x += 1;
        }
        y += 1;
    }
}

#[test]
fn half_res_of_a_lone_odd_tile_keeps_its_edges_bright() {
    let tl = patterned(5, 3, 0, 0);
    let half = half_res(&tl, None, None, None);
    assert_eq!(half.width(), 3);
    assert_eq!(half.height(), 2);
    // inner pixel: four present
    assert_eq!(
        half.get(0, 0),
        floor_mean(&[pattern(0, 0), pattern(1, 0), pattern(0, 1), pattern(1, 1)])
    );
    // last column: two present
    assert_eq!(half.get(2, 0), floor_mean(&[pattern(4, 0), pattern(4, 1)]));
    // last row: two present
    assert_eq!(half.get(1, 1), floor_mean(&[pattern(2, 2), pattern(3, 2)]));
    // corner: one present, unchanged
    assert_eq!(half.get(2, 1), pattern(4, 2));
}

#[test]
fn half_res_with_ragged_right_and_bottom_siblings() {
    // a 4x4 top-left tile with a 1 wide right and a 1 high bottom sibling
    let tl = patterned(4, 4, 0, 0);
    let tr = patterned(1, 4, 4, 0);
    let bl = patterned(4, 1, 0, 4);
    let br = patterned(1, 1, 4, 4);
    let half = half_res(&tl, Some(&tr), Some(&bl), Some(&br));
    assert_eq!(half.width(), 3);
    assert_eq!(half.height(), 3);
    assert_eq!(half.get(2, 0), floor_mean(&[pattern(4, 0), pattern(4, 1)]));
    assert_eq!(half.get(0, 2), floor_mean(&[pattern(0, 4), pattern(1, 4)]));
    assert_eq!(half.get(2, 2), pattern(4, 4));
    assert_eq!(
        half.get(1, 1),
        floor_mean(&[pattern(2, 2), pattern(3, 2), pattern(2, 3), pattern(3, 3)])
    );
}

#[test]
fn half_res_without_the_bottom_right_sibling_averages_three() {
    let tl = patterned(1, 1, 0, 0);
    let tr = patterned(1, 1, 1, 0);
    let bl = patterned(1, 1, 0, 1);
    let half = half_res(&tl, Some(&tr), Some(&bl), None);
    assert_eq!(half.width(), 1);
    assert_eq!(half.height(), 1);
    assert_eq!(half.get(0, 0), floor_mean(&[pattern(0, 0), pattern(1, 0), pattern(0, 1)]));
}

#[test]
fn half_res_twice_gives_the_same_tile() {
    let tl = patterned(7, 5, 0, 0);
    let tr = patterned(2, 5, 7, 0);
    let a = half_res(&tl, Some(&tr), None, None);
    let b = half_res(&tl, Some(&tr), None, None);
    assert_eq!(a.width(), 5);
    assert_eq!(a.height(), 3);
    assert_eq!(a.width(), b.width());
    assert_eq!(a.height(), b.height());
    let mut y: usize = 0;
    while y < a.height() {
        let mut x: usize = 0;
        while x < a.width() {
            assert_eq!(a.get(x, y), b.get(x, y));
            x += 1;
        }
        y += 1;
    }
}

#[test]
fn block_pixel_at_picks_the_quadrant_by_coordinate() {
    let tl = patterned(2, 2, 0, 0);
    let tr = patterned(3, 2, 2, 0);
    let bl = patterned(2, 1, 0, 2);
    let br = patterned(3, 1, 2, 2);
    let mut y: usize = 0;
    while y < 5 {
        let mut x: usize = 0;
        while x < 7 {
            let got = block_pixel_at(&tl, Some(&tr), Some(&bl), Some(&br), x, y);
            if x < 5 && y < 3 {
                assert_eq!(got, Some(pattern(x, y)));
            } else {
                assert_eq!(got, None);
            }
            x += 1;
        }
        y += 1;
    }
    assert_eq!(block_pixel_at(&tl, None, Some(&bl), None, 2, 0), None);
    assert_eq!(block_pixel_at(&tl, Some(&tr), None, None, 0, 2), None);
    assert_eq!(block_pixel_at(&tl, Some(&tr), None, None, 4, 1), Some(pattern(4, 1)));
}

#[test]
fn children_of_inner_and_edge_tiles() {
    let c = children_of(0, 0, 3, 2);
    assert_eq!(c.top_left, (0, 0));
    assert_eq!(c.top_right, Some((1, 0)));
    assert_eq!(c.bottom_left, Some((0, 1)));
    assert_eq!(c.bottom_right, Some((1, 1)));
    let c = children_of(1, 0, 3, 2);
    assert_eq!(c.top_left, (2, 0));
    assert_eq!(c.top_right, None);
    assert_eq!(c.bottom_left, Some((2, 1)));
    assert_eq!(c.bottom_right, None);
    let c = children_of(0, 0, 1, 1);
    assert_eq!(c.top_left, (0, 0));
    assert_eq!(c.top_right, None);
    assert_eq!(c.bottom_left, None);
    assert_eq!(c.bottom_right, None);
    let c = children_of(2, 1, 6, 3);
    assert_eq!(c.top_left, (4, 2));
    assert_eq!(c.top_right, Some((5, 2)));
    assert_eq!(c.bottom_left, None);
    assert_eq!(c.bottom_right, None);
}
