use deepzoom_pano::tile::{Pixel, Tile};

fn px(v: u8) -> Pixel {
    Pixel { r: v, g: v.wrapping_add(1), b: v.wrapping_add(2) }
}

#[test]
fn new_tile_is_filled() {
    let t = Tile::new(3, 2, px(7));
    assert_eq!(t.width(), 3);
    assert_eq!(t.height(), 2);
    let mut y: usize = 0;
    while y < 2 {
        let mut x: usize = 0;
        while x < 3 {
            assert_eq!(t.get(x, y), px(7));
            x += 1;
        }
        y += 1;
    }
}

#[test]
fn empty_tile_has_no_pixels() {
    let t = Tile::new(0, 5, px(1));
    assert_eq!(t.width(), 0);
    assert_eq!(t.height(), 5);
}

#[test]
fn set_changes_one_pixel_only() {
    let mut t = Tile::new(4, 3, px(0));
    t.set(2, 1, px(100));
    let mut y: usize = 0;
    while y < 3 {
        let mut x: usize = 0;
        while x < 4 {
            let want = if x == 2 && y == 1 { px(100) } else { px(0) };
            assert_eq!(t.get(x, y), want);
            x += 1;
        }
        y += 1;
    }
}

#[test]
fn crop_top_keeps_upper_rows() {
    let mut t = Tile::new(2, 4, px(0));
    let mut y: usize = 0;
    while y < 4 {
        t.set(0, y, px((10 * y) as u8));
        t.set(1, y, px((10 * y + 1) as u8));
        y += 1;
    }
    let c = t.crop_top(2);
    assert_eq!(c.width(), 2);
    assert_eq!(c.height(), 2);
    assert_eq!(c.get(0, 0), px(0));
    assert_eq!(c.get(1, 0), px(1));
    assert_eq!(c.get(0, 1), px(10));
    assert_eq!(c.get(1, 1), px(11));
}

#[test]
fn crop_top_beyond_height_keeps_all() {
    let t = Tile::new(2, 3, px(9));
    let c = t.crop_top(10);
    assert_eq!(c.width(), 2);
    assert_eq!(c.height(), 3);
    assert_eq!(c.get(1, 2), px(9));
}

#[test]
fn copy_from_moves_a_rectangle() {
    let mut src = Tile::new(5, 4, px(0));
    let mut y: usize = 0;
    while y < 4 {
        let mut x: usize = 0;
        while x < 5 {
            src.set(x, y, px((y * 5 + x) as u8));
            x += 1;
        }
        y += 1;
    }
    let mut dst = Tile::new(4, 4, px(200));
    dst.copy_from(&src, 2, 1, 3, 2, 1, 2);
    let mut j: usize = 0;
    while j < 4 {
        let mut i: usize = 0;
        while i < 4 {
            let inside = i >= 1 && i < 4 && j >= 2 && j < 4;
            let want = if inside { px(((j - 2 + 1) * 5 + (i - 1 + 2)) as u8) } else { px(200) };
            assert_eq!(dst.get(i, j), want);
            i += 1;
        }
        j += 1;
    }
}

#[test]
fn from_rgb8_reads_interleaved_bytes() {
    let raw: Vec<u8> = vec![1, 2, 3, 4, 5, 6, 7, 8, 9, 10, 11, 12, 13, 14, 15, 16, 17, 18];
    let t = Tile::from_rgb8(3, 2, &raw).unwrap();
    assert_eq!(t.width(), 3);
    assert_eq!(t.height(), 2);
    assert_eq!(t.get(0, 0), Pixel { r: 1, g: 2, b: 3 });
    assert_eq!(t.get(2, 0), Pixel { r: 7, g: 8, b: 9 });
    assert_eq!(t.get(0, 1), Pixel { r: 10, g: 11, b: 12 });
    assert_eq!(t.get(2, 1), Pixel { r: 16, g: 17, b: 18 });
}

#[test]
fn from_rgb8_refuses_a_buffer_of_another_length() {
    let raw: Vec<u8> = vec![0; 17];
    assert!(Tile::from_rgb8(3, 2, &raw).is_none());
    let raw: Vec<u8> = vec![0; 18];
    assert!(Tile::from_rgb8(2, 2, &raw).is_none());
    assert!(Tile::from_rgb8(usize::MAX, 2, &raw).is_none());
    assert!(Tile::from_rgb8(usize::MAX / 2, 2, &raw).is_none());
    let raw: Vec<u8> = Vec::new();
    assert!(Tile::from_rgb8(0, 7, &raw).is_some());
}

#[test]
fn to_rgb8_writes_what_from_rgb8_reads() {
    let raw: Vec<u8> = vec![9, 8, 7, 6, 5, 4, 3, 2, 1, 0, 255, 254];
    let t = Tile::from_rgb8(2, 2, &raw).unwrap();
    assert_eq!(t.to_rgb8(), raw);
    let mut u = Tile::new(2, 1, px(0));
    u.set(1, 0, Pixel { r: 50, g: 60, b: 70 });
    assert_eq!(u.to_rgb8(), vec![0, 1, 2, 50, 60, 70]);
}
