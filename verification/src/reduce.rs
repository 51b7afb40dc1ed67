//! Resolution halving: four sibling tiles of one level become one tile of
//! the next coarser level by averaging blocks of two by two pixels.

use vstd::prelude::*;
use crate::levels::half_count_spec;
use crate::tile::{Pixel, Tile};

verus! {

/// Width that the right-hand siblings add to the block; zero when absent.
pub open spec fn right_width(top_right: Option<&Tile>) -> nat {
    match top_right {
        Some(t) => t.spec_width(),
        None => 0,
    }
}

/// Height that the lower siblings add to the block; zero when absent.
pub open spec fn bottom_height(bottom_left: Option<&Tile>) -> nat {
    match bottom_left {
        Some(t) => t.spec_height(),
        None => 0,
    }
}

/// Width of the reduced tile.
pub open spec fn half_width_spec(top_left: &Tile, top_right: Option<&Tile>) -> nat {
    (top_left.spec_width() + right_width(top_right) + 1) / 2
}

/// Height of the reduced tile.
pub open spec fn half_height_spec(top_left: &Tile, bottom_left: Option<&Tile>) -> nat {
    (top_left.spec_height() + bottom_height(bottom_left) + 1) / 2
}

/// The four siblings line up edge to edge: tiles side by side have one
/// height, tiles above each other one width.
pub open spec fn siblings_fit(
    top_left: &Tile,
    top_right: Option<&Tile>,
    bottom_left: Option<&Tile>,
    bottom_right: Option<&Tile>,
) -> bool {
    &&& top_left.wf()
    &&& match top_right {
        Some(t) => t.wf() && t.spec_height() == top_left.spec_height(),
        None => true,
    }
    &&& match bottom_left {
        Some(t) => t.wf() && t.spec_width() == top_left.spec_width(),
        None => true,
    }
    &&& match bottom_right {
        Some(t) => t.wf() && t.spec_width() == right_width(top_right) && t.spec_height()
            == bottom_height(bottom_left),
        None => true,
    }
}

/// The pixel of an optional tile at a local coordinate, if the tile is
/// there and covers it.
pub open spec fn lookup(tile: Option<&Tile>, x: int, y: int) -> Option<Pixel> {
    match tile {
        Some(t) => if t.covers(x, y) {
            Some(t.at(x, y))
        } else {
            None
        },
        None => None,
    }
}

/// The pixel at coordinate `(x, y)` of the block that the four siblings
/// form; the quadrant is chosen by the coordinate alone.
pub open spec fn block_pixel(
    top_left: &Tile,
    top_right: Option<&Tile>,
    bottom_left: Option<&Tile>,
    bottom_right: Option<&Tile>,
    x: int,
    y: int,
) -> Option<Pixel> {
    let w = top_left.spec_width() as int;
    let h = top_left.spec_height() as int;
    if x < w && y < h {
        lookup(Some(top_left), x, y)
    } else if x < w {
        lookup(bottom_left, x, y - h)
    } else if y < h {
        lookup(top_right, x - w, y)
    } else {
        lookup(bottom_right, x - w, y - h)
    }
}

/// 1 for a pixel that is there, 0 for an absent one.
pub open spec fn present(p: Option<Pixel>) -> int {
    if p is Some {
        1
    } else {
        0
    }
}

/// Red channel of a present pixel; an absent one adds nothing.
pub open spec fn red(p: Option<Pixel>) -> int {
    match p {
        Some(q) => q.r as int,
        None => 0,
    }
}

/// Green channel of a present pixel; an absent one adds nothing.
pub open spec fn green(p: Option<Pixel>) -> int {
    match p {
        Some(q) => q.g as int,
        None => 0,
    }
}

/// Blue channel of a present pixel; an absent one adds nothing.
pub open spec fn blue(p: Option<Pixel>) -> int {
    match p {
        Some(q) => q.b as int,
        None => 0,
    }
}

/// The pixel with all channels zero.
pub open spec fn black() -> Pixel {
    Pixel { r: 0, g: 0, b: 0 }
}

/// Mean per channel, rounded down, of those of four pixels that are
/// present; black when none is.
pub open spec fn mean_pixel(
    a: Option<Pixel>,
    b: Option<Pixel>,
    c: Option<Pixel>,
    d: Option<Pixel>,
) -> Pixel {
    let n = present(a) + present(b) + present(c) + present(d);
    if n == 0 {
        black()
    } else {
        Pixel {
            r: ((red(a) + red(b) + red(c) + red(d)) / n) as u8,
            g: ((green(a) + green(b) + green(c) + green(d)) / n) as u8,
            b: ((blue(a) + blue(b) + blue(c) + blue(d)) / n) as u8,
        }
    }
}

/// Pixel `(x, y)` of the reduced tile: the mean of the block pixels at
/// `(2x, 2y)`, `(2x+1, 2y)`, `(2x, 2y+1)` and `(2x+1, 2y+1)`.
pub open spec fn reduced_pixel(
    top_left: &Tile,
    top_right: Option<&Tile>,
    bottom_left: Option<&Tile>,
    bottom_right: Option<&Tile>,
    x: int,
    y: int,
) -> Pixel {
    mean_pixel(
        block_pixel(top_left, top_right, bottom_left, bottom_right, 2 * x, 2 * y),
        block_pixel(top_left, top_right, bottom_left, bottom_right, 2 * x + 1, 2 * y),
        block_pixel(top_left, top_right, bottom_left, bottom_right, 2 * x, 2 * y + 1),
        block_pixel(top_left, top_right, bottom_left, bottom_right, 2 * x + 1, 2 * y + 1),
    )
}

/// `half` is the reduction of the four siblings: it has the halved size,
/// rounded up, and every pixel of it is the mean of its block.
pub open spec fn is_reduction(
    half: &Tile,
    top_left: &Tile,
    top_right: Option<&Tile>,
    bottom_left: Option<&Tile>,
    bottom_right: Option<&Tile>,
) -> bool {
    &&& half.wf()
    &&& half.spec_width() == half_width_spec(top_left, top_right)
    &&& half.spec_height() == half_height_spec(top_left, bottom_left)
    &&& forall|x: int, y: int|
        half.covers(x, y) ==> #[trigger] half.at(x, y) == reduced_pixel(
            top_left,
            top_right,
            bottom_left,
            bottom_right,
            x,
            y,
        )
}

/// Reducing the same siblings again gives the same tile, pixel for pixel.
pub proof fn law_reduction_repeatable(
    first: &Tile,
    second: &Tile,
    top_left: &Tile,
    top_right: Option<&Tile>,
    bottom_left: Option<&Tile>,
    bottom_right: Option<&Tile>,
)
    requires
        is_reduction(first, top_left, top_right, bottom_left, bottom_right),
        is_reduction(second, top_left, top_right, bottom_left, bottom_right),
    ensures
        first.same_as(second),
        first.pixels() == second.pixels(),
{
    assert forall|x: int, y: int| first.covers(x, y) implies #[trigger] first.at(x, y)
        == second.at(x, y) by {
        assert(second.covers(x, y));
    }
    first.lemma_same_pixels(second);
}

/// Where all four siblings are present and as large as the top-left one,
/// every pixel of the reduced tile is the mean of four pixels, rounded down.
pub proof fn law_full_block_mean(
    top_left: &Tile,
    top_right: &Tile,
    bottom_left: &Tile,
    bottom_right: &Tile,
    x: int,
    y: int,
)
    requires
        siblings_fit(top_left, Some(top_right), Some(bottom_left), Some(bottom_right)),
        top_right.spec_width() == top_left.spec_width(),
        bottom_left.spec_height() == top_left.spec_height(),
        0 <= x < half_width_spec(top_left, Some(top_right)),
        0 <= y < half_height_spec(top_left, Some(bottom_left)),
    ensures
        ({
            let a = block_pixel(
                top_left,
                Some(top_right),
                Some(bottom_left),
                Some(bottom_right),
                2 * x,
                2 * y,
            );
            let b = block_pixel(
                top_left,
                Some(top_right),
                Some(bottom_left),
                Some(bottom_right),
                2 * x + 1,
                2 * y,
            );
            let c = block_pixel(
                top_left,
                Some(top_right),
                Some(bottom_left),
                Some(bottom_right),
                2 * x,
                2 * y + 1,
            );
            let d = block_pixel(
                top_left,
                Some(top_right),
                Some(bottom_left),
                Some(bottom_right),
                2 * x + 1,
                2 * y + 1,
            );
            let m = reduced_pixel(
                top_left,
                Some(top_right),
                Some(bottom_left),
                Some(bottom_right),
                x,
                y,
            );
            &&& a is Some && b is Some && c is Some && d is Some
            &&& m.r == (a.unwrap().r + b.unwrap().r + c.unwrap().r + d.unwrap().r) / 4
            &&& m.g == (a.unwrap().g + b.unwrap().g + c.unwrap().g + d.unwrap().g) / 4
            &&& m.b == (a.unwrap().b + b.unwrap().b + c.unwrap().b + d.unwrap().b) / 4
        }),
{
}

/// Where only the top-left tile is present and its width and height are
/// odd, the last pixel of the reduced tile is the last pixel of that tile
/// unchanged: the three missing neighbours do not darken it.
pub proof fn law_lone_corner_kept(top_left: &Tile)
    requires
        top_left.wf(),
        top_left.spec_width() % 2 == 1,
        top_left.spec_height() % 2 == 1,
    ensures
        reduced_pixel(
            top_left,
            None,
            None,
            None,
            half_width_spec(top_left, None) - 1,
            half_height_spec(top_left, None) - 1,
        ) == top_left.at(top_left.spec_width() - 1, top_left.spec_height() - 1),
{
    let w = top_left.spec_width() as int;
    let h = top_left.spec_height() as int;
    let x = half_width_spec(top_left, None) - 1;
    let y = half_height_spec(top_left, None) - 1;
    assert(2 * x == w - 1 && 2 * y == h - 1);
    let p = top_left.at(w - 1, h - 1);
    assert(block_pixel(top_left, None, None, None, 2 * x, 2 * y) == Some(p));
    assert(block_pixel(top_left, None, None, None, 2 * x + 1, 2 * y) is None);
    assert(block_pixel(top_left, None, None, None, 2 * x, 2 * y + 1) is None);
    assert(block_pixel(top_left, None, None, None, 2 * x + 1, 2 * y + 1) is None);
    let m = mean_pixel(Some(p), None, None, None);
    assert(m.r == p.r && m.g == p.g && m.b == p.b);
}

/// Where the right-hand siblings are absent and the top-left tile has an
/// odd width, a pixel of the last column is the mean of the one or two
/// pixels above each other that exist, never of four.
pub proof fn law_trailing_column_mean(top_left: &Tile, bottom_left: Option<&Tile>, y: int)
    requires
        siblings_fit(top_left, None, bottom_left, None),
        top_left.spec_width() % 2 == 1,
        0 <= y < half_height_spec(top_left, bottom_left),
    ensures
        ({
            let x = half_width_spec(top_left, None) - 1;
            let a = block_pixel(top_left, None, bottom_left, None, 2 * x, 2 * y);
            let c = block_pixel(top_left, None, bottom_left, None, 2 * x, 2 * y + 1);
            let m = reduced_pixel(top_left, None, bottom_left, None, x, y);
            &&& a is Some
            &&& c is None ==> m == a.unwrap()
            &&& c is Some ==> m.r == (a.unwrap().r + c.unwrap().r) / 2 && m.g == (a.unwrap().g
                + c.unwrap().g) / 2 && m.b == (a.unwrap().b + c.unwrap().b) / 2
        }),
{
    let w = top_left.spec_width() as int;
    let x = half_width_spec(top_left, None) - 1;
    assert(2 * x == w - 1);
    let a = block_pixel(top_left, None, bottom_left, None, 2 * x, 2 * y);
    let b = block_pixel(top_left, None, bottom_left, None, 2 * x + 1, 2 * y);
    let c = block_pixel(top_left, None, bottom_left, None, 2 * x, 2 * y + 1);
    let d = block_pixel(top_left, None, bottom_left, None, 2 * x + 1, 2 * y + 1);
    assert(a is Some);
    assert(b is None);
    assert(d is None);
    let m = mean_pixel(a, b, c, d);
    if c is None {
        assert(m.r == a.unwrap().r && m.g == a.unwrap().g && m.b == a.unwrap().b);
    } else {
        assert(present(a) + present(b) + present(c) + present(d) == 2);
    }
}

/// Grid coordinates, one level finer, of the four siblings that make a
/// tile; a sibling outside the finer grid is absent.
#[derive(Clone, Copy, Debug)]
pub struct Children {
    pub top_left: (usize, usize),
    pub top_right: Option<(usize, usize)>,
    pub bottom_left: Option<(usize, usize)>,
    pub bottom_right: Option<(usize, usize)>,
}

/// The siblings of tile `(tx, ty)` in a finer grid of `tile_count_width` by
/// `tile_count_height` tiles. The top-left one always lies in that grid.
pub fn children_of(tx: usize, ty: usize, tile_count_width: usize, tile_count_height: usize) -> (c:
    Children)
    requires
        tx < half_count_spec(tile_count_width as nat),
        ty < half_count_spec(tile_count_height as nat),
    ensures
        c.top_left.0 == 2 * tx,
        c.top_left.1 == 2 * ty,
        2 * tx < tile_count_width,
        2 * ty < tile_count_height,
        c.top_right == if 2 * tx + 1 < tile_count_width {
            Some(((2 * tx + 1) as usize, (2 * ty) as usize))
        } else {
            None
        },
        c.bottom_left == if 2 * ty + 1 < tile_count_height {
            Some(((2 * tx) as usize, (2 * ty + 1) as usize))
        } else {
            None
        },
        c.bottom_right == if 2 * tx + 1 < tile_count_width && 2 * ty + 1 < tile_count_height {
            Some(((2 * tx + 1) as usize, (2 * ty + 1) as usize))
        } else {
            None
        },
{
    let x: usize = 2 * tx;
    let y: usize = 2 * ty;
    let right: bool = x + 1 < tile_count_width;
    let below: bool = y + 1 < tile_count_height;
    Children {
        top_left: (x, y),
        top_right: if right {
            Some((x + 1, y))
        } else {
            None
        },
        bottom_left: if below {
            Some((x, y + 1))
        } else {
            None
        },
        bottom_right: if right && below {
            Some((x + 1, y + 1))
        } else {
            None
        },
    }
}

fn lookup_pixel(tile: Option<&Tile>, x: usize, y: usize) -> (p: Option<Pixel>)
    requires
        tile is Some ==> tile.unwrap().wf(),
    ensures
        p == lookup(tile, x as int, y as int),
{
    match tile {
        Some(t) => {
            if x < t.width() && y < t.height() {
                Some(t.get(x, y))
            } else {
                None
            }
        },
        None => None,
    }
}

/// Reads coordinate `(x, y)` of the block that the four siblings form.
pub fn block_pixel_at(
    top_left: &Tile,
    top_right: Option<&Tile>,
    bottom_left: Option<&Tile>,
    bottom_right: Option<&Tile>,
    x: usize,
    y: usize,
) -> (p: Option<Pixel>)
    requires
        siblings_fit(top_left, top_right, bottom_left, bottom_right),
    ensures
        p == block_pixel(top_left, top_right, bottom_left, bottom_right, x as int, y as int),
{
    let w: usize = top_left.width();
    let h: usize = top_left.height();
    if x < w && y < h {
        lookup_pixel(Some(top_left), x, y)
    } else if x < w {
        lookup_pixel(bottom_left, x, y - h)
    } else if y < h {
        lookup_pixel(top_right, x - w, y)
    } else {
        lookup_pixel(bottom_right, x - w, y - h)
    }
}

/// Running count and channel sums of the pixels seen so far.
struct Sums {
    count: u16,
    r: u16,
    g: u16,
    b: u16,
}

fn accumulate(acc: Sums, p: Option<Pixel>) -> (next: Sums)
    requires
        acc.count <= 3,
        acc.r <= 255 * acc.count,
        acc.g <= 255 * acc.count,
        acc.b <= 255 * acc.count,
    ensures
        next.count == acc.count + present(p),
        next.r == acc.r + red(p),
        next.g == acc.g + green(p),
        next.b == acc.b + blue(p),
        next.r <= 255 * next.count,
        next.g <= 255 * next.count,
        next.b <= 255 * next.count,
{
    match p {
        Some(q) => Sums {
            count: acc.count + 1,
            r: acc.r + q.r as u16,
            g: acc.g + q.g as u16,
            b: acc.b + q.b as u16,
        },
        None => acc,
    }
}

/// Mean per channel of the pixels that are present, summed in sixteen bits
/// and divided by their number.
pub fn mean_of(a: Option<Pixel>, b: Option<Pixel>, c: Option<Pixel>, d: Option<Pixel>) -> (m: Pixel)
    ensures
        m == mean_pixel(a, b, c, d),
{
    let s0 = Sums { count: 0, r: 0, g: 0, b: 0 };
    let s1 = accumulate(s0, a);
    let s2 = accumulate(s1, b);
    let s3 = accumulate(s2, c);
    let s = accumulate(s3, d);
    if s.count == 0 {
        Pixel { r: 0, g: 0, b: 0 }
    } else {
        proof {
            let n = s.count as int;
            assert(s.r as int / n <= 255 && s.g as int / n <= 255 && s.b as int / n <= 255)
                by (nonlinear_arith)
                requires
                    n > 0,
                    s.r <= 255 * n,
                    s.g <= 255 * n,
                    s.b <= 255 * n,
            ;
        }
        Pixel { r: (s.r / s.count) as u8, g: (s.g / s.count) as u8, b: (s.b / s.count) as u8 }
    }
}

/// Builds the tile of the next coarser level from up to four sibling tiles.
///
/// An absent sibling adds nothing to the block. Every pixel of the result
/// is the mean of those pixels of its two by two block that exist.
pub fn half_res(
    top_left: &Tile,
    top_right: Option<&Tile>,
    bottom_left: Option<&Tile>,
    bottom_right: Option<&Tile>,
) -> (half: Tile)
    requires
        siblings_fit(top_left, top_right, bottom_left, bottom_right),
        top_left.spec_width() + right_width(top_right) < usize::MAX,
        top_left.spec_height() + bottom_height(bottom_left) < usize::MAX,
        half_width_spec(top_left, top_right) * half_height_spec(top_left, bottom_left)
            <= usize::MAX,
    ensures
        is_reduction(&half, top_left, top_right, bottom_left, bottom_right),
{
    let right: usize = match top_right {
        Some(t) => t.width(),
        None => 0,
    };
    let bottom: usize = match bottom_left {
        Some(t) => t.height(),
        None => 0,
    };
    let half_width: usize = (top_left.width() + right + 1) / 2;
    let half_height: usize = (top_left.height() + bottom + 1) / 2;
    let mut half = Tile::new(half_width, half_height, Pixel { r: 0, g: 0, b: 0 });
    let mut y: usize = 0;
    while y < half_height
        invariant
            siblings_fit(top_left, top_right, bottom_left, bottom_right),
            half_width == half_width_spec(top_left, top_right),
            half_height == half_height_spec(top_left, bottom_left),
            top_left.spec_width() + right_width(top_right) < usize::MAX,
            top_left.spec_height() + bottom_height(bottom_left) < usize::MAX,
            half.wf(),
            half.spec_width() == half_width,
            half.spec_height() == half_height,
            y <= half_height,
            forall|i: int, j: int|
                0 <= i < half_width && 0 <= j < y ==> #[trigger] half.at(i, j) == reduced_pixel(
                    top_left,
                    top_right,
                    bottom_left,
                    bottom_right,
                    i,
                    j,
                ),
        decreases half_height - y,
    {
        let mut x: usize = 0;
        while x < half_width
            invariant
                siblings_fit(top_left, top_right, bottom_left, bottom_right),
                half_width == half_width_spec(top_left, top_right),
                half_height == half_height_spec(top_left, bottom_left),
                top_left.spec_width() + right_width(top_right) < usize::MAX,
                top_left.spec_height() + bottom_height(bottom_left) < usize::MAX,
                half.wf(),
                half.spec_width() == half_width,
                half.spec_height() == half_height,
                y < half_height,
                x <= half_width,
                forall|i: int, j: int|
                    0 <= i < half_width && 0 <= j < y ==> #[trigger] half.at(i, j)
                        == reduced_pixel(top_left, top_right, bottom_left, bottom_right, i, j),
                forall|i: int|
                    0 <= i < x ==> #[trigger] half.at(i, y as int) == reduced_pixel(
                        top_left,
                        top_right,
                        bottom_left,
                        bottom_right,
                        i,
                        y as int,
                    ),
            decreases half_width - x,
        {
            let a = block_pixel_at(top_left, top_right, bottom_left, bottom_right, 2 * x, 2 * y);
            let b = block_pixel_at(
                top_left,
                top_right,
                bottom_left,
                bottom_right,
                2 * x + 1,
                2 * y,
            );
            let c = block_pixel_at(
                top_left,
                top_right,
                bottom_left,
                bottom_right,
                2 * x,
                2 * y + 1,
            );
            let d = block_pixel_at(
                top_left,
                top_right,
                bottom_left,
                bottom_right,
                2 * x + 1,
                2 * y + 1,
            );
            half.set(x, y, mean_of(a, b, c, d));
            x = x + 1;
        }
        y = y + 1;
    }
    half
}

} // verus!
