//! Pixel blocks: the value every pyramid step produces and consumes.

use vstd::prelude::*;

verus! {

/// One RGB pixel, eight bits per channel.
#[derive(Clone, Copy, Debug, PartialEq, Eq, Structural)]
pub struct Pixel {
    pub r: u8,
    pub g: u8,
    pub b: u8,
}

/// A rectangular block of pixels stored row by row.
#[derive(Debug)]
pub struct Tile {
    width: usize,
    height: usize,
    data: Vec<Pixel>,
}

/// Position of pixel `(x, y)` in the row-major storage of a block `w` wide.
pub open spec fn flat_index(w: int, x: int, y: int) -> int {
    y * w + x
}

/// A coordinate inside a `w` by `h` block has its storage position inside
/// `w * h`.
pub proof fn lemma_flat_index_in_range(w: int, h: int, x: int, y: int)
    requires
        0 <= x < w,
        0 <= y < h,
    ensures
        0 <= y * w <= flat_index(w, x, y) < w * h,
{
    assert(0 <= y * w <= y * w + x < w * h) by (nonlinear_arith)
        requires
            0 <= x < w,
            0 <= y < h,
    ;
}

/// Two coordinates of one block that share a storage position are equal.
pub proof fn lemma_flat_index_injective(w: int, x1: int, y1: int, x2: int, y2: int)
    requires
        0 <= x1 < w,
        0 <= x2 < w,
        0 <= y1,
        0 <= y2,
        flat_index(w, x1, y1) == flat_index(w, x2, y2),
    ensures
        x1 == x2,
        y1 == y2,
{
    assert(y1 == y2) by (nonlinear_arith)
        requires
            0 <= x1 < w,
            0 <= x2 < w,
            0 <= y1,
            0 <= y2,
            y1 * w + x1 == y2 * w + x2,
    ;
}

/// Pixel number `i` of a buffer of interleaved red, green and blue bytes.
pub open spec fn rgb_at(raw: Seq<u8>, i: int) -> Pixel {
    Pixel { r: raw[3 * i], g: raw[3 * i + 1], b: raw[3 * i + 2] }
}

impl Tile {
    /// The storage holds exactly `width * height` pixels.
    pub closed spec fn wf(&self) -> bool {
        self.data@.len() == self.width * self.height
    }

    /// Number of columns.
    pub closed spec fn spec_width(&self) -> nat {
        self.width as nat
    }

    /// Number of rows.
    pub closed spec fn spec_height(&self) -> nat {
        self.height as nat
    }

    /// The pixel in column `x` of row `y`.
    pub closed spec fn at(&self, x: int, y: int) -> Pixel {
        self.data@[flat_index(self.width as int, x, y)]
    }

    /// All pixels, row by row.
    pub closed spec fn pixels(&self) -> Seq<Pixel> {
        self.data@
    }

    /// `(x, y)` lies inside the block.
    pub open spec fn covers(&self, x: int, y: int) -> bool {
        0 <= x < self.spec_width() && 0 <= y < self.spec_height()
    }

    /// Same size and the same pixel at every coordinate.
    pub open spec fn same_as(&self, other: &Tile) -> bool {
        &&& self.spec_width() == other.spec_width()
        &&& self.spec_height() == other.spec_height()
        &&& forall|x: int, y: int| self.covers(x, y) ==> #[trigger] self.at(x, y) == other.at(x, y)
    }

    /// Blocks of the same size with the same pixel at every coordinate have
    /// the same storage.
    pub proof fn lemma_same_pixels(&self, other: &Tile)
        requires
            self.wf(),
            other.wf(),
            self.same_as(other),
        ensures
            self.pixels() == other.pixels(),
    {
        let w = self.width as int;
        assert forall|i: int| 0 <= i < self.data@.len() implies self.data@[i] == other.data@[i] by {
            assert(w > 0) by (nonlinear_arith)
                requires
                    0 <= i < w * (self.height as int),
                    w >= 0,
            ;
            let x = i % w;
            let y = i / w;
            vstd::arithmetic::div_mod::lemma_fundamental_div_mod(i, w);
            assert(y * w == w * y) by (nonlinear_arith);
            assert(0 <= y < self.height) by (nonlinear_arith)
                requires
                    0 <= i < w * (self.height as int),
                    i == y * w + x,
                    0 <= x < w,
            ;
            assert(self.covers(x, y));
            assert(self.at(x, y) == other.at(x, y));
        }
        assert(self.data@ =~= other.data@);
    }

    /// A block of the given size with every pixel equal to `fill`.
    pub fn new(width: usize, height: usize, fill: Pixel) -> (tile: Tile)
        requires
            width * height <= usize::MAX,
        ensures
            tile.wf(),
            tile.spec_width() == width,
            tile.spec_height() == height,
            forall|x: int, y: int| tile.covers(x, y) ==> #[trigger] tile.at(x, y) == fill,
    {
        let total: usize = width * height;
        let mut data: Vec<Pixel> = Vec::new();
        while data.len() < total
            invariant
                data@.len() <= total,
                forall|i: int| 0 <= i < data@.len() ==> data@[i] == fill,
            decreases total - data@.len(),
        {
            data.push(fill);
        }
        let tile = Tile { width, height, data };
        proof {
            assert forall|x: int, y: int| tile.covers(x, y) implies #[trigger] tile.at(x, y)
                == fill by {
                lemma_flat_index_in_range(width as int, height as int, x, y);
            }
        }
        tile
    }

    /// Number of columns.
    pub fn width(&self) -> (w: usize)
        ensures
            w == self.spec_width(),
    {
        self.width
    }

    /// Number of rows.
    pub fn height(&self) -> (h: usize)
        ensures
            h == self.spec_height(),
    {
        self.height
    }

    /// Reads the pixel in column `x` of row `y`.
    pub fn get(&self, x: usize, y: usize) -> (p: Pixel)
        requires
            self.wf(),
            self.covers(x as int, y as int),
        ensures
            p == self.at(x as int, y as int),
    {
        let len: usize = self.data.len();
        proof {
            lemma_flat_index_in_range(self.width as int, self.height as int, x as int, y as int);
        }
        self.data[y * self.width + x]
    }

    /// Writes the pixel in column `x` of row `y` and leaves the others as
    /// they are.
    pub fn set(&mut self, x: usize, y: usize, p: Pixel)
        requires
            old(self).wf(),
            old(self).covers(x as int, y as int),
        ensures
            final(self).wf(),
            final(self).spec_width() == old(self).spec_width(),
            final(self).spec_height() == old(self).spec_height(),
            final(self).at(x as int, y as int) == p,
            forall|i: int, j: int|
                old(self).covers(i, j) && (i != x || j != y) ==> #[trigger] final(self).at(i, j)
                    == old(self).at(i, j),
    {
        proof {
            lemma_flat_index_in_range(self.width as int, self.height as int, x as int, y as int);
        }
        let w: usize = self.width;
        let len: usize = self.data.len();
        self.data.set(y * w + x, p);
        proof {
            assert forall|i: int, j: int| old(self).covers(i, j) && (i != x || j != y) implies
                #[trigger] self.at(i, j) == old(self).at(i, j) by {
                lemma_flat_index_in_range(w as int, self.height as int, i, j);
                if flat_index(w as int, i, j) == flat_index(w as int, x as int, y as int) {
                    lemma_flat_index_injective(w as int, i, j, x as int, y as int);
                }
            }
        }
    }

    /// Keeps the topmost `height` rows; a block that is not taller than
    /// that stays as it is.
    pub fn crop_top(self, height: usize) -> (cropped: Tile)
        requires
            self.wf(),
        ensures
            cropped.wf(),
            cropped.spec_width() == self.spec_width(),
            cropped.spec_height() == if height < self.spec_height() {
                height as nat
            } else {
                self.spec_height()
            },
            forall|x: int, y: int|
                cropped.covers(x, y) ==> #[trigger] cropped.at(x, y) == self.at(x, y),
    {
        if height >= self.height {
            return self;
        }
        let width: usize = self.width;
        let mut data = self.data;
        let len: usize = data.len();
        proof {
            assert(width * height <= width * self.height) by (nonlinear_arith)
                requires
                    0 <= height < self.height,
                    0 <= width,
            ;
        }
        data.truncate(width * height);
        let cropped = Tile { width, height, data };
        proof {
            assert forall|x: int, y: int| cropped.covers(x, y) implies #[trigger] cropped.at(x, y)
                == self.at(x, y) by {
                lemma_flat_index_in_range(width as int, height as int, x, y);
            }
        }
        cropped
    }

    /// Copies the `width` by `height` rectangle of `src` whose top-left
    /// corner is `(src_x, src_y)` to the rectangle of this block whose
    /// top-left corner is `(dst_x, dst_y)`.
    pub fn copy_from(
        &mut self,
        src: &Tile,
        src_x: usize,
        src_y: usize,
        width: usize,
        height: usize,
        dst_x: usize,
        dst_y: usize,
    )
        requires
            old(self).wf(),
            src.wf(),
            src_x + width <= src.spec_width(),
            src_y + height <= src.spec_height(),
            dst_x + width <= old(self).spec_width(),
            dst_y + height <= old(self).spec_height(),
        ensures
            final(self).wf(),
            final(self).spec_width() == old(self).spec_width(),
            final(self).spec_height() == old(self).spec_height(),
            forall|x: int, y: int|
                old(self).covers(x, y) ==> #[trigger] final(self).at(x, y) == if dst_x <= x < dst_x
                    + width && dst_y <= y < dst_y + height {
                    src.at(x - dst_x + src_x, y - dst_y + src_y)
                } else {
                    old(self).at(x, y)
                },
    {
        let mut j: usize = 0;
        while j < height
            invariant
                self.wf(),
                src.wf(),
                self.spec_width() == old(self).spec_width(),
                self.spec_height() == old(self).spec_height(),
                src_x + width <= src.spec_width(),
                src_y + height <= src.spec_height(),
                dst_x + width <= self.spec_width(),
                dst_y + height <= self.spec_height(),
                j <= height,
                forall|x: int, y: int|
                    old(self).covers(x, y) ==> #[trigger] self.at(x, y) == if dst_x <= x < dst_x
                        + width && dst_y <= y < dst_y + j {
                        src.at(x - dst_x + src_x, y - dst_y + src_y)
                    } else {
                        old(self).at(x, y)
                    },
            decreases height - j,
        {
            let mut i: usize = 0;
            while i < width
                invariant
                    self.wf(),
                    src.wf(),
                    self.spec_width() == old(self).spec_width(),
                    self.spec_height() == old(self).spec_height(),
                    src_x + width <= src.spec_width(),
                    src_y + height <= src.spec_height(),
                    dst_x + width <= self.spec_width(),
                    dst_y + height <= self.spec_height(),
                    j < height,
                    i <= width,
                    forall|x: int, y: int|
                        old(self).covers(x, y) ==> #[trigger] self.at(x, y) == if dst_x <= x
                            < dst_x + width && (dst_y <= y < dst_y + j || (y == dst_y + j && x
                            < dst_x + i)) {
                            src.at(x - dst_x + src_x, y - dst_y + src_y)
                        } else {
                            old(self).at(x, y)
                        },
                decreases width - i,
            {
                let p = src.get(src_x + i, src_y + j);
                self.set(dst_x + i, dst_y + j, p);
                i = i + 1;
            }
            j = j + 1;
        }
    }

    /// A block from its pixels as interleaved red, green and blue bytes,
    /// row by row; none if the buffer does not hold exactly `width * height`
    /// pixels.
    pub fn from_rgb8(width: usize, height: usize, raw: &Vec<u8>) -> (r: Option<Tile>)
        ensures
            match r {
                Some(t) => {
                    &&& raw@.len() == 3 * (width * height)
                    &&& t.wf()
                    &&& t.spec_width() == width
                    &&& t.spec_height() == height
                    &&& forall|x: int, y: int|
                        t.covers(x, y) ==> #[trigger] t.at(x, y) == rgb_at(
                            raw@,
                            flat_index(width as int, x, y),
                        )
                },
                None => raw@.len() != 3 * (width * height),
            },
    {
        let len: usize = raw.len();
        let total: usize = match width.checked_mul(height) {
            Some(t) => t,
            None => {
                return None;
            },
        };
        let bytes: usize = match total.checked_mul(3) {
            Some(b) => b,
            None => {
                return None;
            },
        };
        if len != bytes {
            return None;
        }
        let mut data: Vec<Pixel> = Vec::new();
        let mut i: usize = 0;
        while i < total
            invariant
                len == raw@.len(),
                len == 3 * total,
                total == width * height,
                i <= total,
                data@.len() == i,
                forall|j: int| 0 <= j < i ==> #[trigger] data@[j] == rgb_at(raw@, j),
            decreases total - i,
        {
            data.push(Pixel { r: raw[3 * i], g: raw[3 * i + 1], b: raw[3 * i + 2] });
            i = i + 1;
        }
        let tile = Tile { width, height, data };
        proof {
            assert forall|x: int, y: int| tile.covers(x, y) implies #[trigger] tile.at(x, y)
                == rgb_at(raw@, flat_index(width as int, x, y)) by {
                lemma_flat_index_in_range(width as int, height as int, x, y);
            }
        }
        Some(tile)
    }

    /// The pixels as interleaved red, green and blue bytes, row by row.
    pub fn to_rgb8(&self) -> (raw: Vec<u8>)
        requires
            self.wf(),
        ensures
            raw@.len() == 3 * (self.spec_width() * self.spec_height()),
            forall|x: int, y: int|
                self.covers(x, y) ==> rgb_at(raw@, flat_index(self.spec_width() as int, x, y))
                    == #[trigger] self.at(x, y),
    {
        let total: usize = self.data.len();
        let mut raw: Vec<u8> = Vec::new();
        let mut i: usize = 0;
        while i < total
            invariant
                total == self.data@.len(),
                i <= total,
                raw@.len() == 3 * i,
                forall|j: int| 0 <= j < i ==> rgb_at(raw@, j) == #[trigger] self.data@[j],
            decreases total - i,
        {
            let p: Pixel = self.data[i];
            let ghost before = raw@;
            raw.push(p.r);
            raw.push(p.g);
            raw.push(p.b);
            proof {
                assert forall|j: int| 0 <= j < i + 1 implies rgb_at(raw@, j)
                    == #[trigger] self.data@[j] by {
                    if j < i {
                        assert(rgb_at(before, j) == self.data@[j]);
                    }
                }
            }
            i = i + 1;
        }
        proof {
            assert forall|x: int, y: int| self.covers(x, y) implies rgb_at(
                raw@,
                flat_index(self.width as int, x, y),
            ) == #[trigger] self.at(x, y) by {
                lemma_flat_index_in_range(self.width as int, self.height as int, x, y);
            }
        }
        raw
    }
}

} // verus!
