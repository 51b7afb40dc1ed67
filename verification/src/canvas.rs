//! The virtual canvas: all sources side by side, cut to one common height.

use vstd::prelude::*;
use crate::levels::{
    count_after, half_count, law_root_is_single_tile, levels_for, levels_spec, tile_count,
    tile_count_spec,
};

verus! {

/// Edge length of a full tile.
pub const TILE_SIZE: usize = 512;

/// Canvas column at which source `i` begins: the widths of the sources
/// before it, added up.
pub open spec fn offset(sizes: Seq<(usize, usize)>, i: int) -> int
    decreases i,
{
    if i <= 0 {
        0
    } else {
        offset(sizes, i - 1) + sizes[i - 1].0
    }
}

/// Width of the canvas: the sum of the source widths.
pub open spec fn total_width(sizes: Seq<(usize, usize)>) -> int {
    offset(sizes, sizes.len() as int)
}

/// Smallest height among the first `i` sources.
pub open spec fn min_height(sizes: Seq<(usize, usize)>, i: int) -> int
    decreases i,
{
    if i <= 1 {
        sizes[0].1 as int
    } else if sizes[i - 1].1 < min_height(sizes, i - 1) {
        sizes[i - 1].1 as int
    } else {
        min_height(sizes, i - 1)
    }
}

/// Height of the canvas: the smallest source height.
pub open spec fn common_height(sizes: Seq<(usize, usize)>) -> int {
    min_height(sizes, sizes.len() as int)
}

/// The source that holds canvas column `cx` among the first `n` sources,
/// or -1 if none of them does.
pub open spec fn owner(sizes: Seq<(usize, usize)>, cx: int, n: int) -> int
    decreases n,
{
    if n <= 0 {
        -1
    } else if offset(sizes, n - 1) <= cx < offset(sizes, n) {
        n - 1
    } else {
        owner(sizes, cx, n - 1)
    }
}

/// First column past tile `t` along an axis of length `full`.
pub open spec fn span_end(tile_size: int, t: int, full: int) -> int {
    if t * tile_size + tile_size < full {
        t * tile_size + tile_size
    } else {
        full
    }
}

/// Later sources begin further right.
pub proof fn lemma_offset_monotonic(sizes: Seq<(usize, usize)>, i: int, j: int)
    requires
        0 <= i <= j,
    ensures
        0 <= offset(sizes, i) <= offset(sizes, j),
    decreases j,
{
    if j > 0 {
        if i < j {
            lemma_offset_monotonic(sizes, i, j - 1);
        } else {
            lemma_offset_monotonic(sizes, i - 1, j - 1);
        }
    }
}

/// A column lies in the extent of at most one source: the source whose
/// extent holds it is its owner.
pub proof fn lemma_owner_unique(sizes: Seq<(usize, usize)>, k: int, cx: int, n: int)
    requires
        0 <= k < n,
        offset(sizes, k) <= cx < offset(sizes, k + 1),
    ensures
        owner(sizes, cx, n) == k,
    decreases n,
{
    if n - 1 > k {
        lemma_offset_monotonic(sizes, k + 1, n - 1);
        lemma_owner_unique(sizes, k, cx, n - 1);
    }
}

/// Every column of the canvas has an owner, and lies in its extent.
pub proof fn lemma_owner_exists(sizes: Seq<(usize, usize)>, cx: int, n: int)
    requires
        0 <= cx < offset(sizes, n),
    ensures
        0 <= owner(sizes, cx, n) < n,
        offset(sizes, owner(sizes, cx, n)) <= cx < offset(sizes, owner(sizes, cx, n) + 1),
    decreases n,
{
    if n > 0 && !(offset(sizes, n - 1) <= cx) {
        lemma_owner_exists(sizes, cx, n - 1);
    }
}

/// The common height is the height of one of the sources and no source is
/// lower.
pub proof fn law_common_height_is_minimum(sizes: Seq<(usize, usize)>, i: int)
    requires
        1 <= i <= sizes.len(),
    ensures
        forall|k: int| 0 <= k < i ==> min_height(sizes, i) <= (#[trigger] sizes[k]).1,
        exists|k: int| 0 <= k < i && min_height(sizes, i) == (#[trigger] sizes[k]).1,
    decreases i,
{
    if i > 1 {
        law_common_height_is_minimum(sizes, i - 1);
        let k0 = choose|k: int|
            0 <= k < i - 1 && min_height(sizes, i - 1) == (#[trigger] sizes[k]).1;
        if sizes[i - 1].1 < min_height(sizes, i - 1) {
            assert(min_height(sizes, i) == sizes[i - 1].1);
        } else {
            assert(min_height(sizes, i) == sizes[k0].1);
        }
    } else {
        assert(min_height(sizes, i) == sizes[0].1);
    }
}

/// Why a list of sources gives no canvas.
#[derive(Clone, Copy, Debug, PartialEq, Eq, Structural)]
pub enum CanvasError {
    /// No source was given.
    InputEmpty,
    /// The widths add up to more than the machine word holds.
    TooWide,
    /// The canvas has no pixel: its width and height are both zero.
    EmptyCanvas,
}

/// Size of the canvas.
#[derive(Clone, Copy, Debug, PartialEq, Eq, Structural)]
pub struct Canvas {
    pub full_width: usize,
    pub full_height: usize,
}

/// Everything the pyramid is laid out by.
#[derive(Clone, Copy, Debug, PartialEq, Eq, Structural)]
pub struct Plan {
    pub full_width: usize,
    pub full_height: usize,
    /// Tiles per row at the finest level.
    pub tile_count_width: usize,
    /// Tiles per column at the finest level.
    pub tile_count_height: usize,
    /// Number of levels; the finest is `levels - 1`.
    pub levels: usize,
}

/// Measures the canvas that the sources form, given as `(width, height)`
/// in the order in which they stand side by side.
pub fn measure(sizes: &Vec<(usize, usize)>) -> (r: Result<Canvas, CanvasError>)
    ensures
        match r {
            Ok(c) => sizes@.len() > 0 && c.full_width == total_width(sizes@) && c.full_height
                == common_height(sizes@),
            Err(CanvasError::InputEmpty) => sizes@.len() == 0,
            Err(CanvasError::TooWide) => sizes@.len() > 0 && total_width(sizes@) > usize::MAX,
            Err(CanvasError::EmptyCanvas) => false,
        },
{
    let n: usize = sizes.len();
    if n == 0 {
        return Err(CanvasError::InputEmpty);
    }
    let mut width: usize = sizes[0].0;
    let mut height: usize = sizes[0].1;
    let mut i: usize = 1;
    proof {
        assert(offset(sizes@, 1) == offset(sizes@, 0) + sizes@[0].0);
    }
    while i < n
        invariant
            n == sizes@.len(),
            1 <= i <= n,
            width == offset(sizes@, i as int),
            height == min_height(sizes@, i as int),
        decreases n - i,
    {
        let (w, h) = sizes[i];
        if w > usize::MAX - width {
            proof {
                lemma_offset_monotonic(sizes@, i + 1, n as int);
            }
            return Err(CanvasError::TooWide);
        }
        width = width + w;
        if h < height {
            height = h;
        }
        i = i + 1;
    }
    Ok(Canvas { full_width: width, full_height: height })
}

/// Lays out the pyramid for the given sources: canvas size, finest tile
/// grid, and number of levels, which goes by the larger side of the canvas.
pub fn plan(sizes: &Vec<(usize, usize)>, tile_size: usize) -> (r: Result<Plan, CanvasError>)
    requires
        tile_size > 0,
    ensures
        match r {
            Ok(p) => {
                &&& sizes@.len() > 0
                &&& p.full_width == total_width(sizes@)
                &&& p.full_height == common_height(sizes@)
                &&& plan_fits(p, tile_size as nat)
            },
            Err(CanvasError::InputEmpty) => sizes@.len() == 0,
            Err(CanvasError::TooWide) => sizes@.len() > 0 && total_width(sizes@) > usize::MAX,
            Err(CanvasError::EmptyCanvas) => sizes@.len() > 0 && total_width(sizes@) == 0
                && common_height(sizes@) == 0,
        },
{
    let canvas = match measure(sizes) {
        Ok(c) => c,
        Err(e) => {
            return Err(e);
        },
    };
    let larger: usize = if canvas.full_width >= canvas.full_height {
        canvas.full_width
    } else {
        canvas.full_height
    };
    if larger == 0 {
        return Err(CanvasError::EmptyCanvas);
    }
    Ok(
        Plan {
            full_width: canvas.full_width,
            full_height: canvas.full_height,
            tile_count_width: tile_count(canvas.full_width, tile_size),
            tile_count_height: tile_count(canvas.full_height, tile_size),
            levels: levels_for(larger),
        },
    )
}

/// The larger side of the canvas: the side by which the levels are counted.
pub open spec fn larger_side(full_width: int, full_height: int) -> int {
    if full_width >= full_height {
        full_width
    } else {
        full_height
    }
}

/// The plan is that of a canvas of its size with tiles of edge
/// `tile_size`.
pub open spec fn plan_fits(p: Plan, tile_size: nat) -> bool {
    &&& tile_size > 0
    &&& p.full_width > 0 || p.full_height > 0
    &&& p.tile_count_width == tile_count_spec(p.full_width as nat, tile_size)
    &&& p.tile_count_height == tile_count_spec(p.full_height as nat, tile_size)
    &&& p.levels == levels_spec(larger_side(p.full_width as int, p.full_height as int) as nat)
}

/// Tiles never outnumber pixels.
pub proof fn lemma_tile_count_bounds(len: nat, tile_size: nat)
    requires
        tile_size > 0,
        len > 0,
    ensures
        1 <= tile_count_spec(len, tile_size) <= len,
{
    let q = (len - 1) / (tile_size as int);
    assert(0 <= q <= len - 1) by (nonlinear_arith)
        requires
            q == (len - 1) / (tile_size as int),
            tile_size > 0,
            len >= 1,
    ;
}

/// Level 0 of a canvas that has pixels is a single tile.
pub proof fn law_level_zero_is_one_tile(p: Plan, tile_size: nat)
    requires
        plan_fits(p, tile_size),
        p.full_width > 0,
        p.full_height > 0,
    ensures
        count_after(p.tile_count_width as nat, (p.levels - 1) as nat) == 1,
        count_after(p.tile_count_height as nat, (p.levels - 1) as nat) == 1,
{
    let n = larger_side(p.full_width as int, p.full_height as int) as nat;
    lemma_tile_count_bounds(p.full_width as nat, tile_size);
    lemma_tile_count_bounds(p.full_height as nat, tile_size);
    law_root_is_single_tile(p.tile_count_width as nat, n);
    law_root_is_single_tile(p.tile_count_height as nat, n);
}

/// Tile grid of one level: the finest grid halved, rounding up, once for
/// every level between.
pub fn level_grid(p: &Plan, level: usize) -> (grid: (usize, usize))
    requires
        level < p.levels,
    ensures
        grid.0 == count_after(p.tile_count_width as nat, (p.levels - 1 - level) as nat),
        grid.1 == count_after(p.tile_count_height as nat, (p.levels - 1 - level) as nat),
{
    let mut width: usize = p.tile_count_width;
    let mut height: usize = p.tile_count_height;
    let mut at: usize = p.levels - 1;
    while at > level
        invariant
            level <= at < p.levels,
            count_after(width as nat, (at - level) as nat) == count_after(
                p.tile_count_width as nat,
                (p.levels - 1 - level) as nat,
            ),
            count_after(height as nat, (at - level) as nat) == count_after(
                p.tile_count_height as nat,
                (p.levels - 1 - level) as nat,
            ),
        decreases at,
    {
        width = half_count(width);
        height = half_count(height);
        at = at - 1;
    }
    (width, height)
}

} // verus!
