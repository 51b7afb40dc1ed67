//! Tile extraction at the finest level, from a sliding cache of decoded
//! sources.
//!
//! The extractor never decodes anything itself. Asked for a tile, it either
//! hands the tile out or names the source it still needs; the caller decodes
//! that source, supplies it, and asks again. Sources that the sweep has left
//! behind are dropped from the cache on the way.

use vstd::prelude::*;
use std::collections::HashMap;
use crate::canvas::{
    common_height, lemma_offset_monotonic, lemma_owner_unique, measure, offset, owner, span_end,
    total_width, CanvasError,
};
use crate::tile::{Pixel, Tile};

verus! {

broadcast use vstd::std_specs::hash::group_hash_axioms;

/// Source `k` shares at least one column with the canvas columns
/// `left .. right`.
pub open spec fn overlaps(sizes: Seq<(usize, usize)>, k: int, left: int, right: int) -> bool {
    &&& offset(sizes, k) < offset(sizes, k + 1)
    &&& offset(sizes, k) < right
    &&& left < offset(sizes, k + 1)
}

/// Every cached image belongs to a source and has that source's width and
/// the canvas height.
pub open spec fn cache_fits(
    sizes: Seq<(usize, usize)>,
    height: int,
    cache: Map<usize, Tile>,
) -> bool {
    forall|k: usize| #[trigger]
        cache.contains_key(k) ==> {
            &&& k < sizes.len()
            &&& cache[k].wf()
            &&& cache[k].spec_width() == sizes[k as int].0
            &&& cache[k].spec_height() == height
        }
}

/// The cache holds every source that shares a column with the canvas
/// columns `left .. right`.
pub open spec fn holds_span(
    sizes: Seq<(usize, usize)>,
    cache: Map<usize, Tile>,
    left: int,
    right: int,
) -> bool {
    forall|j: usize|
        j < sizes.len() && overlaps(sizes, j as int, left, right) ==> #[trigger] cache.contains_key(
            j,
        )
}

/// The pixel at canvas coordinate `(cx, cy)`: found by adding up the source
/// widths from the left and reading the image of the source that holds
/// column `cx`.
pub open spec fn canvas_pixel(
    sizes: Seq<(usize, usize)>,
    images: Map<usize, Tile>,
    cx: int,
    cy: int,
) -> Pixel {
    let k = owner(sizes, cx, sizes.len() as int);
    images[k as usize].at(cx - offset(sizes, k), cy)
}

/// The same pixel read from all sources held at once, each cut to the
/// canvas height.
pub open spec fn reference_pixel(
    sizes: Seq<(usize, usize)>,
    images: Seq<Tile>,
    cx: int,
    cy: int,
) -> Pixel {
    let k = owner(sizes, cx, sizes.len() as int);
    images[k].at(cx - offset(sizes, k), cy)
}

/// A cache holds copies of the images in `images`, under their indices.
pub open spec fn cache_of(cache: Map<usize, Tile>, images: Seq<Tile>) -> bool {
    forall|k: usize| #[trigger]
        cache.contains_key(k) ==> k < images.len() && cache[k].same_as(&images[k as int])
}

/// Reading a canvas pixel through the cache gives what reading it from all
/// sources held at once gives, whenever the cache holds the source that
/// owns the column.
pub proof fn law_cache_reads_reference(
    sizes: Seq<(usize, usize)>,
    images: Seq<Tile>,
    cache: Map<usize, Tile>,
    height: int,
    cx: int,
    cy: int,
)
    requires
        sizes.len() <= usize::MAX,
        cache_fits(sizes, height, cache),
        cache_of(cache, images),
        0 <= cx < total_width(sizes),
        0 <= cy < height,
        cache.contains_key(owner(sizes, cx, sizes.len() as int) as usize),
    ensures
        canvas_pixel(sizes, cache, cx, cy) == reference_pixel(sizes, images, cx, cy),
{
    let n = sizes.len() as int;
    crate::canvas::lemma_owner_exists(sizes, cx, n);
    let k = owner(sizes, cx, n);
    let t = cache[k as usize];
    assert(offset(sizes, k + 1) == offset(sizes, k) + sizes[k].0);
    assert(t.covers(cx - offset(sizes, k), cy));
}

/// What the cache holds beyond the owners of the columns read does not
/// matter: two caches of the same images give the same canvas pixel.
pub proof fn law_cache_contents_irrelevant(
    sizes: Seq<(usize, usize)>,
    images: Seq<Tile>,
    first: Map<usize, Tile>,
    second: Map<usize, Tile>,
    height: int,
    cx: int,
    cy: int,
)
    requires
        sizes.len() <= usize::MAX,
        cache_fits(sizes, height, first),
        cache_fits(sizes, height, second),
        cache_of(first, images),
        cache_of(second, images),
        0 <= cx < total_width(sizes),
        0 <= cy < height,
        first.contains_key(owner(sizes, cx, sizes.len() as int) as usize),
        second.contains_key(owner(sizes, cx, sizes.len() as int) as usize),
    ensures
        canvas_pixel(sizes, first, cx, cy) == canvas_pixel(sizes, second, cx, cy),
{
    law_cache_reads_reference(sizes, images, first, height, cx, cy);
    law_cache_reads_reference(sizes, images, second, height, cx, cy);
}

/// `tile` is tile `(tx, ty)` of edge `tile_size` of the canvas that the
/// sources form: it is clipped at the canvas border, and every pixel of it
/// is the canvas pixel at its place.
pub open spec fn is_extraction(
    tile: &Tile,
    sizes: Seq<(usize, usize)>,
    images: Map<usize, Tile>,
    tile_size: int,
    tx: int,
    ty: int,
) -> bool {
    &&& tile.wf()
    &&& tile.spec_width() == span_end(tile_size, tx, total_width(sizes)) - tx * tile_size
    &&& tile.spec_height() == span_end(tile_size, ty, common_height(sizes)) - ty * tile_size
    &&& forall|x: int, y: int|
        tile.covers(x, y) ==> #[trigger] tile.at(x, y) == canvas_pixel(
            sizes,
            images,
            tx * tile_size + x,
            ty * tile_size + y,
        )
}

/// A tile cut through the cache is, pixel for pixel, the tile cut from all
/// sources held at once.
pub proof fn law_extraction_matches_reference(
    tile: &Tile,
    sizes: Seq<(usize, usize)>,
    images: Seq<Tile>,
    cache: Map<usize, Tile>,
    tile_size: int,
    tx: int,
    ty: int,
    x: int,
    y: int,
)
    requires
        sizes.len() <= usize::MAX,
        tile_size > 0,
        tx >= 0,
        ty >= 0,
        cache_fits(sizes, common_height(sizes), cache),
        cache_of(cache, images),
        holds_span(sizes, cache, tx * tile_size, span_end(tile_size, tx, total_width(sizes))),
        is_extraction(tile, sizes, cache, tile_size, tx, ty),
        tile.covers(x, y),
    ensures
        tile.at(x, y) == reference_pixel(sizes, images, tx * tile_size + x, ty * tile_size + y),
{
    let n = sizes.len() as int;
    let cx = tx * tile_size + x;
    let cy = ty * tile_size + y;
    assert(0 <= tx * tile_size && 0 <= ty * tile_size) by (nonlinear_arith)
        requires
            tile_size > 0,
            tx >= 0,
            ty >= 0,
    ;
    crate::canvas::lemma_owner_exists(sizes, cx, n);
    let k = owner(sizes, cx, n);
    assert(overlaps(sizes, k, tx * tile_size, span_end(tile_size, tx, total_width(sizes))));
    assert(cache.contains_key(k as usize));
    law_cache_reads_reference(sizes, images, cache, common_height(sizes), cx, cy);
}

/// Cutting the same tile again, through whatever cache of the same sources,
/// gives the same tile, pixel for pixel.
pub proof fn law_extraction_repeatable(
    first: &Tile,
    second: &Tile,
    sizes: Seq<(usize, usize)>,
    images: Seq<Tile>,
    first_cache: Map<usize, Tile>,
    second_cache: Map<usize, Tile>,
    tile_size: int,
    tx: int,
    ty: int,
)
    requires
        sizes.len() <= usize::MAX,
        tile_size > 0,
        tx >= 0,
        ty >= 0,
        cache_fits(sizes, common_height(sizes), first_cache),
        cache_fits(sizes, common_height(sizes), second_cache),
        cache_of(first_cache, images),
        cache_of(second_cache, images),
        holds_span(
            sizes,
            first_cache,
            tx * tile_size,
            span_end(tile_size, tx, total_width(sizes)),
        ),
        holds_span(
            sizes,
            second_cache,
            tx * tile_size,
            span_end(tile_size, tx, total_width(sizes)),
        ),
        is_extraction(first, sizes, first_cache, tile_size, tx, ty),
        is_extraction(second, sizes, second_cache, tile_size, tx, ty),
    ensures
        first.same_as(second),
        first.pixels() == second.pixels(),
{
    assert forall|x: int, y: int| first.covers(x, y) implies #[trigger] first.at(x, y)
        == second.at(x, y) by {
        assert(second.covers(x, y));
        law_extraction_matches_reference(
            first,
            sizes,
            images,
            first_cache,
            tile_size,
            tx,
            ty,
            x,
            y,
        );
        law_extraction_matches_reference(
            second,
            sizes,
            images,
            second_cache,
            tile_size,
            tx,
            ty,
            x,
            y,
        );
    }
    first.lemma_same_pixels(second);
}

/// Why a decoded source was not taken into the cache.
#[derive(Clone, Copy, Debug, PartialEq, Eq, Structural)]
pub enum SupplyError {
    /// The index names no source.
    UnknownSource,
    /// The image is not as wide as the source was measured, or is lower
    /// than the canvas.
    SizeMismatch,
}

/// Outcome of asking for a tile.
#[derive(Debug)]
pub enum Extraction {
    /// The tile, cut from the cached sources.
    Tile(Tile),
    /// The first source that the tile needs and the cache lacks.
    Missing(usize),
}

/// Cuts tiles of the finest level out of the canvas.
pub struct ImgExtractor {
    sizes: Vec<(usize, usize)>,
    full_width: usize,
    full_height: usize,
    img_cache: HashMap<usize, Tile>,
}

impl ImgExtractor {
    /// The sources as `(width, height)`, from left to right.
    pub closed spec fn sources(&self) -> Seq<(usize, usize)> {
        self.sizes@
    }

    /// The decoded sources that are resident, by source index.
    pub closed spec fn cache(&self) -> Map<usize, Tile> {
        self.img_cache@
    }

    /// Width of the canvas.
    pub closed spec fn spec_full_width(&self) -> int {
        self.full_width as int
    }

    /// Height of the canvas.
    pub closed spec fn spec_full_height(&self) -> int {
        self.full_height as int
    }

    /// The canvas size is that of the sources, and the cache fits them.
    pub open spec fn wf(&self) -> bool {
        &&& self.sources().len() > 0
        &&& self.spec_full_width() == total_width(self.sources())
        &&& self.spec_full_height() == common_height(self.sources())
        &&& cache_fits(self.sources(), self.spec_full_height(), self.cache())
    }

    /// An extractor over the given sources, with nothing cached.
    pub fn new(img_sizes: Vec<(usize, usize)>) -> (r: Result<ImgExtractor, CanvasError>)
        ensures
            match r {
                Ok(e) => e.wf() && e.sources() == img_sizes@ && e.cache().dom().is_empty(),
                Err(CanvasError::InputEmpty) => img_sizes@.len() == 0,
                Err(CanvasError::TooWide) => img_sizes@.len() > 0 && total_width(img_sizes@)
                    > usize::MAX,
                Err(CanvasError::EmptyCanvas) => false,
            },
    {
        match measure(&img_sizes) {
            Ok(canvas) => Ok(
                ImgExtractor {
                    sizes: img_sizes,
                    full_width: canvas.full_width,
                    full_height: canvas.full_height,
                    img_cache: HashMap::new(),
                },
            ),
            Err(e) => Err(e),
        }
    }

    /// Width of the canvas: the sum of the source widths.
    pub fn full_width(&self) -> (w: usize)
        ensures
            w == self.spec_full_width(),
    {
        self.full_width
    }

    /// Height of the canvas: the smallest source height.
    pub fn full_height(&self) -> (h: usize)
        ensures
            h == self.spec_full_height(),
    {
        self.full_height
    }

    /// Whether source `id` is resident.
    pub fn is_cached(&self, id: usize) -> (b: bool)
        ensures
            b == self.cache().contains_key(id),
    {
        self.img_cache.contains_key(&id)
    }

    /// Number of resident sources.
    pub fn cached_count(&self) -> (n: usize)
        ensures
            n == self.cache().len(),
    {
        self.img_cache.len()
    }

    /// Takes the decoded image of source `id` into the cache, cut at the
    /// top to the canvas height.
    pub fn supply(&mut self, id: usize, img: Tile) -> (r: Result<(), SupplyError>)
        requires
            old(self).wf(),
            img.wf(),
        ensures
            final(self).wf(),
            final(self).sources() == old(self).sources(),
            match r {
                Ok(()) => {
                    &&& id < old(self).sources().len()
                    &&& img.spec_width() == old(self).sources()[id as int].0
                    &&& img.spec_height() >= old(self).spec_full_height()
                    &&& final(self).cache().dom() == old(self).cache().dom().insert(id)
                    &&& forall|k: usize|
                        k != id && old(self).cache().contains_key(k) ==> final(self).cache()[k]
                            == #[trigger] old(self).cache()[k]
                    &&& forall|x: int, y: int|
                        final(self).cache()[id].covers(x, y) ==> #[trigger] final(self).cache()[id]
                            .at(x, y) == img.at(x, y)
                },
                Err(SupplyError::UnknownSource) => {
                    &&& id >= old(self).sources().len()
                    &&& final(self).cache() == old(self).cache()
                },
                Err(SupplyError::SizeMismatch) => {
                    &&& id < old(self).sources().len()
                    &&& (img.spec_width() != old(self).sources()[id as int].0
                        || img.spec_height() < old(self).spec_full_height())
                    &&& final(self).cache() == old(self).cache()
                },
            },
    {
        if id >= self.sizes.len() {
            return Err(SupplyError::UnknownSource);
        }
        if img.width() != self.sizes[id].0 || img.height() < self.full_height {
            return Err(SupplyError::SizeMismatch);
        }
        let cropped = img.crop_top(self.full_height);
        self.img_cache.insert(id, cropped);
        proof {
            assert(self.img_cache@.dom() =~= old(self).img_cache@.dom().insert(id));
        }
        Ok(())
    }

    /// Cuts tile `(tx, ty)` of edge `tile_size` out of the canvas.
    ///
    /// Sources that share no column with the tile are dropped from the
    /// cache first. If the cache then lacks a source that the tile needs,
    /// the first such source is named and no tile is made. Otherwise every
    /// pixel of the tile is the canvas pixel at its place.
    pub fn extract(&mut self, tile_size: usize, tx: usize, ty: usize) -> (r: Extraction)
        requires
            old(self).wf(),
            tile_size > 0,
            tile_size * tile_size <= usize::MAX,
            tx * tile_size < old(self).spec_full_width(),
            ty * tile_size < old(self).spec_full_height(),
        ensures
            final(self).wf(),
            final(self).sources() == old(self).sources(),
            forall|k: usize|
                #![trigger final(self).cache().contains_key(k)]
                #![trigger old(self).cache().contains_key(k)]
                final(self).cache().contains_key(k) <==> old(self).cache().contains_key(k)
                    && overlaps(
                    old(self).sources(),
                    k as int,
                    tx * tile_size,
                    span_end(tile_size as int, tx as int, old(self).spec_full_width()),
                ),
            forall|k: usize| #[trigger]
                final(self).cache().contains_key(k) ==> final(self).cache()[k] == old(
                    self
                ).cache()[k],
            match r {
                Extraction::Missing(id) => {
                    &&& id < old(self).sources().len()
                    &&& !old(self).cache().contains_key(id)
                    &&& overlaps(
                        old(self).sources(),
                        id as int,
                        tx * tile_size,
                        span_end(tile_size as int, tx as int, old(self).spec_full_width()),
                    )
                    &&& forall|j: usize|
                        j < id && overlaps(
                            old(self).sources(),
                            j as int,
                            tx * tile_size,
                            span_end(tile_size as int, tx as int, old(self).spec_full_width()),
                        ) ==> #[trigger] old(self).cache().contains_key(j)
                },
                Extraction::Tile(t) => {
                    &&& holds_span(
                        old(self).sources(),
                        old(self).cache(),
                        tx * tile_size,
                        span_end(tile_size as int, tx as int, old(self).spec_full_width()),
                    )
                    &&& is_extraction(
                        &t,
                        old(self).sources(),
                        old(self).cache(),
                        tile_size as int,
                        tx as int,
                        ty as int,
                    )
                },
            },
    {
        let n: usize = self.sizes.len();
        let left: usize = tx * tile_size;
        let top: usize = ty * tile_size;
        let right: usize = if self.full_width - left <= tile_size {
            self.full_width
        } else {
            left + tile_size
        };
        let bottom: usize = if self.full_height - top <= tile_size {
            self.full_height
        } else {
            top + tile_size
        };
        let ghost sizes = self.sizes@;
        let ghost before = self.img_cache@;
        assert(right == span_end(tile_size as int, tx as int, self.full_width as int));
        assert(bottom == span_end(tile_size as int, ty as int, self.full_height as int));

        // Sweep: drop what the tile does not touch, find what it lacks.
        let mut missing: Option<usize> = None;
        let mut accum_left: usize = 0;
        let mut id: usize = 0;
        while id < n
            invariant
                n == sizes.len(),
                self.sizes@ == sizes,
                self.full_width == old(self).full_width,
                self.full_height == old(self).full_height,
                self.full_width == total_width(sizes),
                id <= n,
                accum_left == offset(sizes, id as int),
                forall|k: usize|
                    #![trigger self.img_cache@.contains_key(k)]
                    #![trigger before.contains_key(k)]
                    self.img_cache@.contains_key(k) <==> before.contains_key(k) && (k >= id
                        || overlaps(sizes, k as int, left as int, right as int)),
                forall|k: usize| #[trigger]
                    self.img_cache@.contains_key(k) ==> self.img_cache@[k] == before[k],
                match missing {
                    Some(m) => {
                        &&& m < id
                        &&& !before.contains_key(m)
                        &&& overlaps(sizes, m as int, left as int, right as int)
                        &&& forall|j: usize|
                            j < m && overlaps(sizes, j as int, left as int, right as int)
                                ==> #[trigger] before.contains_key(j)
                    },
                    None => forall|j: usize|
                        j < id && overlaps(sizes, j as int, left as int, right as int)
                            ==> #[trigger] before.contains_key(j),
                },
            decreases n - id,
        {
            let w: usize = self.sizes[id].0;
            proof {
                lemma_offset_monotonic(sizes, id + 1, n as int);
            }
            let end: usize = accum_left + w;
            if w > 0 && accum_left < right && left < end {
                if missing.is_none() && !self.img_cache.contains_key(&id) {
                    missing = Some(id);
                }
            } else {
                self.img_cache.remove(&id);
            }
            accum_left = end;
            id = id + 1;
        }
        proof {
            assert forall|k: usize| #[trigger] before.contains_key(k) implies k < n by {}
        }
        if let Some(m) = missing {
            return Extraction::Missing(m);
        }
        // Compose: copy from each source the columns it shares with the tile.

        let tile_width: usize = right - left;
        let tile_height: usize = bottom - top;
        proof {
            assert(tile_width * tile_height <= tile_size * tile_size) by (nonlinear_arith)
                requires
                    0 <= tile_width <= tile_size,
                    0 <= tile_height <= tile_size,
            ;
        }
        let mut img_tile = Tile::new(tile_width, tile_height, Pixel { r: 0, g: 0, b: 0 });
        let mut accum_left: usize = 0;
        let mut id: usize = 0;
        while id < n && accum_left < right
            invariant
                n == sizes.len(),
                self.sizes@ == sizes,
                self.full_width == total_width(sizes),
                self.full_height == common_height(sizes),
                cache_fits(sizes, self.full_height as int, before),
                left < right <= self.full_width,
                top < bottom <= self.full_height,
                tile_width == right - left,
                tile_height == bottom - top,
                id <= n,
                accum_left == offset(sizes, id as int),
                forall|k: usize|
                    #![trigger self.img_cache@.contains_key(k)]
                    self.img_cache@.contains_key(k) ==> before.contains_key(k)
                        && self.img_cache@[k] == before[k],
                forall|j: usize|
                    j < n && overlaps(sizes, j as int, left as int, right as int)
                        ==> #[trigger] self.img_cache@.contains_key(j),
                img_tile.wf(),
                img_tile.spec_width() == tile_width,
                img_tile.spec_height() == tile_height,
                forall|x: int, y: int|
                    img_tile.covers(x, y) && left + x < accum_left ==> #[trigger] img_tile.at(x, y)
                        == canvas_pixel(sizes, before, left + x, top + y),
            decreases n - id,
        {
            let w: usize = self.sizes[id].0;
            proof {
                lemma_offset_monotonic(sizes, id + 1, n as int);
            }
            let end: usize = accum_left + w;
            if w > 0 && left < end {
                assert(overlaps(sizes, id as int, left as int, right as int));
                assert(self.img_cache@.contains_key(id));
                match self.img_cache.get(&id) {
                    Some(img) => {
                        let inner_left: usize = if left > accum_left {
                            left - accum_left
                        } else {
                            0
                        };
                        let inner_right: usize = if right - accum_left < w {
                            right - accum_left
                        } else {
                            w
                        };
                        let tile_inner_left: usize = if accum_left > left {
                            accum_left - left
                        } else {
                            0
                        };
                        let ghost earlier = img_tile;
                        img_tile.copy_from(
                            img,
                            inner_left,
                            top,
                            inner_right - inner_left,
                            tile_height,
                            tile_inner_left,
                            0,
                        );
                        proof {
                            assert forall|x: int, y: int|
                                img_tile.covers(x, y) && left + x < end implies #[trigger] img_tile.at(
                                x,
                                y,
                            ) == canvas_pixel(sizes, before, left + x, top + y) by {
                                assert(earlier.covers(x, y));
                                if left + x >= accum_left {
                                    lemma_owner_unique(sizes, id as int, left + x, n as int);
                                } else {
                                    assert(img_tile.at(x, y) == earlier.at(x, y));
                                }
                            }
                        }
                    },
                    None => {
                        proof {
                            assert(false);
                        }
                    },
                }
            }
            accum_left = end;
            id = id + 1;
        }
        Extraction::Tile(img_tile)
    }
}

} // verus!
