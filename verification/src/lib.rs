//! Deep Zoom tile pyramids for panoramas split over several side-by-side
//! images.
//!
//! The crate plans the pyramid levels, cuts fixed-size tiles out of the
//! virtual canvas formed by the sources, and halves the resolution level by
//! level by averaging blocks of two by two pixels.

pub mod levels;
pub mod tile;
pub mod reduce;
pub mod canvas;
pub mod extract;
pub mod layout;
