//! Adaptive grid-layout and pagination engine for an image-collection viewer.
//!
//! The engine paginates an ordered collection of pictures and, for the current
//! page, chooses the column arrangement whose bounding box best matches the
//! viewport's proportions, then assigns every measured picture a scaled screen
//! coordinate.  All proportions are kept as exact integer ratios, so layout
//! decisions are deterministic and free of rounding surprises.

use vstd::prelude::*;

pub mod app;
pub mod common;
pub mod folder;
pub mod layout;
pub mod location;
pub mod pages;
pub mod picture;
pub mod place;

verus! {

/// Largest pixel dimension (of a picture or of the viewport) the engine
/// accepts.  The bound keeps the exact cross-multiplied fit-error comparison
/// inside 128-bit arithmetic.
pub const MAX_DIM: u32 = 16777216;

/// Largest number of items a single page may hold; the page size itself is a
/// `u8`, so every page the engine forms stays below this.
pub const MAX_PAGE: usize = 256;

/// The failures the layout engine can report.  A missing measurement is not
/// among them: unmeasured pictures are silently excluded from layout math.
#[derive(Clone, Copy, Debug, PartialEq, Eq, Structural)]
pub enum EngineError {
    /// The current page holds no measured picture, so no candidate
    /// arrangement can be evaluated.
    EmptyPage,
    /// A page index beyond the available pages was addressed.
    OutOfRange,
    /// The viewport has zero width or height; scaling would divide by zero.
    DegenerateViewport,
}

} // verus!
