//! A fixed-size character-cell drawing surface, a parallel pixel surface,
//! the transform between their coordinate spaces, and a few drawing
//! primitives (labels, rectangular borders and a byte-grid visualizer).
//!
//! Cells are addressed by integer coordinates: `grid::TextPoint` in text
//! space and `grid::PixelPoint` in pixel space. `space` converts between
//! the two, rounding pixel positions down to the cell that holds them.
use vstd::prelude::*;

pub mod grid;
pub mod space;
pub mod text;

verus! {

/// The class of device that produced a pointer event. Carried as metadata
/// only.
#[derive(Clone, Copy, Debug, PartialEq, Eq, Structural)]
pub enum PointerType {
    Mouse,
    Pen,
    Touch,
}

} // verus!
