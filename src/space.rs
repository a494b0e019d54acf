//! The transform between pixel space and text space.
//!
//! A character cell covers `GLYPH_WIDTH x GLYPH_HEIGHT` pixels. A pixel
//! position maps to the cell that contains it (rounding towards negative
//! infinity, the same floor policy that addresses a buffer), and a cell maps
//! back to the pixel at its top-left corner.
use vstd::prelude::*;
use crate::grid::{PixelPoint, TextPoint};

verus! {

/// Width of one character cell, in pixels.
pub const GLYPH_WIDTH: usize = 8;

/// Height of one character cell, in pixels.
pub const GLYPH_HEIGHT: usize = 16;

/// The text coordinate of the cell that holds pixel coordinate `v`, for
/// cells `glyph` pixels across.
pub open spec fn to_text_axis(v: int, glyph: int) -> int {
    v / glyph
}

/// The pixel coordinate of the top-left corner of cell `v`, for cells
/// `glyph` pixels across.
pub open spec fn to_pixel_axis(v: int, glyph: int) -> int {
    v * glyph
}

/// The pixel point `at` in text space.
pub fn pixelspace_to_textspace(at: PixelPoint) -> (r: TextPoint)
    ensures
        r.x == to_text_axis(at.x as int, GLYPH_WIDTH as int),
        r.y == to_text_axis(at.y as int, GLYPH_HEIGHT as int),
{
    TextPoint { x: floor_div(at.x, GLYPH_WIDTH as i32), y: floor_div(at.y, GLYPH_HEIGHT as i32) }
}

/// The text point `at` in pixel space; `at` must be small enough that the
/// result fits in the coordinate type.
pub fn textspace_to_pixelspace(at: TextPoint) -> (r: PixelPoint)
    requires
        i32::MIN <= to_pixel_axis(at.x as int, GLYPH_WIDTH as int) <= i32::MAX,
        i32::MIN <= to_pixel_axis(at.y as int, GLYPH_HEIGHT as int) <= i32::MAX,
    ensures
        r.x == to_pixel_axis(at.x as int, GLYPH_WIDTH as int),
        r.y == to_pixel_axis(at.y as int, GLYPH_HEIGHT as int),
{
    PixelPoint { x: at.x * (GLYPH_WIDTH as i32), y: at.y * (GLYPH_HEIGHT as i32) }
}

/// `v / d`, rounded towards negative infinity.
fn floor_div(v: i32, d: i32) -> (r: i32)
    requires
        d > 0,
    ensures
        r == v as int / d as int,
{
    if v >= 0 {
        v / d
    } else {
        let m: i32 = -(v + 1);
        let q: i32 = m / d;
        assert(-(q + 1) == v as int / d as int) by (nonlinear_arith)
            requires
                m == -(v + 1),
                q == m / d,
                d > 0,
                v < 0,
        {
            lemma_floor_of_negative(v as int, d as int);
        }
        -q - 1
    }
}

proof fn lemma_floor_of_negative(v: int, d: int)
    requires
        v < 0,
        d > 0,
    ensures
        v / d == -((-(v + 1)) / d + 1),
{
    let m = -(v + 1);
    let q = m / d;
    let r = m % d;
    vstd::arithmetic::div_mod::lemma_fundamental_div_mod(m, d);
    assert(0 <= r < d);
    assert(v == -(q + 1) * d + (d - 1 - r)) by (nonlinear_arith)
        requires
            m == -(v + 1),
            m == d * q + r,
    ;
    vstd::arithmetic::div_mod::lemma_fundamental_div_mod_converse(v, d, -(q + 1), d - 1 - r);
}

/// Converting a cell to pixel space and back gives the same cell: the
/// composition involves no rounding in this direction.
pub proof fn lemma_text_round_trip(v: int, glyph: int)
    requires
        glyph > 0,
    ensures
        to_text_axis(to_pixel_axis(v, glyph), glyph) == v,
{
    vstd::arithmetic::div_mod::lemma_div_multiples_vanish(v, glyph);
    assert(v * glyph == glyph * v) by (nonlinear_arith);
}

/// A pixel coordinate on a cell boundary survives the trip to text space
/// and back unchanged.
pub proof fn lemma_pixel_round_trip_exact(v: int, glyph: int)
    requires
        glyph > 0,
        v % glyph == 0,
    ensures
        to_pixel_axis(to_text_axis(v, glyph), glyph) == v,
{
    vstd::arithmetic::div_mod::lemma_fundamental_div_mod(v, glyph);
    assert(v / glyph * glyph == glyph * (v / glyph)) by (nonlinear_arith);
}

/// Any pixel coordinate comes back from the trip to text space as the corner
/// of the cell that holds it: at most one cell before it, and within half a
/// cell when it lies in the first half of its cell.
pub proof fn lemma_pixel_round_trip_near(v: int, glyph: int)
    requires
        glyph > 0,
    ensures
        0 <= v - to_pixel_axis(to_text_axis(v, glyph), glyph) < glyph,
        v - to_pixel_axis(to_text_axis(v, glyph), glyph) == v % glyph,
        2 * (v % glyph) <= glyph ==> 2 * (v - to_pixel_axis(to_text_axis(v, glyph), glyph))
            <= glyph,
{
    vstd::arithmetic::div_mod::lemma_fundamental_div_mod(v, glyph);
    assert(v / glyph * glyph == glyph * (v / glyph)) by (nonlinear_arith);
}

} // verus!
