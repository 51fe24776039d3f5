//! The fixed cell patterns of a frame that a receiver knows in advance:
//! corner markers, the header area and the pseudo-random calibration cells,
//! and the gray levels of four-level cells.

use vstd::prelude::*;
use crate::layout::{CORNER, STRIP_H};

verus! {

/// Which corner marker.
#[derive(Clone, Copy, Debug, PartialEq, Eq, Structural)]
pub enum Corner {
    TopLeft,
    TopRight,
    BottomLeft,
    BottomRight,
}

/// Cell (r, c) of a corner marker. The outer ring is black for every corner;
/// the inner 4x4 differs: filled, hollow, centre 2x2 only, checkerboard.
pub open spec fn spec_corner_black(which: Corner, r: int, c: int) -> bool {
    if r == 0 || r == CORNER - 1 || c == 0 || c == CORNER - 1 {
        true
    } else {
        match which {
            Corner::TopLeft => true,
            Corner::TopRight => false,
            Corner::BottomLeft => 2 <= r < 4 && 2 <= c < 4,
            Corner::BottomRight => (r + c) % 2 == 0,
        }
    }
}

pub fn corner_black(which: Corner, r: usize, c: usize) -> (b: bool)
    requires
        r < CORNER,
        c < CORNER,
    ensures
        b == spec_corner_black(which, r as int, c as int),
{
    let border = r == 0 || r == CORNER - 1 || c == 0 || c == CORNER - 1;
    if border {
        return true;
    }
    match which {
        Corner::TopLeft => true,
        Corner::TopRight => false,
        Corner::BottomLeft => 2 <= r && r < 4 && 2 <= c && c < 4,
        Corner::BottomRight => (r + c) % 2 == 0,
    }
}

/// Kind and top-left cell of the four corner markers of a `w` x `h` frame,
/// in the order top-left, top-right, bottom-left, bottom-right.
pub open spec fn spec_corner_origin(w: int, h: int, q: int) -> (Corner, int, int) {
    if q == 0 {
        (Corner::TopLeft, 0, 0)
    } else if q == 1 {
        (Corner::TopRight, 0, w - CORNER)
    } else if q == 2 {
        (Corner::BottomLeft, h - CORNER, 0)
    } else {
        (Corner::BottomRight, h - CORNER, w - CORNER)
    }
}

pub fn corner_origins(w: usize, h: usize) -> (r: [(Corner, usize, usize); 4])
    requires
        w >= CORNER,
        h >= CORNER,
    ensures
        forall|q: int|
            0 <= q < 4 ==> ((#[trigger] r@[q]).0, r@[q].1 as int, r@[q].2 as int)
                == spec_corner_origin(w as int, h as int, q),
{
    [
        (Corner::TopLeft, 0, 0),
        (Corner::TopRight, 0, w - CORNER),
        (Corner::BottomLeft, h - CORNER, 0),
        (Corner::BottomRight, h - CORNER, w - CORNER),
    ]
}

/// Number of header cells of a frame `w` cells wide: rows 1..6 of the top
/// strip between the two corner markers.
pub open spec fn header_cell_count(w: int) -> int {
    (STRIP_H - 1) * (w - 2 * CORNER)
}

/// The `i`-th header cell, row by row.
pub open spec fn spec_header_cell(w: int, i: int) -> (int, int) {
    (1 + i / (w - 2 * CORNER), CORNER + i % (w - 2 * CORNER))
}

/// The header cells of a frame `w` cells wide, row by row.
pub fn header_cells(w: usize) -> (cells: Vec<(usize, usize)>)
    requires
        w >= 2 * CORNER,
        (STRIP_H - 1) * (w - 2 * CORNER) <= usize::MAX,
    ensures
        cells@.len() == header_cell_count(w as int),
        forall|i: int|
            0 <= i < cells@.len() ==> ((#[trigger] cells@[i]).0 as int, cells@[i].1 as int)
                == spec_header_cell(w as int, i),
{
    let mut cells: Vec<(usize, usize)> = Vec::new();
    let span = w - 2 * CORNER;
    let mut r: usize = 1;
    while r < STRIP_H
        invariant
            1 <= r <= STRIP_H,
            span == w - 2 * CORNER,
            w >= 2 * CORNER,
            (STRIP_H - 1) * span <= usize::MAX,
            cells@.len() == (r - 1) * span,
            forall|i: int|
                0 <= i < cells@.len() ==> ((#[trigger] cells@[i]).0 as int, cells@[i].1 as int)
                    == spec_header_cell(w as int, i),
        decreases STRIP_H - r,
    {
        let mut c: usize = CORNER;
        while c < w - CORNER
            invariant
                1 <= r < STRIP_H,
                CORNER <= c <= w - CORNER,
                span == w - 2 * CORNER,
                w >= 2 * CORNER,
                (STRIP_H - 1) * span <= usize::MAX,
                cells@.len() == (r - 1) * span + (c - CORNER),
                forall|i: int|
                    0 <= i < cells@.len() ==> ((#[trigger] cells@[i]).0 as int, cells@[i].1 as int)
                        == spec_header_cell(w as int, i),
            decreases w - CORNER - c,
        {
            proof {
                let i = (r - 1) * span + (c - CORNER);
                assert(i / (span as int) == r - 1 && i % (span as int) == c - CORNER) by {
                    vstd::arithmetic::div_mod::lemma_fundamental_div_mod_converse(
                        i,
                        span as int,
                        (r - 1) as int,
                        (c - CORNER) as int,
                    );
                }
                assert((r - 1) * span + span <= (STRIP_H - 1) * span) by (nonlinear_arith)
                    requires
                        r < STRIP_H,
                ;
            }
            cells.push((r, c));
            c = c + 1;
        }
        proof {
            assert((r - 1) * span + span == r * span) by (nonlinear_arith);
        }
        r = r + 1;
    }
    cells
}

/// The pseudo-random calibration cell at (r, c), drawn on the top timing row
/// and the bottom strip. A coordinate hash rather than a periodic pattern, so
/// that a misplacement by even one cell drops the agreement to about half.
pub open spec fn spec_calib_black(r: int, c: int) -> bool {
    let x0 = ((r as u32).wrapping_mul(0x9E37_79B1u32)) ^ ((c as u32).wrapping_mul(0x85EB_CA77u32));
    let x1 = x0 ^ (x0 >> 13u32);
    let x2 = x1.wrapping_mul(0xC2B2_AE3Du32);
    let x3 = x2 ^ (x2 >> 16u32);
    x3 & 1u32 == 1u32
}

pub fn calib_black(r: usize, c: usize) -> (b: bool)
    ensures
        b == spec_calib_black(r as int, c as int),
{
    let mut x = (r as u32).wrapping_mul(0x9E37_79B1) ^ (c as u32).wrapping_mul(0x85EB_CA77);
    x = x ^ (x >> 13);
    x = x.wrapping_mul(0xC2B2_AE3D);
    x = x ^ (x >> 16);
    x & 1 == 1
}

/// Gray value of a brightness level of a four-level cell: 0 is black, 3 white.
pub open spec fn spec_level_gray(level: u8) -> u8 {
    let l = level & 3u8;
    if l == 0 {
        0
    } else if l == 1 {
        85
    } else if l == 2 {
        170
    } else {
        255
    }
}

pub fn level_gray(level: u8) -> (g: u8)
    ensures
        g == spec_level_gray(level),
{
    let table: [u8; 4] = [0, 85, 170, 255];
    let i = (level & 3) as usize;
    assert(level & 3u8 < 4) by (bit_vector);
    table[i]
}

/// The brightness level nearest to a gray value (ideal channel).
pub open spec fn spec_nearest_level(v: u8) -> u8 {
    if v <= 42 {
        0
    } else if v <= 127 {
        1
    } else if v <= 212 {
        2
    } else {
        3
    }
}

pub fn nearest_level(v: u8) -> (l: u8)
    ensures
        l == spec_nearest_level(v),
{
    if v <= 42 {
        0
    } else if v <= 127 {
        1
    } else if v <= 212 {
        2
    } else {
        3
    }
}

/// Reading back the gray value of a level gives the level.
pub proof fn lemma_level_roundtrip(level: u8)
    requires
        level < 4,
    ensures
        spec_nearest_level(spec_level_gray(level)) == level,
{
    assert(level < 4 ==> level & 3u8 == level) by (bit_vector);
}

} // verus!
