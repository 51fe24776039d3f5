//! What the camera scanner decides on plain values: the cells whose colour a
//! receiver knows in advance (it fits the cell grid to the image by them),
//! the cells a binarisation threshold is taken from, the check of a header
//! read from the image against the grid it was read with, and the layouts
//! and rotations a receiver tries.

use vstd::prelude::*;
use crate::arith::lemma_div_below;
use crate::frame::FrameError;
use crate::header::FrameHeader;
use crate::layout::{Layout, CORNER, STRIP_H};
use crate::pattern::{
    calib_black, corner_black, corner_origins, spec_calib_black, spec_corner_black,
    spec_corner_origin,
};

verus! {

/// A grayscale camera image, row by row.
pub struct GrayImage<'a> {
    pub w: usize,
    pub h: usize,
    pub data: &'a [u8],
}

impl<'a> GrayImage<'a> {
    /// Pixel (x, y).
    pub fn get(&self, x: usize, y: usize) -> (v: u8)
        requires
            y * self.w + x < self.data@.len(),
        ensures
            v == self.data@[y * self.w + x],
    {
        let n = self.data.len();
        assert(y * self.w <= y * self.w + x);
        self.data[y * self.w + x]
    }
}

/// Cells of the four corner markers.
pub open spec fn corner_cell_count() -> int {
    4 * CORNER * CORNER
}

/// Corner cell `k` (marker by marker in the order top-left, top-right,
/// bottom-left, bottom-right, then row by row): its row, column and colour.
pub open spec fn corner_cell(w: int, h: int, k: int) -> (int, int, bool) {
    let q = k / (CORNER * CORNER) as int;
    let rr = (k % (CORNER * CORNER) as int) / CORNER as int;
    let cc = k % CORNER as int;
    let o = spec_corner_origin(w, h, q);
    (o.1 + rr, o.2 + cc, spec_corner_black(o.0, rr, cc))
}

/// The cells of the corner markers of a frame of grid `layout`, with their
/// colours. Coarse alignment scores a guess by them: their structure is
/// large and survives a blurry image.
pub fn corner_cells(layout: Layout) -> (cells: Vec<(usize, usize, bool)>)
    requires
        layout.spec_width() <= usize::MAX,
        layout.spec_height() <= usize::MAX,
        layout.spec_width() >= CORNER,
    ensures
        cells@.len() == corner_cell_count(),
        forall|k: int|
            0 <= k < cells@.len() ==> ((#[trigger] cells@[k]).0 as int, cells@[k].1 as int, cells@[k].2)
                == corner_cell(layout.spec_width(), layout.spec_height(), k),
{
    let w = layout.width();
    let h = layout.height();
    let origins = corner_origins(w, h);
    let total: usize = 4 * CORNER * CORNER;
    let mut cells: Vec<(usize, usize, bool)> = Vec::new();
    let mut k: usize = 0;
    while k < total
        invariant
            k <= total,
            total == corner_cell_count(),
            w == layout.spec_width(),
            h == layout.spec_height(),
            w >= CORNER,
            h >= CORNER,
            forall|q: int|
                0 <= q < 4 ==> ((#[trigger] origins@[q]).0, origins@[q].1 as int, origins@[q].2 as int)
                    == spec_corner_origin(w as int, h as int, q),
            cells@.len() == k,
            forall|j: int|
                0 <= j < k ==> ((#[trigger] cells@[j]).0 as int, cells@[j].1 as int, cells@[j].2)
                    == corner_cell(w as int, h as int, j),
        decreases total - k,
    {
        let q = k / (CORNER * CORNER);
        let rr = (k % (CORNER * CORNER)) / CORNER;
        let cc = k % CORNER;
        let o = origins[q];
        cells.push((o.1 + rr, o.2 + cc, corner_black(o.0, rr, cc)));
        k = k + 1;
    }
    cells
}

/// Width of the strips between the corner markers (none when the frame is
/// narrower than two markers).
pub open spec fn strip_span(w: int) -> int {
    if w >= 2 * CORNER {
        w - 2 * CORNER
    } else {
        0
    }
}

/// Number of known cells: the corner markers, the calibration cells of the
/// top row and of the bottom strip.
pub open spec fn known_cell_count(w: int) -> int {
    corner_cell_count() + (1 + STRIP_H) * strip_span(w)
}

/// Known cell `k`: first the corner cells, then the calibration cells of
/// row 0, then those of the bottom strip row by row.
pub open spec fn known_cell(w: int, h: int, k: int) -> (int, int, bool) {
    let span = strip_span(w);
    if k < corner_cell_count() {
        corner_cell(w, h, k)
    } else if k < corner_cell_count() + span {
        let c = CORNER + (k - corner_cell_count());
        (0, c, spec_calib_black(0, c))
    } else {
        let j = k - corner_cell_count() - span;
        let r = h - STRIP_H + j / span;
        let c = CORNER + j % span;
        (r, c, spec_calib_black(r, c))
    }
}

/// Every cell whose colour a receiver knows before reading the header: the
/// corner markers, and the pseudo-random calibration cells above and below
/// the blocks. Their calibration cells on both sides pin down the horizontal
/// scale; fine alignment scores a guess by all of them.
pub fn known_cells(layout: Layout) -> (cells: Vec<(usize, usize, bool)>)
    requires
        layout.spec_width() <= usize::MAX,
        layout.spec_height() <= usize::MAX,
        layout.spec_width() >= CORNER,
        known_cell_count(layout.spec_width()) <= usize::MAX,
    ensures
        cells@.len() == known_cell_count(layout.spec_width()),
        forall|k: int|
            0 <= k < cells@.len() ==> ((#[trigger] cells@[k]).0 as int, cells@[k].1 as int, cells@[k].2)
                == known_cell(layout.spec_width(), layout.spec_height(), k),
{
    let w = layout.width();
    let h = layout.height();
    let mut cells = corner_cells(layout);
    let span: usize = if w >= 2 * CORNER {
        w - 2 * CORNER
    } else {
        0
    };
    let ghost wi = w as int;
    let ghost hi = h as int;
    let mut c: usize = 0;
    while c < span
        invariant
            c <= span,
            span == strip_span(wi),
            wi == w,
            hi == h,
            known_cell_count(wi) <= usize::MAX,
            cells@.len() == corner_cell_count() + c,
            forall|j: int|
                0 <= j < cells@.len() ==> ((#[trigger] cells@[j]).0 as int, cells@[j].1 as int, cells@[j].2)
                    == known_cell(wi, hi, j),
        decreases span - c,
    {
        cells.push((0, CORNER + c, calib_black(0, CORNER + c)));
        c = c + 1;
    }
    let n = STRIP_H * span;
    let mut j: usize = 0;
    while j < n
        invariant
            j <= n,
            n == STRIP_H * span,
            span == strip_span(wi),
            span > 0 || n == 0,
            wi == w,
            hi == h,
            h == layout.spec_height(),
            h >= STRIP_H,
            known_cell_count(wi) <= usize::MAX,
            cells@.len() == corner_cell_count() + span + j,
            forall|i: int|
                0 <= i < cells@.len() ==> ((#[trigger] cells@[i]).0 as int, cells@[i].1 as int, cells@[i].2)
                    == known_cell(wi, hi, i),
        decreases n - j,
    {
        proof {
            assert(span > 0);
            assert(n == span * STRIP_H);
            lemma_div_below(j as int, span as int, STRIP_H as int);
        }
        let r = h - STRIP_H + j / span;
        let cc = CORNER + j % span;
        cells.push((r, cc, calib_black(r, cc)));
        j = j + 1;
    }
    cells
}

/// Number of cells in the top and bottom strips.
pub open spec fn strip_cell_count(w: int) -> int {
    2 * STRIP_H * w
}

/// Strip cell `k`: the rows of the top strip, then those of the bottom
/// strip, each row left to right.
pub open spec fn strip_cell(w: int, h: int, k: int) -> (int, int) {
    let r = k / w;
    (if r < STRIP_H { r } else { h - 2 * STRIP_H + r }, k % w)
}

/// Every cell of the top and bottom strips (corner markers, header copies,
/// calibration cells). The data blocks may hold mid-gray levels, so the
/// black/white threshold is taken from these cells only.
pub fn strip_cells(layout: Layout) -> (cells: Vec<(usize, usize)>)
    requires
        layout.spec_width() <= usize::MAX,
        layout.spec_height() <= usize::MAX,
        strip_cell_count(layout.spec_width()) <= usize::MAX,
    ensures
        cells@.len() == strip_cell_count(layout.spec_width()),
        forall|k: int|
            0 <= k < cells@.len() ==> ((#[trigger] cells@[k]).0 as int, cells@[k].1 as int)
                == strip_cell(layout.spec_width(), layout.spec_height(), k),
{
    let w = layout.width();
    let h = layout.height();
    let n = 2 * STRIP_H * w;
    let mut cells: Vec<(usize, usize)> = Vec::new();
    let mut k: usize = 0;
    while k < n
        invariant
            k <= n,
            n == 2 * STRIP_H * w,
            w == layout.spec_width(),
            h == layout.spec_height(),
            h >= 2 * STRIP_H,
            cells@.len() == k,
            forall|j: int|
                0 <= j < k ==> ((#[trigger] cells@[j]).0 as int, cells@[j].1 as int) == strip_cell(
                    w as int,
                    h as int,
                    j,
                ),
        decreases n - k,
    {
        proof {
            assert(n == w * (2 * STRIP_H));
            lemma_div_below(k as int, w as int, (2 * STRIP_H) as int);
        }
        let r = k / w;
        let row = if r < STRIP_H {
            r
        } else {
            h - 2 * STRIP_H + r
        };
        cells.push((row, k % w));
        k = k + 1;
    }
    cells
}

/// What a header read off the image says, once checked against the grid it
/// was read with.
pub open spec fn checked_header(h: crate::header::FrameHeaderView, layout: Layout) -> Result<
    crate::header::FrameHeaderView,
    FrameError,
> {
    if h.layout != layout || !(h.bits_per_cell == 1 || h.bits_per_cell == 2) {
        Err(FrameError::LayoutMismatch)
    } else {
        Ok(h)
    }
}

/// Checks a header read off the image against the grid the cells were laid
/// out with: a different grid, or a cell depth other than one or two bits,
/// is a layout mismatch.
pub fn check_scanned_header(header: FrameHeader, layout: Layout) -> (r: Result<
    FrameHeader,
    FrameError,
>)
    ensures
        match r {
            Ok(h) => checked_header(header@, layout) == Ok::<
                crate::header::FrameHeaderView,
                FrameError,
            >(h@),
            Err(e) => checked_header(header@, layout) == Err::<
                crate::header::FrameHeaderView,
                FrameError,
            >(e),
        },
{
    let bpc = header.bits_per_cell;
    if header.layout != layout || !(bpc == 1 || bpc == 2) {
        Err(FrameError::LayoutMismatch)
    } else {
        Ok(header)
    }
}

/// The candidate layouts, most frequent first.
pub open spec fn candidate_layouts() -> Seq<Layout> {
    seq![Layout::v1_dense(), Layout::v0(), Layout::v2_ultra(), Layout::v3_max()]
}

/// The layout a receiver is told to look for: none when either dimension
/// is 0 (search every candidate).
pub open spec fn forced_layout_spec(grid_w: u8, grid_h: u8) -> Option<Layout> {
    if grid_w == 0 || grid_h == 0 {
        None
    } else {
        Some(Layout { block: Layout::BLOCK, grid_w: grid_w as usize, grid_h: grid_h as usize })
    }
}

/// Fixes the layout a receiver looks for (`grid_w` or `grid_h` 0 lifts it).
pub fn forced_layout(grid_w: u8, grid_h: u8) -> (r: Option<Layout>)
    ensures
        r == forced_layout_spec(grid_w, grid_h),
{
    if grid_w == 0 || grid_h == 0 {
        None
    } else {
        Some(Layout::from_grid(grid_w as usize, grid_h as usize))
    }
}

/// The layouts a per-frame scan tries: the forced one alone, or every
/// candidate.
pub fn scan_candidates(forced: Option<Layout>) -> (v: Vec<Layout>)
    ensures
        v@ == match forced {
            Some(l) => seq![l],
            None => candidate_layouts(),
        },
{
    match forced {
        Some(l) => {
            let v = vec![l];
            assert(v@ =~= seq![l]);
            v
        },
        None => {
            let c = Layout::candidates();
            let v = vec![c[0], c[1], c[2], c[3]];
            assert(v@ =~= candidate_layouts());
            v
        },
    }
}

/// `s` without the occurrences of `f`, in order.
pub open spec fn without(s: Seq<Layout>, f: Layout) -> Seq<Layout>
    decreases s.len(),
{
    if s.len() == 0 {
        s
    } else {
        let r = without(s.drop_last(), f);
        if s.last() == f {
            r
        } else {
            r.push(s.last())
        }
    }
}

/// The layouts an acquisition tries: the forced one first, when there is one
/// (it decides fastest when right), then every other candidate. The grid is
/// written in the header, so acquisition never trusts a forced grid alone: a
/// receiver fixed to the wrong one would otherwise find nothing.
pub fn acquire_candidates(forced: Option<Layout>) -> (v: Vec<Layout>)
    ensures
        v@ == match forced {
            Some(f) => seq![f] + without(candidate_layouts(), f),
            None => candidate_layouts(),
        },
{
    let c = Layout::candidates();
    match forced {
        None => {
            let v = vec![c[0], c[1], c[2], c[3]];
            assert(v@ =~= candidate_layouts());
            v
        },
        Some(f) => {
            let mut v: Vec<Layout> = vec![f];
            let mut i: usize = 0;
            while i < 4
                invariant
                    i <= 4,
                    c@ == candidate_layouts(),
                    v@ == seq![f] + without(candidate_layouts().subrange(0, i as int), f),
                decreases 4 - i,
            {
                let l = c[i];
                assert(candidate_layouts().subrange(0, i + 1).drop_last() =~= candidate_layouts().subrange(
                    0,
                    i as int,
                ));
                if l != f {
                    v.push(l);
                }
                assert(v@ =~= seq![f] + without(candidate_layouts().subrange(0, i + 1), f));
                i = i + 1;
            }
            assert(candidate_layouts().subrange(0, 4) =~= candidate_layouts());
            v
        },
    }
}

/// The four quarter turns an acquisition tries, starting from the one the
/// camera reports: `(rotation + 90 k) mod 360`.
pub fn quarter_turns(rotation_deg: u32) -> (r: [u32; 4])
    ensures
        forall|k: int| 0 <= k < 4 ==> #[trigger] r@[k] == (rotation_deg + 90 * k) % 360,
{
    let b = rotation_deg % 360;
    let r = [b, (b + 90) % 360, (b + 180) % 360, (b + 270) % 360];
    proof {
        assert forall|k: int| 0 <= k < 4 implies #[trigger] r@[k] == (rotation_deg + 90 * k) % 360 by {
            vstd::arithmetic::div_mod::lemma_add_mod_noop(rotation_deg as int, 90 * k, 360);
            vstd::arithmetic::div_mod::lemma_small_mod((90 * k) as nat, 360);
            vstd::arithmetic::div_mod::lemma_add_mod_noop(b as int, 90 * k, 360);
            vstd::arithmetic::div_mod::lemma_mod_twice(rotation_deg as int, 360);
        }
    }
    r
}

} // verus!
