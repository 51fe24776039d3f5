//! The integral image a corner-marker search runs on: the camera image
//! shrunk by 4 in each direction (4 x 4 box averages), then summed so that
//! the sum over any rectangle takes four lookups.

use vstd::prelude::*;
use crate::arith::lemma_grid_index;
use crate::scan::GrayImage;

verus! {

/// Shrink factor of the marker search.
pub const DOWN: usize = 4;

/// Sum of the first `k` pixels (row by row) of the 4 x 4 box of shrunk pixel
/// (x, y) in an image `iw` pixels wide.
pub open spec fn box_partial(data: Seq<u8>, iw: int, x: int, y: int, k: int) -> int
    decreases k,
{
    if k <= 0 {
        0
    } else {
        box_partial(data, iw, x, y, k - 1) + data[(y * DOWN + (k - 1) / DOWN as int) * iw + x
            * DOWN + (k - 1) % DOWN as int] as int
    }
}

/// Shrunk pixel (x, y): the average of its 4 x 4 box, rounded down.
pub open spec fn shrunk(data: Seq<u8>, iw: int, x: int, y: int) -> int {
    box_partial(data, iw, x, y, (DOWN * DOWN) as int) / (DOWN * DOWN) as int
}

/// Sum of shrunk pixels (0, y) .. (x - 1, y).
pub open spec fn row_sum(data: Seq<u8>, iw: int, x: int, y: int) -> int
    decreases x,
{
    if x <= 0 {
        0
    } else {
        row_sum(data, iw, x - 1, y) + shrunk(data, iw, x - 1, y)
    }
}

/// Sum of the shrunk pixels above and to the left of (x, y): rows 0 .. y - 1,
/// columns 0 .. x - 1.
pub open spec fn corner_sum(data: Seq<u8>, iw: int, x: int, y: int) -> int
    decreases y,
{
    if y <= 0 {
        0
    } else {
        corner_sum(data, iw, x, y - 1) + row_sum(data, iw, x, y - 1)
    }
}

/// Sum of the shrunk pixels in columns x0 .. x1 - 1 and rows y0 .. y1 - 1.
pub open spec fn rect_sum(data: Seq<u8>, iw: int, x0: int, y0: int, x1: int, y1: int) -> int {
    corner_sum(data, iw, x1, y1) - corner_sum(data, iw, x0, y1) - corner_sum(data, iw, x1, y0)
        + corner_sum(data, iw, x0, y0)
}

/// The image pixels a shrink of `iw` x `ih` reads are all present.
pub open spec fn shrinkable(len: int, iw: int, ih: int) -> bool {
    let w = iw / DOWN as int;
    let h = ih / DOWN as int;
    w > 0 && h > 0 ==> (h * DOWN - 1) * iw + w * DOWN <= len
}

proof fn lemma_box_partial_bounds(data: Seq<u8>, iw: int, x: int, y: int, k: int)
    requires
        0 <= k,
    ensures
        0 <= box_partial(data, iw, x, y, k) <= 255 * k,
    decreases k,
{
    if k > 0 {
        lemma_box_partial_bounds(data, iw, x, y, k - 1);
    }
}

proof fn lemma_shrunk_bounds(data: Seq<u8>, iw: int, x: int, y: int)
    ensures
        0 <= shrunk(data, iw, x, y) <= 255,
{
    let b = box_partial(data, iw, x, y, 16);
    lemma_box_partial_bounds(data, iw, x, y, 16);
    vstd::arithmetic::div_mod::lemma_div_is_ordered(b, 4080, 16);
    vstd::arithmetic::div_mod::lemma_div_pos_is_pos(b, 16);
    assert(4080int / 16 == 255);
}

proof fn lemma_corner_sum_col0(data: Seq<u8>, iw: int, y: int)
    ensures
        corner_sum(data, iw, 0, y) == 0,
    decreases y,
{
    if y > 0 {
        lemma_corner_sum_col0(data, iw, y - 1);
    }
}

proof fn lemma_row_sum_mono(data: Seq<u8>, iw: int, x0: int, x1: int, y: int)
    requires
        0 <= x0 <= x1,
    ensures
        0 <= row_sum(data, iw, x1, y) - row_sum(data, iw, x0, y) <= 255 * (x1 - x0),
    decreases x1 - x0,
{
    if x0 < x1 {
        lemma_row_sum_mono(data, iw, x0, x1 - 1, y);
        lemma_shrunk_bounds(data, iw, x1 - 1, y);
    }
}

/// Between rows y0 and y1, the sum over columns x0 .. x1 is the difference of
/// corner sums, and lies between 0 and 255 per shrunk pixel.
proof fn lemma_rect_bounds(data: Seq<u8>, iw: int, x0: int, y0: int, x1: int, y1: int)
    requires
        0 <= x0 <= x1,
        0 <= y0 <= y1,
    ensures
        0 <= rect_sum(data, iw, x0, y0, x1, y1) <= 255 * (x1 - x0) * (y1 - y0),
        0 <= corner_sum(data, iw, x1, y1) - corner_sum(data, iw, x1, y0),
    decreases y1 - y0,
{
    if y0 < y1 {
        lemma_rect_bounds(data, iw, x0, y0, x1, y1 - 1);
        lemma_row_sum_mono(data, iw, x0, x1, y1 - 1);
        lemma_row_sum_mono(data, iw, 0, x1, y1 - 1);
        assert(255 * (x1 - x0) * (y1 - 1 - y0) + 255 * (x1 - x0) == 255 * (x1 - x0) * (y1 - y0))
            by (nonlinear_arith);
    }
}

/// The integral image of the shrunk camera image: `(w + 1) x (h + 1)`
/// corner sums, row by row, with a zero first row and column.
pub struct Integral {
    w: usize,
    h: usize,
    acc: Vec<u32>,
    src: Ghost<Seq<u8>>,
    src_w: Ghost<int>,
}

impl Integral {
    #[verifier::type_invariant]
    closed spec fn inv(&self) -> bool {
        &&& self.acc@.len() == (self.w + 1) * (self.h + 1)
        &&& 255 * self.w * self.h <= u32::MAX
        &&& forall|y: int, x: int|
            0 <= y <= self.h && 0 <= x <= self.w ==> #[trigger] self.acc@[y * (self.w + 1) + x]
                == corner_sum(self.src@, self.src_w@, x, y)
    }

    /// Width of the shrunk image.
    pub closed spec fn spec_w(&self) -> int {
        self.w as int
    }

    /// Height of the shrunk image.
    pub closed spec fn spec_h(&self) -> int {
        self.h as int
    }

    /// The camera image the table was built from, and its width.
    pub closed spec fn spec_source(&self) -> (Seq<u8>, int) {
        (self.src@, self.src_w@)
    }

    /// Width of the shrunk image.
    pub fn width(&self) -> (n: usize)
        ensures
            n == self.spec_w(),
    {
        self.w
    }

    /// Height of the shrunk image.
    pub fn height(&self) -> (n: usize)
        ensures
            n == self.spec_h(),
    {
        self.h
    }

    /// Shrinks `img` by 4 (4 x 4 box averages, rounded down) and builds the
    /// integral image of the result.
    pub fn build(img: &GrayImage) -> (ig: Integral)
        requires
            shrinkable(img.data@.len() as int, img.w as int, img.h as int),
            (img.w / DOWN + 1) * (img.h / DOWN + 1) <= usize::MAX,
            255 * (img.w / DOWN) * (img.h / DOWN) <= u32::MAX,
        ensures
            ig.spec_w() == img.w / DOWN,
            ig.spec_h() == img.h / DOWN,
            ig.spec_source() == (img.data@, img.w as int),
    {
        let w = img.w / DOWN;
        let h = img.h / DOWN;
        let iw = img.w;
        let ghost data = img.data@;
        let n = (w + 1) * (h + 1);
        proof {
            assert(w + 1 <= n) by (nonlinear_arith)
                requires
                    n == (w + 1) * (h + 1),
            ;
        }
        let mut acc: Vec<u32> = Vec::with_capacity(n);
        // Row 0: all zero.
        let mut x: usize = 0;
        while x <= w
            invariant
                x <= w + 1,
                w + 1 <= n,
                n == (w + 1) * (h + 1),
                acc@.len() == x,
                forall|j: int| 0 <= j < x ==> #[trigger] acc@[j] == corner_sum(data, iw as int, j, 0),
            decreases w + 1 - x,
        {
            acc.push(0);
            x = x + 1;
        }
        assert forall|yy: int, xx: int|
            0 <= yy <= 0 && 0 <= xx <= w implies #[trigger] acc@[yy * (w + 1) + xx] == corner_sum(
            data,
            iw as int,
            xx,
            yy,
        ) by {
            assert(yy * (w + 1) + xx == xx);
        }
        let mut y: usize = 0;
        while y < h
            invariant
                y <= h,
                w == img.w / DOWN,
                h == img.h / DOWN,
                iw == img.w,
                data == img.data@,
                shrinkable(data.len() as int, iw as int, img.h as int),
                n == (w + 1) * (h + 1),
                255 * w * h <= u32::MAX,
                acc@.len() == (y + 1) * (w + 1),
                forall|yy: int, xx: int|
                    0 <= yy <= y && 0 <= xx <= w ==> #[trigger] acc@[yy * (w + 1) + xx]
                        == corner_sum(data, iw as int, xx, yy),
            decreases h - y,
        {
            proof {
                assert((y + 1) * (w + 1) + (w + 1) <= n) by (nonlinear_arith)
                    requires
                        y < h,
                        n == (w + 1) * (h + 1),
                ;
            }
            let ghost before = acc@;
            acc.push(0);
            proof {
                assert forall|yy: int, xx: int|
                    0 <= yy <= y && 0 <= xx <= w implies #[trigger] acc@[yy * (w + 1) + xx]
                        == corner_sum(data, iw as int, xx, yy) by {
                    lemma_grid_index(yy, xx, (y + 1) as int, (w + 1) as int);
                    assert(acc@[yy * (w + 1) + xx] == before[yy * (w + 1) + xx]);
                }
                lemma_corner_sum_col0(data, iw as int, (y + 1) as int);
                assert(acc@[(y + 1) * (w + 1) + 0] == 0);
            }
            let mut row: u32 = 0;
            let mut x: usize = 0;
            while x < w
                invariant
                    x <= w,
                    y < h,
                    w == img.w / DOWN,
                    h == img.h / DOWN,
                    iw == img.w,
                    data == img.data@,
                    shrinkable(data.len() as int, iw as int, img.h as int),
                    n == (w + 1) * (h + 1),
                    (y + 1) * (w + 1) + (w + 1) <= n,
                    255 * w * h <= u32::MAX,
                    row == row_sum(data, iw as int, x as int, y as int),
                    acc@.len() == (y + 1) * (w + 1) + x + 1,
                    forall|yy: int, xx: int|
                        0 <= yy <= y && 0 <= xx <= w ==> #[trigger] acc@[yy * (w + 1) + xx]
                            == corner_sum(data, iw as int, xx, yy),
                    forall|xx: int|
                        0 <= xx <= x ==> #[trigger] acc@[(y + 1) * (w + 1) + xx] == corner_sum(
                            data,
                            iw as int,
                            xx,
                            y + 1,
                        ),
                decreases w - x,
            {
                let mut sum: u32 = 0;
                let mut k: usize = 0;
                while k < DOWN * DOWN
                    invariant
                        k <= DOWN * DOWN,
                        x < w,
                        y < h,
                        w == img.w / DOWN,
                        h == img.h / DOWN,
                        iw == img.w,
                        data == img.data@,
                        shrinkable(data.len() as int, iw as int, img.h as int),
                        sum == box_partial(data, iw as int, x as int, y as int, k as int),
                    decreases DOWN * DOWN - k,
                {
                    let dy = k / DOWN;
                    let dx = k % DOWN;
                    proof {
                        lemma_box_partial_bounds(data, iw as int, x as int, y as int, k as int);
                        assert(y * DOWN + dy <= h * DOWN - 1);
                        assert(x * DOWN + dx < w * DOWN);
                        assert((y * DOWN + dy) * iw <= (h * DOWN - 1) * iw) by (nonlinear_arith)
                            requires
                                y * DOWN + dy <= h * DOWN - 1,
                        ;
                        let ylen = img.data@.len();
                        assert((y * DOWN + dy) * iw + x * DOWN + dx < data.len());
                    }
                    let ylen = img.data.len();
                    sum = sum + img.data[(y * DOWN + dy) * iw + x * DOWN + dx] as u32;
                    k = k + 1;
                }
                proof {
                    lemma_shrunk_bounds(data, iw as int, x as int, y as int);
                    lemma_row_sum_mono(data, iw as int, 0, x + 1, y as int);
                    lemma_rect_bounds(data, iw as int, 0, 0, x + 1, y + 1);
                    assert(255 * (x + 1) * (y + 1) <= 255 * w * h) by (nonlinear_arith)
                        requires
                            x < w,
                            y < h,
                    ;
                    lemma_grid_index(y as int, (x + 1) as int, (y + 1) as int, (w + 1) as int);
                    lemma_corner_sum_col0(data, iw as int, (y + 1) as int);
                    assert(corner_sum(data, iw as int, x + 1, y + 1) == corner_sum(
                        data,
                        iw as int,
                        x + 1,
                        y as int,
                    ) + row_sum(data, iw as int, x + 1, y as int));
                    assert(corner_sum(data, iw as int, x + 1, y + 1) == rect_sum(
                        data,
                        iw as int,
                        0,
                        0,
                        x + 1,
                        y + 1,
                    ));
                }
                proof {
                    assert(row as int + (sum / 16) as int == row_sum(data, iw as int, x + 1, y as int));
                    assert(255 * (x + 1) <= 255 * w * h) by (nonlinear_arith)
                        requires
                            x < w,
                            y < h,
                    ;
                }
                row = row + sum / (DOWN * DOWN) as u32;
                let above = acc[y * (w + 1) + (x + 1)];
                let ghost before = acc@;
                acc.push(above + row);
                proof {
                    assert forall|yy: int, xx: int|
                        0 <= yy <= y && 0 <= xx <= w implies #[trigger] acc@[yy * (w + 1) + xx]
                            == corner_sum(data, iw as int, xx, yy) by {
                        lemma_grid_index(yy, xx, (y + 1) as int, (w + 1) as int);
                        assert(acc@[yy * (w + 1) + xx] == before[yy * (w + 1) + xx]);
                    }
                    assert forall|xx: int|
                        0 <= xx <= x + 1 implies #[trigger] acc@[(y + 1) * (w + 1) + xx]
                            == corner_sum(data, iw as int, xx, y + 1) by {
                        if xx <= x {
                            assert(acc@[(y + 1) * (w + 1) + xx] == before[(y + 1) * (w + 1) + xx]);
                        }
                    }
                }
                x = x + 1;
            }
            proof {
                assert forall|yy: int, xx: int|
                    0 <= yy <= y + 1 && 0 <= xx <= w implies #[trigger] acc@[yy * (w + 1) + xx]
                        == corner_sum(data, iw as int, xx, yy) by {
                    if yy == y + 1 {
                        assert(acc@[(y + 1) * (w + 1) + xx] == corner_sum(data, iw as int, xx, y + 1));
                    }
                }
                assert((y + 1) * (w + 1) + w + 1 == (y + 2) * (w + 1)) by (nonlinear_arith);
            }
            y = y + 1;
        }
        assert((h + 1) * (w + 1) == (w + 1) * (h + 1)) by (nonlinear_arith);
        Integral { w, h, acc, src: Ghost(data), src_w: Ghost(iw as int) }
    }

    /// Sum of the shrunk pixels in columns x0 .. x1 - 1 and rows y0 .. y1 - 1;
    /// `None` when the rectangle is empty or leaves the image.
    pub fn box_sum(&self, x0: isize, y0: isize, x1: isize, y1: isize) -> (r: Option<u32>)
        ensures
            (x0 < 0 || y0 < 0 || x1 > self.spec_w() || y1 > self.spec_h() || x1 <= x0 || y1 <= y0)
                <==> r is None,
            r matches Some(s) ==> s == rect_sum(
                self.spec_source().0,
                self.spec_source().1,
                x0 as int,
                y0 as int,
                x1 as int,
                y1 as int,
            ),
    {
        proof {
            use_type_invariant(self);
        }
        let ghost data = self.src@;
        let ghost iw = self.src_w@;
        if x0 < 0 || y0 < 0 || x1 <= x0 || y1 <= y0 || x1 as usize > self.w || y1 as usize > self.h {
            return None;
        }
        let (x0, y0, x1, y1) = (x0 as usize, y0 as usize, x1 as usize, y1 as usize);
        let alen = self.acc.len();
        proof {
            assert(self.w + 1 <= self.acc@.len()) by (nonlinear_arith)
                requires
                    self.acc@.len() == (self.w + 1) * (self.h + 1),
            ;
            assert((self.h + 1) * (self.w + 1) == (self.w + 1) * (self.h + 1)) by (nonlinear_arith);
        }
        let w1 = self.w + 1;
        proof {
            lemma_grid_index(y1 as int, x1 as int, (self.h + 1) as int, w1 as int);
            lemma_grid_index(y0 as int, x0 as int, (self.h + 1) as int, w1 as int);
            lemma_grid_index(y0 as int, x1 as int, (self.h + 1) as int, w1 as int);
            lemma_grid_index(y1 as int, x0 as int, (self.h + 1) as int, w1 as int);
            lemma_rect_bounds(data, iw, x0 as int, y0 as int, x1 as int, y1 as int);
            lemma_rect_bounds(data, iw, 0, y0 as int, x0 as int, y1 as int);
            lemma_rect_bounds(data, iw, 0, 0, x1 as int, y1 as int);
            assert(255 * x1 * y1 <= 255 * self.w * self.h) by (nonlinear_arith)
                requires
                    x1 <= self.w,
                    y1 <= self.h,
            ;
        }
        let a11 = self.acc[y1 * w1 + x1];
        let a00 = self.acc[y0 * w1 + x0];
        let a01 = self.acc[y0 * w1 + x1];
        let a10 = self.acc[y1 * w1 + x0];
        Some((a11 - a01) - (a10 - a00))
    }
}

} // verus!
