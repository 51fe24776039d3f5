//! Rendering a frame to a grayscale bitmap and reading it back on the ideal
//! channel (integer scale, no distortion). Blocks whose CRC fails come back
//! as `None`: a partly damaged frame still yields its intact blocks.

use vstd::prelude::*;
use crate::arith::{lemma_div_below, lemma_div_mod_parts, lemma_grid_index};
use crate::bits::{
    be32, bits_to_bytes, bits_to_bytes_range, bits_to_bytes_spec, byte_bits, bytes_to_bits, from_be32,
    push_range,
};
use crate::crc::{crc32, crc32_range, spec_crc32};
use crate::header::{header_bytes, parse_header, FrameHeader, FrameHeaderView, HEADER_LEN};
use crate::layout::{Layout, CORNER, STRIP_H};
use crate::pattern::{
    calib_black, corner_black, corner_origins, header_cell_count, header_cells, level_gray,
    nearest_level, spec_calib_black, spec_corner_black, spec_corner_origin, spec_header_cell,
    spec_level_gray, spec_nearest_level, Corner,
};

verus! {

/// Grayscale image, row by row, 0 black and 255 white.
pub struct Bitmap {
    pub w: usize,
    pub h: usize,
    pub data: Vec<u8>,
}

impl Bitmap {
    /// The pixel buffer holds exactly `w * h` pixels.
    pub open spec fn wf(&self) -> bool {
        self.data@.len() == self.w * self.h
    }

    /// An all-white bitmap.
    pub fn new_white(w: usize, h: usize) -> (bm: Bitmap)
        requires
            w * h <= usize::MAX,
        ensures
            bm.w == w,
            bm.h == h,
            bm.wf(),
            forall|i: int| 0 <= i < bm.data@.len() ==> bm.data@[i] == 255,
    {
        let n = w * h;
        let mut data: Vec<u8> = Vec::with_capacity(n);
        let mut i: usize = 0;
        while i < n
            invariant
                i <= n,
                data@.len() == i,
                forall|k: int| 0 <= k < i ==> data@[k] == 255,
            decreases n - i,
        {
            data.push(255);
            i = i + 1;
        }
        Bitmap { w, h, data }
    }

    /// Pixel (x, y).
    pub fn get(&self, x: usize, y: usize) -> (v: u8)
        requires
            y * self.w + x < self.data@.len(),
        ensures
            v == self.data@[y * self.w + x],
    {
        let n = self.data.len();
        assert(y * self.w <= y * self.w + x);
        self.data[y * self.w + x]
    }

    /// Sets pixel (x, y).
    pub fn set(&mut self, x: usize, y: usize, v: u8)
        requires
            y * old(self).w + x < old(self).data@.len(),
        ensures
            final(self).w == old(self).w,
            final(self).h == old(self).h,
            final(self).data@ == old(self).data@.update(y * old(self).w + x, v),
    {
        let n = self.data.len();
        assert(y * self.w <= y * self.w + x);
        let i = y * self.w + x;
        self.data.set(i, v);
    }

    /// Pixel (x, y) of a well-formed bitmap lies in its buffer.
    proof fn lemma_pixel_in_buffer(&self, x: int, y: int)
        requires
            self.wf(),
            0 <= x < self.w,
            0 <= y < self.h,
        ensures
            y * self.w + x < self.data@.len(),
    {
        lemma_grid_index(y, x, self.h as int, self.w as int);
        assert(self.h * self.w == self.w * self.h) by (nonlinear_arith);
    }

    /// Paints cell (row, col) of a grid of `scale` x `scale`-pixel cells
    /// black or white.
    pub fn fill_cell(&mut self, scale: usize, row: usize, col: usize, black: bool)
        requires
            old(self).wf(),
            (col + 1) * scale <= old(self).w,
            (row + 1) * scale <= old(self).h,
        ensures
            final(self).w == old(self).w,
            final(self).h == old(self).h,
            final(self).wf(),
            forall|p: int|
                0 <= p < final(self).data@.len() ==> #[trigger] final(self).data@[p] == if in_cell(
                    p,
                    old(self).w as int,
                    scale as int,
                    row as int,
                    col as int,
                ) {
                    bw(black)
                } else {
                    old(self).data@[p]
                },
    {
        let v = bw_exec(black);
        self.fill_cell_gray(scale, row, col, v);
    }

    /// Paints cell (row, col) of a grid of `scale` x `scale`-pixel cells with
    /// gray value `v`.
    pub fn fill_cell_gray(&mut self, scale: usize, row: usize, col: usize, v: u8)
        requires
            old(self).wf(),
            (col + 1) * scale <= old(self).w,
            (row + 1) * scale <= old(self).h,
        ensures
            final(self).w == old(self).w,
            final(self).h == old(self).h,
            final(self).wf(),
            forall|p: int|
                0 <= p < final(self).data@.len() ==> #[trigger] final(self).data@[p] == if in_cell(
                    p,
                    old(self).w as int,
                    scale as int,
                    row as int,
                    col as int,
                ) {
                    v
                } else {
                    old(self).data@[p]
                },
    {
        let ghost w = self.w as int;
        let ghost s = scale as int;
        let ghost orig = self.data@;
        proof {
            assert(row * scale + scale == (row + 1) * scale) by (nonlinear_arith);
            assert(col * scale + scale == (col + 1) * scale) by (nonlinear_arith);
        }
        let mut dy: usize = 0;
        while dy < scale
            invariant
                dy <= scale,
                self.wf(),
                self.w == w,
                self.h == old(self).h,
                s == scale,
                orig == old(self).data@,
                row * scale + scale <= self.h,
                col * scale + scale <= self.w,
                self.data@.len() == orig.len(),
                forall|p: int|
                    0 <= p < self.data@.len() ==> #[trigger] self.data@[p] == if painted(
                        p,
                        w,
                        s,
                        row as int,
                        col as int,
                        dy as int,
                        0,
                    ) {
                        v
                    } else {
                        orig[p]
                    },
            decreases scale - dy,
        {
            let mut dx: usize = 0;
            while dx < scale
                invariant
                    dx <= scale,
                    dy < scale,
                    self.wf(),
                    self.w == w,
                    self.h == old(self).h,
                    s == scale,
                    row * scale + scale <= self.h,
                    col * scale + scale <= self.w,
                    self.data@.len() == orig.len(),
                    forall|p: int|
                        0 <= p < self.data@.len() ==> #[trigger] self.data@[p] == if painted(
                            p,
                            w,
                            s,
                            row as int,
                            col as int,
                            dy as int,
                            dx as int,
                        ) {
                            v
                        } else {
                            orig[p]
                        },
                decreases scale - dx,
            {
                let x = col * scale + dx;
                let y = row * scale + dy;
                let ghost before = self.data@;
                proof {
                    self.lemma_pixel_in_buffer(x as int, y as int);
                }
                self.set(x, y, v);
                proof {
                    lemma_grid_index(y as int, x as int, self.h as int, w);
                    assert forall|p: int| 0 <= p < self.data@.len() implies #[trigger] self.data@[p]
                        == if painted(p, w, s, row as int, col as int, dy as int, (dx + 1) as int) {
                        v
                    } else {
                        orig[p]
                    } by {
                        lemma_div_mod_parts(y as int, w, x as int);
                        vstd::arithmetic::div_mod::lemma_fundamental_div_mod(p, w);
                        if p != y * w + x {
                            assert(self.data@[p] == before[p]);
                            assert(p % w != x || p / w != y) by {
                                if p % w == x && p / w == y {
                                    assert(p == w * y + x);
                                    assert(w * y == y * w) by (nonlinear_arith);
                                }
                            }
                        }
                    }
                }
                dx = dx + 1;
            }
            proof {
                assert forall|p: int| 0 <= p < self.data@.len() implies #[trigger] self.data@[p]
                    == if painted(p, w, s, row as int, col as int, (dy + 1) as int, 0) {
                    v
                } else {
                    orig[p]
                } by {
                    assert(painted(p, w, s, row as int, col as int, dy as int, s) == painted(
                        p,
                        w,
                        s,
                        row as int,
                        col as int,
                        (dy + 1) as int,
                        0,
                    ));
                }
            }
            dy = dy + 1;
        }
        proof {
            assert forall|p: int| 0 <= p < self.data@.len() implies #[trigger] self.data@[p] == if in_cell(
                p,
                w,
                s,
                row as int,
                col as int,
            ) {
                v
            } else {
                orig[p]
            } by {
                assert(painted(p, w, s, row as int, col as int, s, 0) == in_cell(
                    p,
                    w,
                    s,
                    row as int,
                    col as int,
                ));
            }
        }
    }

    /// Gray value at the centre of cell (row, col) of a grid of
    /// `scale` x `scale`-pixel cells.
    pub fn sample_cell_value(&self, scale: usize, row: usize, col: usize) -> (v: u8)
        requires
            self.wf(),
            col * scale + scale / 2 < self.w,
            row * scale + scale / 2 < self.h,
        ensures
            v == self.data@[(row * scale + scale / 2) * self.w + col * scale + scale / 2],
    {
        proof {
            self.lemma_pixel_in_buffer((col * scale + scale / 2) as int, (row * scale + scale / 2) as int);
        }
        self.get(col * scale + scale / 2, row * scale + scale / 2)
    }

    /// Whether the centre of cell (row, col) reads black.
    pub fn sample_cell(&self, scale: usize, row: usize, col: usize) -> (b: bool)
        requires
            self.wf(),
            col * scale + scale / 2 < self.w,
            row * scale + scale / 2 < self.h,
        ensures
            b == cell_black(self.data@[(row * scale + scale / 2) * self.w + col * scale + scale / 2]),
    {
        self.sample_cell_value(scale, row, col) < 128
    }
}

/// Whether pixel `p` of a bitmap `w` pixels wide lies in cell (row, col) of
/// a grid of `scale` x `scale`-pixel cells.
pub open spec fn in_cell(p: int, w: int, scale: int, row: int, col: int) -> bool {
    let x = p % w;
    let y = p / w;
    row * scale <= y < row * scale + scale && col * scale <= x < col * scale + scale
}

/// Whether pixel `p` is among those of cell (row, col) painted so far when
/// painting goes row by row and has reached pixel (dx, dy) of the cell.
pub open spec fn painted(p: int, w: int, scale: int, row: int, col: int, dy: int, dx: int) -> bool {
    let x = p % w;
    let y = p / w;
    &&& col * scale <= x < col * scale + scale
    &&& row * scale <= y
    &&& (y < row * scale + dy || (y == row * scale + dy && x < col * scale + dx))
}

/// Black or white cell value.
pub open spec fn bw(black: bool) -> u8 {
    if black {
        0
    } else {
        255
    }
}

pub open spec fn bit_value(b: bool) -> int {
    if b {
        1
    } else {
        0
    }
}

/// The views of a list of byte vectors.
pub open spec fn byte_views(v: Seq<Vec<u8>>) -> Seq<Seq<u8>> {
    v.map_values(|b: Vec<u8>| b@)
}

/// What block `bi` carries: its payload followed by the payload's CRC-32, or,
/// past the supplied payloads, all zero bytes (a filler whose CRC check is
/// not expected to pass).
pub open spec fn block_content(blocks: Seq<Seq<u8>>, bi: int, block_bytes: int) -> Seq<u8> {
    if bi < blocks.len() {
        blocks[bi] + be32(spec_crc32(blocks[bi]))
    } else {
        Seq::new(block_bytes as nat, |j: int| 0u8)
    }
}

/// The corner marker (and the cell inside it) that covers (r, c), if any.
pub open spec fn corner_at(w: int, h: int, r: int, c: int) -> Option<(Corner, int, int)> {
    if r < CORNER && c < CORNER {
        Some((Corner::TopLeft, r, c))
    } else if r < CORNER && c >= w - CORNER {
        Some((Corner::TopRight, r, c - (w - CORNER)))
    } else if r >= h - CORNER && c < CORNER {
        Some((Corner::BottomLeft, r - (h - CORNER), c))
    } else if r >= h - CORNER && c >= w - CORNER {
        Some((Corner::BottomRight, r - (h - CORNER), c - (w - CORNER)))
    } else {
        None
    }
}

/// Number of bits in one header copy.
pub open spec fn header_bits_len() -> int {
    HEADER_LEN * 8
}

/// Whole header copies that fit the header area of a frame `w` cells wide.
pub open spec fn header_copies(w: int) -> int {
    header_cell_count(w) / header_bits_len()
}

/// Data cell (r, c): cell `i` of block `bi`, one bit (black or white) or two
/// bits (one of four gray levels) per cell.
pub open spec fn data_cell(hv: FrameHeaderView, blocks: Seq<Seq<u8>>, r: int, c: int) -> u8 {
    let l = hv.layout;
    let rr = r - STRIP_H;
    let bi = (rr / l.block as int) * l.grid_w + c / l.block as int;
    let i = (rr % l.block as int) * l.block + c % l.block as int;
    let bits = bytes_to_bits(block_content(blocks, bi, l.spec_block_bytes(hv.bits_per_cell)));
    if hv.bits_per_cell == 1 {
        bw(bits[i])
    } else {
        spec_level_gray((2 * bit_value(bits[2 * i]) + bit_value(bits[2 * i + 1])) as u8)
    }
}

/// The value of cell (r, c) of the frame that carries header `hv` and block
/// payloads `blocks`: corner markers, a calibration row above the header
/// area, as many whole header copies as fit (the rest white), the blocks,
/// and a calibration strip at the bottom.
pub open spec fn frame_cell(hv: FrameHeaderView, blocks: Seq<Seq<u8>>, r: int, c: int) -> u8 {
    let w = hv.layout.spec_width();
    let h = hv.layout.spec_height();
    match corner_at(w, h, r, c) {
        Some((k, lr, lc)) => bw(spec_corner_black(k, lr, lc)),
        None => if r == 0 {
            bw(spec_calib_black(0, c))
        } else if r < STRIP_H {
            let i = (r - 1) * (w - 2 * CORNER) + (c - CORNER);
            if i < header_copies(w) * header_bits_len() {
                bw(bytes_to_bits(header_bytes(hv))[i % header_bits_len()])
            } else {
                255
            }
        } else if r >= h - STRIP_H {
            bw(spec_calib_black(r, c))
        } else {
            data_cell(hv, blocks, r, c)
        },
    }
}

/// The format's conditions for drawing a frame: one or two bits per cell,
/// no more payloads than blocks, each payload exactly one block long, a frame
/// wide enough for the header area to hold a whole header copy, and blocks
/// whose bit count is a whole number of bytes with room for a CRC.
pub open spec fn frame_drawable(hv: FrameHeaderView, blocks: Seq<Seq<u8>>, scale: int) -> bool {
    let l = hv.layout;
    let bpc = hv.bits_per_cell;
    &&& scale >= 1
    &&& bpc == 1 || bpc == 2
    &&& blocks.len() <= l.spec_block_count()
    &&& l.spec_width() > 2 * CORNER + (HEADER_LEN as int) * 8 / (STRIP_H as int)
    &&& header_copies(l.spec_width()) >= 1
    &&& l.spec_block_count() > 0 ==> (l.block * l.block * bpc) % 8 == 0
    &&& blocks.len() > 0 ==> l.spec_block_bytes(bpc) >= 4
    &&& forall|i: int| 0 <= i < blocks.len() ==> #[trigger] blocks[i].len() == l.spec_block_payload_len(bpc)
}

/// What `encode_frame` accepts: a drawable frame whose bitmap, and whose
/// bits per block, fit in memory.
pub open spec fn frame_encodable(hv: FrameHeaderView, blocks: Seq<Seq<u8>>, scale: int) -> bool {
    let l = hv.layout;
    &&& frame_drawable(hv, blocks, scale)
    &&& l.spec_block_count() > 0 ==> l.block * l.block * 2 <= usize::MAX
    &&& l.spec_width() * scale * (l.spec_height() * scale) <= usize::MAX
}

} // verus!

verus! {

/// Pixel `p` (row by row) of the frame drawn at `scale` pixels per cell.
pub open spec fn frame_pixel(hv: FrameHeaderView, blocks: Seq<Seq<u8>>, scale: int, p: int) -> u8 {
    let pw = hv.layout.spec_width() * scale;
    frame_cell(hv, blocks, (p / pw) / scale, (p % pw) / scale)
}

fn bw_exec(black: bool) -> (v: u8)
    ensures
        v == bw(black),
{
    if black {
        0
    } else {
        255
    }
}

/// The value of cell (r, c), from the bits of the header and of every block.
fn cell_gray(
    header: &FrameHeader,
    Ghost(blocks): Ghost<Seq<Seq<u8>>>,
    w: usize,
    hh: usize,
    hdr_bits: &Vec<bool>,
    content_bits: &Vec<Vec<bool>>,
    r: usize,
    c: usize,
) -> (v: u8)
    requires
        w == header@.layout.spec_width(),
        hh == header@.layout.spec_height(),
        w > 2 * CORNER + (HEADER_LEN as int) * 8 / (STRIP_H as int),
        r < hh,
        c < w,
        w * hh <= usize::MAX,
        header.bits_per_cell == 1 || header.bits_per_cell == 2,
        hdr_bits@ == bytes_to_bits(header_bytes(header@)),
        content_bits@.len() == header.layout.spec_block_count(),
        header.layout.spec_block_count() <= usize::MAX,
        header.layout.spec_block_count() > 0 ==> (header.layout.block * header.layout.block
            * header.bits_per_cell) % 8 == 0 && header.layout.block * header.layout.block * 2
            <= usize::MAX,
        blocks.len() <= header.layout.spec_block_count(),
        blocks.len() > 0 ==> header.layout.spec_block_bytes(header.bits_per_cell) >= 4,
        forall|i: int|
            0 <= i < blocks.len() ==> #[trigger] blocks[i].len()
                == header.layout.spec_block_payload_len(header.bits_per_cell),
        forall|k: int|
            0 <= k < content_bits@.len() ==> (#[trigger] content_bits@[k])@ == bytes_to_bits(
                block_content(blocks, k, header.layout.spec_block_bytes(header.bits_per_cell)),
            ),
    ensures
        v == frame_cell(header@, blocks, r as int, c as int),
{
    let l = header.layout;
    if r < CORNER && c < CORNER {
        return bw_exec(corner_black(Corner::TopLeft, r, c));
    }
    if r < CORNER && c >= w - CORNER {
        return bw_exec(corner_black(Corner::TopRight, r, c - (w - CORNER)));
    }
    if r >= hh - CORNER && c < CORNER {
        return bw_exec(corner_black(Corner::BottomLeft, r - (hh - CORNER), c));
    }
    if r >= hh - CORNER && c >= w - CORNER {
        return bw_exec(corner_black(Corner::BottomRight, r - (hh - CORNER), c - (w - CORNER)));
    }
    if r == 0 {
        return bw_exec(calib_black(0, c));
    }
    if r < STRIP_H {
        let span = w - 2 * CORNER;
        proof {
            assert((STRIP_H - 1) * span <= w * hh) by (nonlinear_arith)
                requires
                    span < w,
                    hh >= 2 * STRIP_H,
            ;
            assert((r - 1) * span + span <= (STRIP_H - 1) * span) by (nonlinear_arith)
                requires
                    1 <= r < STRIP_H,
            ;
        }
        let n = (STRIP_H - 1) * span;
        let i = (r - 1) * span + (c - CORNER);
        let hb: usize = HEADER_LEN * 8;
        let copies = n / hb;
        proof {
            assert((r - 1) * span <= (STRIP_H - 1) * span - span) by (nonlinear_arith)
                requires
                    1 <= r < STRIP_H,
            ;
            assert(copies * hb <= n) by (nonlinear_arith)
                requires
                    copies == n / hb,
                    hb > 0,
            ;
        }
        if i < copies * hb {
            proof {
                lemma_div_below(i as int, hb as int, copies as int);
            }
            return bw_exec(hdr_bits[i % hb]);
        } else {
            return 255;
        }
    }
    if r >= hh - STRIP_H {
        return bw_exec(calib_black(r, c));
    }
    let ghost bpc = header.bits_per_cell;
    let ghost bb = l.spec_block_bytes(bpc);
    let rr = r - STRIP_H;
    proof {
        assert(l.block > 0) by (nonlinear_arith)
            requires
                l.grid_w * l.block > 0,
        ;
        lemma_div_below(rr as int, l.block as int, l.grid_h as int);
        lemma_div_below(c as int, l.block as int, l.grid_w as int);
        assert(l.grid_h > 0);
        assert(l.grid_w > 0);
        assert(l.grid_w * l.grid_h > 0) by (nonlinear_arith)
            requires
                l.grid_w > 0,
                l.grid_h > 0,
        ;
    }
    let by = rr / l.block;
    let bx = c / l.block;
    proof {
        lemma_grid_index(by as int, bx as int, l.grid_h as int, l.grid_w as int);
        assert(l.grid_h * l.grid_w == l.grid_w * l.grid_h) by (nonlinear_arith);
        lemma_grid_index(
            (rr % l.block) as int,
            (c % l.block) as int,
            l.block as int,
            l.block as int,
        );
    }
    let bi = by * l.grid_w + bx;
    let i = (rr % l.block) * l.block + c % l.block;
    let bits = &content_bits[bi];
    proof {
        let content = block_content(blocks, bi as int, bb);
        assert(content.len() == bb);
        assert(bits@.len() == 8 * bb);
        assert(8 * bb == l.block * l.block * bpc) by (nonlinear_arith)
            requires
                bb == l.block * l.block * bpc / 8,
                (l.block * l.block * bpc) % 8 == 0,
        ;
    }
    if header.bits_per_cell == 1 {
        bw_exec(bits[i])
    } else {
        let b0: u8 = if bits[2 * i] {
            1
        } else {
            0
        };
        let b1: u8 = if bits[2 * i + 1] {
            1
        } else {
            0
        };
        assert((b0 << 1u8) | b1 == 2 * b0 + b1) by (bit_vector)
            requires
                b0 <= 1,
                b1 <= 1,
        ;
        level_gray((b0 << 1) | b1)
    }
}

/// Renders one frame at `scale` pixels per cell. `blocks` holds the block
/// payloads; blocks past its end are filled with zero bytes, whose CRC does
/// not hold, so that the receiver reads them as missing.
pub fn encode_frame(header: &FrameHeader, blocks: &[Vec<u8>], scale: usize) -> (bm: Bitmap)
    requires
        frame_encodable(header@, byte_views(blocks@), scale as int),
    ensures
        bm.w == header@.layout.spec_width() * scale,
        bm.h == header@.layout.spec_height() * scale,
        bm.wf(),
        forall|p: int|
            0 <= p < bm.data@.len() ==> #[trigger] bm.data@[p] == frame_pixel(
                header@,
                byte_views(blocks@),
                scale as int,
                p,
            ),
{
    let ghost bv = byte_views(blocks@);
    let layout = header.layout;
    let bpc = header.bits_per_cell;
    proof {
        assert(layout.spec_width() * scale >= layout.spec_width()) by (nonlinear_arith)
            requires
                scale >= 1,
                layout.spec_width() >= 0,
        ;
        assert(layout.spec_height() * scale >= layout.spec_height()) by (nonlinear_arith)
            requires
                scale >= 1,
                layout.spec_height() >= 0,
        ;
        assert(layout.spec_width() * layout.spec_height() <= layout.spec_width() * scale * (
        layout.spec_height() * scale)) by (nonlinear_arith)
            requires
                layout.spec_width() * scale >= layout.spec_width() >= 0,
                layout.spec_height() * scale >= layout.spec_height() >= 0,
        ;
        assert(layout.spec_width() <= layout.spec_width() * layout.spec_height()) by (
        nonlinear_arith)
            requires
                layout.spec_height() >= 1,
                layout.spec_width() >= 0,
        ;
        assert(layout.spec_height() <= layout.spec_width() * layout.spec_height()) by (
        nonlinear_arith)
            requires
                layout.spec_width() >= 1,
                layout.spec_height() >= 0,
        ;
        assert(layout.block > 0) by (nonlinear_arith)
            requires
                layout.grid_w * layout.block > 0,
        ;
        assert(layout.spec_block_count() <= layout.spec_width() * layout.spec_height()) by (
        nonlinear_arith)
            requires
                layout.block >= 1,
                layout.grid_w >= 0,
                layout.grid_h >= 0,
        ;
    }
    let w = layout.width();
    let hh = layout.height();
    let nblk = layout.block_count();

    let hdr = header.serialize();
    let hdr_bits = byte_bits(&hdr);

    let mut content_bits: Vec<Vec<bool>> = Vec::new();
    let mut bi: usize = 0;
    while bi < nblk
        invariant
            bi <= nblk,
            nblk == layout.spec_block_count(),
            layout == header.layout,
            bpc == header.bits_per_cell,
            bv == byte_views(blocks@),
            frame_encodable(header@, bv, scale as int),
            content_bits@.len() == bi,
            forall|k: int|
                0 <= k < bi ==> (#[trigger] content_bits@[k])@ == bytes_to_bits(
                    block_content(bv, k, layout.spec_block_bytes(bpc)),
                ),
        decreases nblk - bi,
    {
        let bb = layout.block_bytes(bpc);
        let mut content: Vec<u8> = Vec::new();
        if bi < blocks.len() {
            let b = blocks[bi].as_slice();
            assert(b@ == bv[bi as int]);
            push_range(&mut content, b, 0, b.len());
            let crc = crc32(b);
            content.push((crc >> 24) as u8);
            content.push((crc >> 16) as u8);
            content.push((crc >> 8) as u8);
            content.push(crc as u8);
            assert(content@ =~= block_content(bv, bi as int, bb as int));
        } else {
            let mut k: usize = 0;
            while k < bb
                invariant
                    k <= bb,
                    content@ == Seq::new(k as nat, |j: int| 0u8),
                decreases bb - k,
            {
                content.push(0);
                k = k + 1;
                assert(content@ =~= Seq::new(k as nat, |j: int| 0u8));
            }
            assert(content@ =~= block_content(bv, bi as int, bb as int));
        }
        proof {
            assert(content@.len() == bb);
            assert(8 * bb <= layout.block * layout.block * bpc) by (nonlinear_arith)
                requires
                    bb == layout.block * layout.block * bpc / 8,
            ;
        }
        let bits = byte_bits(content.as_slice());
        content_bits.push(bits);
        bi = bi + 1;
    }

    let ncell = w * hh;
    let mut cells: Vec<u8> = Vec::new();
    let mut k: usize = 0;
    while k < ncell
        invariant
            k <= ncell,
            ncell == w * hh,
            w == layout.spec_width(),
            hh == layout.spec_height(),
            w > 0,
            layout == header.layout,
            bpc == header.bits_per_cell,
            bv == byte_views(blocks@),
            frame_encodable(header@, bv, scale as int),
            nblk == layout.spec_block_count(),
            hdr_bits@ == bytes_to_bits(header_bytes(header@)),
            content_bits@.len() == nblk,
            forall|j: int|
                0 <= j < content_bits@.len() ==> (#[trigger] content_bits@[j])@ == bytes_to_bits(
                    block_content(bv, j, layout.spec_block_bytes(bpc)),
                ),
            cells@.len() == k,
            forall|j: int|
                0 <= j < k ==> #[trigger] cells@[j] == frame_cell(
                    header@,
                    bv,
                    j / w as int,
                    j % w as int,
                ),
        decreases ncell - k,
    {
        proof {
            lemma_div_below(k as int, w as int, hh as int);
        }
        let r = k / w;
        let c = k % w;
        let v = cell_gray(header, Ghost(bv), w, hh, &hdr_bits, &content_bits, r, c);
        cells.push(v);
        k = k + 1;
    }

    proof {
        assert(w * scale <= w * scale * (hh * scale)) by (nonlinear_arith)
            requires
                w >= 1,
                hh >= 1,
                scale >= 1,
        ;
        assert(hh * scale <= w * scale * (hh * scale)) by (nonlinear_arith)
            requires
                w >= 1,
                hh >= 1,
                scale >= 1,
        ;
    }
    let pw = w * scale;
    let ph = hh * scale;
    let npix = pw * ph;
    let mut data: Vec<u8> = Vec::new();
    let mut p: usize = 0;
    while p < npix
        invariant
            p <= npix,
            npix == pw * ph,
            pw == w * scale,
            ph == hh * scale,
            scale >= 1,
            w > 0,
            ncell == w * hh,
            cells@.len() == ncell,
            forall|j: int|
                0 <= j < ncell ==> #[trigger] cells@[j] == frame_cell(
                    header@,
                    bv,
                    j / w as int,
                    j % w as int,
                ),
            w == layout.spec_width(),
            layout == header.layout,
            bv == byte_views(blocks@),
            data@.len() == p,
            forall|j: int|
                0 <= j < p ==> #[trigger] data@[j] == frame_pixel(header@, bv, scale as int, j),
        decreases npix - p,
    {
        proof {
            assert(pw > 0) by (nonlinear_arith)
                requires
                    pw == w * scale,
                    w > 0,
                    scale >= 1,
            ;
            assert(npix == ph * pw) by (nonlinear_arith)
                requires
                    npix == pw * ph,
            ;
            lemma_div_below(p as int, pw as int, ph as int);
        }
        let y = p / pw;
        let x = p % pw;
        proof {
            lemma_div_below(y as int, scale as int, hh as int);
            lemma_div_below(x as int, scale as int, w as int);
        }
        let cy = y / scale;
        let cx = x / scale;
        proof {
            lemma_grid_index(cy as int, cx as int, hh as int, w as int);
            assert(hh * w == w * hh) by (nonlinear_arith);
            lemma_div_mod_parts(cy as int, w as int, cx as int);
        }
        let v = cells[cy * w + cx];
        data.push(v);
        p = p + 1;
    }
    Bitmap { w: pw, h: ph, data }
}

} // verus!

verus! {

/// Why a frame could not be read.
#[derive(Debug, PartialEq, Eq, Structural)]
pub enum FrameError {
    /// The bitmap is not a whole number of cells, or too small for the strips.
    BadDimensions,
    /// No corner marker candidate in the search window (0=TL, 1=TR, 2=BR, 3=BL).
    CornerNotFound(u8),
    /// The four corner markers do not match their patterns well enough.
    CornerMismatch,
    /// No header copy passed its CRC.
    HeaderNotFound,
    /// The header's grid contradicts the bitmap's size, or its cell depth is
    /// neither one nor two bits.
    LayoutMismatch,
}

/// A decoded frame. `blocks[i]` is the payload of block `i` when its CRC
/// held, `None` when the block was damaged (partial recovery).
#[derive(Debug)]
pub struct DecodedFrame {
    pub header: FrameHeader,
    pub blocks: Vec<Option<Vec<u8>>>,
}

pub struct DecodedFrameView {
    pub header: FrameHeaderView,
    pub blocks: Seq<Option<Seq<u8>>>,
}

pub open spec fn option_bytes_view(b: Option<Vec<u8>>) -> Option<Seq<u8>> {
    match b {
        Some(v) => Some(v@),
        None => None,
    }
}

impl View for DecodedFrame {
    type V = DecodedFrameView;

    open spec fn view(&self) -> DecodedFrameView {
        DecodedFrameView {
            header: self.header@,
            blocks: self.blocks@.map_values(|b: Option<Vec<u8>>| option_bytes_view(b)),
        }
    }
}

/// Corner markers must agree with their patterns on at least 17 of every 20
/// cells: camera images get border cells wrong, and the CRCs are the last
/// line of defence anyway.
pub const CORNER_MATCH_NUM: usize = 17;

pub const CORNER_MATCH_DEN: usize = 20;

/// Whether `matched` of `total` corner cells is enough agreement.
pub open spec fn spec_corner_match_ok(matched: int, total: int) -> bool {
    matched * CORNER_MATCH_DEN >= total * CORNER_MATCH_NUM
}

/// The corner markers pass when at least 17 of every 20 of their cells
/// match their patterns (85%: a real camera gets border cells wrong), and
/// only then.
pub proof fn lemma_corner_tolerance(matched: int, total: int)
    ensures
        spec_corner_match_ok(matched, total) <==> 20 * matched >= 17 * total,
{
}

pub fn corner_match_ok(matched: usize, total: usize) -> (ok: bool)
    requires
        matched <= total,
        total * CORNER_MATCH_DEN <= usize::MAX,
    ensures
        ok == spec_corner_match_ok(matched as int, total as int),
{
    matched * CORNER_MATCH_DEN >= total * CORNER_MATCH_NUM
}

/// A cell reads black below mid-gray.
pub open spec fn cell_black(v: u8) -> bool {
    v < 128
}

pub open spec fn count_true(s: Seq<bool>) -> nat
    decreases s.len(),
{
    if s.len() == 0 {
        0
    } else {
        count_true(s.drop_last()) + (if s.last() { 1nat } else { 0nat })
    }
}

/// Number of cells in the four corner markers.
pub open spec fn corner_cell_total() -> int {
    4 * CORNER * CORNER
}

/// Whether corner cell `k` (marker by marker, row by row) of the cell grid
/// agrees with its pattern.
pub open spec fn corner_hit(cells: Seq<u8>, w: int, h: int, k: int) -> bool {
    let q = k / (CORNER * CORNER) as int;
    let rr = (k % (CORNER * CORNER) as int) / CORNER as int;
    let cc = k % CORNER as int;
    let o = spec_corner_origin(w, h, q);
    cell_black(cells[(o.1 + rr) * w + o.2 + cc]) == spec_corner_black(o.0, rr, cc)
}

pub open spec fn corner_hits(cells: Seq<u8>, w: int, h: int) -> Seq<bool> {
    Seq::new(corner_cell_total() as nat, |k: int| corner_hit(cells, w, h, k))
}

/// The header-area cells read as bits, row by row.
pub open spec fn header_area_bits(cells: Seq<u8>, w: int) -> Seq<bool> {
    Seq::new(
        header_cell_count(w) as nat,
        |i: int| cell_black(cells[spec_header_cell(w, i).0 * w + spec_header_cell(w, i).1]),
    )
}

/// The first header copy, from copy `k` on, that reads as a header.
pub open spec fn first_header_from(bits: Seq<bool>, k: int) -> Option<FrameHeaderView>
    decreases (bits.len() as int) / header_bits_len() - k,
{
    if k < 0 || k >= (bits.len() as int) / header_bits_len() {
        None
    } else {
        match parse_header(
            bits_to_bytes_spec(
                bits.subrange(k * header_bits_len(), (k + 1) * header_bits_len()),
            ),
        ) {
            Some(hv) => Some(hv),
            None => first_header_from(bits, k + 1),
        }
    }
}

/// The first whole header copy in a string of header-area bits that reads as
/// a header.
pub open spec fn first_header(bits: Seq<bool>) -> Option<FrameHeaderView> {
    first_header_from(bits, 0)
}

/// What header copy `k` (bits `192 k` to `192 (k + 1)`) of a string of
/// header-area bits reads as.
pub open spec fn header_copy(bits: Seq<bool>, k: int) -> Option<FrameHeaderView> {
    parse_header(
        bits_to_bytes_spec(bits.subrange(k * header_bits_len(), (k + 1) * header_bits_len())),
    )
}

proof fn lemma_first_valid_copy_from(bits: Seq<bool>, i: int, k: int)
    requires
        0 <= i <= k < (bits.len() as int) / header_bits_len(),
        header_copy(bits, k) is Some,
        forall|j: int| i <= j < k ==> #[trigger] header_copy(bits, j) is None,
    ensures
        first_header_from(bits, i) == header_copy(bits, k),
    decreases k - i,
{
    if i < k {
        assert(header_copy(bits, i) is None);
        lemma_first_valid_copy_from(bits, i + 1, k);
    }
}

proof fn lemma_no_valid_copy_from(bits: Seq<bool>, i: int)
    requires
        0 <= i,
        forall|j: int|
            i <= j < (bits.len() as int) / header_bits_len() ==> #[trigger] header_copy(bits, j) is None,
    ensures
        first_header_from(bits, i) is None,
    decreases (bits.len() as int) / header_bits_len() - i,
{
    if i < (bits.len() as int) / header_bits_len() {
        assert(header_copy(bits, i) is None);
        lemma_no_valid_copy_from(bits, i + 1);
    }
}

proof fn lemma_found_copy_from(bits: Seq<bool>, i: int)
    requires
        0 <= i,
        first_header_from(bits, i) is Some,
    ensures
        exists|k: int|
            i <= k < (bits.len() as int) / header_bits_len() && #[trigger] header_copy(bits, k)
                == first_header_from(bits, i) && forall|j: int|
                i <= j < k ==> #[trigger] header_copy(bits, j) is None,
    decreases (bits.len() as int) / header_bits_len() - i,
{
    if header_copy(bits, i) is Some {
        assert(header_copy(bits, i) == first_header_from(bits, i));
    } else {
        lemma_found_copy_from(bits, i + 1);
        let k = choose|k: int|
            i + 1 <= k < (bits.len() as int) / header_bits_len() && #[trigger] header_copy(bits, k)
                == first_header_from(bits, i + 1) && forall|j: int|
                i + 1 <= j < k ==> #[trigger] header_copy(bits, j) is None;
        assert(forall|j: int| i <= j < k ==> #[trigger] header_copy(bits, j) is None);
    }
}

/// Reading the header area takes the header from the first whole copy, in
/// order, that passes its CRC: whichever copy that is, and whatever the
/// copies before it hold; no header when no whole copy passes; and the
/// header found is always such a copy.
pub proof fn lemma_first_header_is_first_valid_copy(bits: Seq<bool>)
    ensures
        forall|k: int|
            0 <= k < (bits.len() as int) / header_bits_len() && (#[trigger] header_copy(bits, k))
                is Some && (forall|j: int| 0 <= j < k ==> #[trigger] header_copy(bits, j) is None)
                ==> first_header(bits) == header_copy(bits, k),
        (forall|j: int|
            0 <= j < (bits.len() as int) / header_bits_len() ==> #[trigger] header_copy(bits, j)
                is None) ==> first_header(bits) is None,
        first_header(bits) is Some ==> exists|k: int|
            0 <= k < (bits.len() as int) / header_bits_len() && #[trigger] header_copy(bits, k)
                == first_header(bits) && forall|j: int|
                0 <= j < k ==> #[trigger] header_copy(bits, j) is None,
{
    assert forall|k: int|
        0 <= k < (bits.len() as int) / header_bits_len() && (#[trigger] header_copy(bits, k)) is Some
            && (forall|j: int| 0 <= j < k ==> #[trigger] header_copy(bits, j) is None) implies first_header(
        bits,
    ) == header_copy(bits, k) by {
        lemma_first_valid_copy_from(bits, 0, k);
    }
    if forall|j: int|
        0 <= j < (bits.len() as int) / header_bits_len() ==> #[trigger] header_copy(bits, j) is None {
        lemma_no_valid_copy_from(bits, 0);
    }
    if first_header(bits) is Some {
        lemma_found_copy_from(bits, 0);
    }
}

/// Cell `i` (row by row) of block `bi` of a `w`-wide cell grid.
pub open spec fn block_cell(cells: Seq<u8>, w: int, l: Layout, bi: int, i: int) -> u8 {
    let o = l.spec_block_origin(bi);
    cells[(o.0 + i / l.block as int) * w + o.1 + i % l.block as int]
}

/// The bits read from block `bi`: one per cell (black or white), or two per
/// cell (nearest of four gray levels, high bit first).
pub open spec fn block_bits(cells: Seq<u8>, w: int, l: Layout, bpc: u8, bi: int) -> Seq<bool> {
    if bpc == 1 {
        Seq::new((l.block * l.block) as nat, |i: int| cell_black(block_cell(cells, w, l, bi, i)))
    } else {
        Seq::new(
            (2 * l.block * l.block) as nat,
            |j: int|
                {
                    let lv = spec_nearest_level(block_cell(cells, w, l, bi, j / 2));
                    if j % 2 == 0 {
                        lv & 2u8 != 0
                    } else {
                        lv & 1u8 != 0
                    }
                },
        )
    }
}

/// A block's payload when the CRC-32 that follows it matches.
pub open spec fn recovered_block(bytes: Seq<u8>, payload_len: int) -> Option<Seq<u8>> {
    if spec_crc32(bytes.subrange(0, payload_len)) == from_be32(
        bytes.subrange(payload_len, payload_len + 4),
    ) {
        Some(bytes.subrange(0, payload_len))
    } else {
        None
    }
}

/// Reading a grid of `w` x `h` cell values as a frame: check the size, the
/// corner markers, find the first header copy that passes its CRC, check its
/// grid against the size, then recover every block whose CRC holds.
pub open spec fn decode_cells_spec(cells: Seq<u8>, w: int, h: int) -> Result<
    DecodedFrameView,
    FrameError,
> {
    if w < 2 * CORNER + 1 || h < 2 * STRIP_H + 1 {
        Err(FrameError::BadDimensions)
    } else if !spec_corner_match_ok(
        count_true(corner_hits(cells, w, h)) as int,
        corner_cell_total(),
    ) {
        Err(FrameError::CornerMismatch)
    } else {
        match first_header(header_area_bits(cells, w)) {
            None => Err(FrameError::HeaderNotFound),
            Some(hv) => {
                let l = hv.layout;
                let bpc = hv.bits_per_cell;
                if l.spec_width() != w || l.spec_height() != h || !(bpc == 1 || bpc == 2) || l.block
                    * l.block * bpc < 32 {
                    Err(FrameError::LayoutMismatch)
                } else {
                    Ok(
                        DecodedFrameView {
                            header: hv,
                            blocks: Seq::new(
                                l.spec_block_count() as nat,
                                |bi: int|
                                    recovered_block(
                                        bits_to_bytes_spec(block_bits(cells, w, l, bpc, bi)),
                                        l.spec_block_payload_len(bpc),
                                    ),
                            ),
                        },
                    )
                }
            },
        }
    }
}

/// The cell grid sampled from a bitmap at the centre of each `scale` x
/// `scale` cell.
pub open spec fn sampled_cells(data: Seq<u8>, bw: int, scale: int, cw: int, ch: int) -> Seq<u8> {
    Seq::new(
        (cw * ch) as nat,
        |k: int| data[((k / cw) * scale + scale / 2) * bw + (k % cw) * scale + scale / 2],
    )
}

/// Reading a bitmap drawn at `scale` pixels per cell.
pub open spec fn decode_bitmap_spec(data: Seq<u8>, bw: int, bh: int, scale: int) -> Result<
    DecodedFrameView,
    FrameError,
> {
    if scale == 0 || bw % scale != 0 || bh % scale != 0 {
        Err(FrameError::BadDimensions)
    } else {
        decode_cells_spec(
            sampled_cells(data, bw, scale, bw / scale, bh / scale),
            bw / scale,
            bh / scale,
        )
    }
}

} // verus!

verus! {

/// The first whole header copy in `bits` (192 bits each) that passes its CRC.
pub fn first_header_in(bits: &[bool]) -> (r: Option<FrameHeader>)
    ensures
        match r {
            Some(h) => first_header(bits@) == Some(h@),
            None => first_header(bits@) is None,
        },
{
    let hb: usize = HEADER_LEN * 8;
    let n = bits.len() / hb;
    let mut k: usize = 0;
    while k < n
        invariant
            k <= n,
            hb == header_bits_len(),
            n == (bits@.len() as int) / header_bits_len(),
            bits@.len() <= usize::MAX,
            first_header(bits@) == first_header_from(bits@, k as int),
        decreases n - k,
    {
        proof {
            assert((k + 1) * hb <= n * hb) by (nonlinear_arith)
                requires
                    k < n,
            ;
            assert(k * hb <= (k + 1) * hb) by (nonlinear_arith);
            assert(n * hb <= bits@.len()) by (nonlinear_arith)
                requires
                    n == (bits@.len() as int) / (hb as int),
                    hb > 0,
            ;
        }
        let bytes = bits_to_bytes_range(bits, k * hb, (k + 1) * hb);
        match FrameHeader::deserialize(bytes.as_slice()) {
            Some(h) => {
                return Some(h);
            },
            None => {},
        }
        k = k + 1;
    }
    None
}

/// The payload of a block read as `bits`, when the CRC-32 after its first
/// `payload_len` bytes matches.
pub fn recover_block(bits: &[bool], payload_len: usize) -> (r: Option<Vec<u8>>)
    requires
        (bits@.len() + 7) / 8 >= payload_len + 4,
    ensures
        match r {
            Some(p) => recovered_block(bits_to_bytes_spec(bits@), payload_len as int) == Some(p@),
            None => recovered_block(bits_to_bytes_spec(bits@), payload_len as int) is None,
        },
{
    let bytes = bits_to_bytes(bits);
    let pl = payload_len;
    let n = bytes.len();
    assert(pl + 4 <= n);
    let stored = ((bytes[pl] as u32) << 24) | ((bytes[pl + 1] as u32) << 16) | ((bytes[pl + 2]
        as u32) << 8) | (bytes[pl + 3] as u32);
    assert(stored == from_be32(bytes@.subrange(pl as int, pl + 4)));
    if crc32_range(bytes.as_slice(), 0, pl) == stored {
        let mut p: Vec<u8> = Vec::new();
        push_range(&mut p, bytes.as_slice(), 0, pl);
        assert(p@ =~= bytes@.subrange(0, pl as int));
        Some(p)
    } else {
        None
    }
}

/// The bits of block `bi` of the `w`-wide cell grid.
fn read_block_bits(cells: &[u8], w: usize, h: usize, l: Layout, bpc: u8, bi: usize) -> (bits: Vec<
    bool,
>)
    requires
        cells@.len() == w * h,
        l.spec_width() == w,
        l.spec_height() == h,
        w >= 1,
        bpc == 1 || bpc == 2,
        bi < l.spec_block_count(),
        2 * (w * h) <= usize::MAX,
    ensures
        bits@ == block_bits(cells@, w as int, l, bpc, bi as int),
{
    proof {
        assert(l.block >= 1 && l.grid_w >= 1) by (nonlinear_arith)
            requires
                l.grid_w * l.block == w,
                w >= 1,
        ;
        assert(l.grid_h >= 1) by (nonlinear_arith)
            requires
                bi < l.grid_w * l.grid_h,
        ;
        assert(l.block * l.block <= w * h) by (nonlinear_arith)
            requires
                l.grid_w * l.block == w,
                l.grid_h * l.block + 2 * STRIP_H == h,
                l.grid_w >= 1,
                l.grid_h >= 1,
                l.block >= 1,
        ;
    }
    let o = l.block_origin(bi);
    let n = l.block * l.block;
    let mut bits: Vec<bool> = Vec::new();
    let mut i: usize = 0;
    proof {
        assert(l.grid_w * l.grid_h == l.grid_h * l.grid_w) by (nonlinear_arith);
        lemma_div_below(bi as int, l.grid_w as int, l.grid_h as int);
        assert(bi as int / l.grid_w as int * l.block <= (l.grid_h - 1) * l.block) by (
        nonlinear_arith)
            requires
                bi as int / l.grid_w as int <= l.grid_h - 1,
                l.block >= 1,
        ;
        assert(bi as int % l.grid_w as int * l.block <= (l.grid_w - 1) * l.block) by (
        nonlinear_arith)
            requires
                bi as int % l.grid_w as int <= l.grid_w - 1,
                l.block >= 1,
        ;
        assert((l.grid_h - 1) * l.block + l.block == l.grid_h * l.block) by (nonlinear_arith);
        assert((l.grid_w - 1) * l.block + l.block == l.grid_w * l.block) by (nonlinear_arith);
    }
    while i < n
        invariant
            i <= n,
            n == l.block * l.block,
            l.block >= 1,
            cells@.len() == w * h,
            l.spec_width() == w,
            l.spec_height() == h,
            bpc == 1 || bpc == 2,
            2 * (w * h) <= usize::MAX,
            n <= w * h,
            o.0 == l.spec_block_origin(bi as int).0,
            o.1 == l.spec_block_origin(bi as int).1,
            o.0 + l.block <= h - STRIP_H,
            o.1 + l.block <= w,
            bits@.len() == i * bpc,
            forall|j: int|
                0 <= j < bits@.len() ==> #[trigger] bits@[j] == block_bits(
                    cells@,
                    w as int,
                    l,
                    bpc,
                    bi as int,
                )[j],
        decreases n - i,
    {
        proof {
            lemma_div_below(i as int, l.block as int, l.block as int);
            lemma_grid_index(
                (o.0 + i / l.block) as int,
                (o.1 + i % l.block) as int,
                h as int,
                w as int,
            );
            assert(h * w == w * h) by (nonlinear_arith);
        }
        let r = o.0 + i / l.block;
        let c = o.1 + i % l.block;
        let v = cells[r * w + c];
        assert(v == block_cell(cells@, w as int, l, bi as int, i as int));
        let ghost spec_bits = block_bits(cells@, w as int, l, bpc, bi as int);
        if bpc == 1 {
            assert(spec_bits[i as int] == (v < 128));
            bits.push(v < 128);
        } else {
            let lv = nearest_level(v);
            proof {
                assert((2 * i) / 2 == i && (2 * i) % 2 == 0 && (2 * i + 1) / 2 == i && (2 * i + 1)
                    % 2 == 1) by (nonlinear_arith);
                assert(2 * i + 1 < 2 * l.block * l.block) by (nonlinear_arith)
                    requires
                        i < l.block * l.block,
                ;
                assert(spec_bits[2 * i] == (lv & 2u8 != 0));
                assert(spec_bits[2 * i + 1] == (lv & 1u8 != 0));
            }
            bits.push(lv & 2 != 0);
            bits.push(lv & 1 != 0);
        }
        i = i + 1;
    }
    assert(n * 2 == 2 * l.block * l.block) by (nonlinear_arith)
        requires
            n == l.block * l.block,
    ;
    assert(bits@ =~= block_bits(cells@, w as int, l, bpc, bi as int));
    bits
}

} // verus!

verus! {

/// The bits of the header area of a `w` x `h` grid of cell values, a dark
/// cell reading as `true`.
fn read_header_bits(cells: &[u8], w: usize, h: usize) -> (hbits: Vec<bool>)
    requires
        cells@.len() == w * h,
        2 * (w * h) <= usize::MAX,
        w >= 2 * CORNER + 1,
        h >= 2 * STRIP_H + 1,
    ensures
        hbits@ == header_area_bits(cells@, w as int),
{
    proof {
        assert((STRIP_H - 1) * (w - 2 * CORNER) <= w * h) by (nonlinear_arith)
            requires
                w >= 2 * CORNER + 1,
                h >= 2 * STRIP_H + 1,
        ;
    }
    let hcells = header_cells(w);
    let mut hbits: Vec<bool> = Vec::new();
    let mut i: usize = 0;
    while i < hcells.len()
        invariant
            i <= hcells@.len(),
            hcells@.len() == header_cell_count(w as int),
            forall|j: int|
                0 <= j < hcells@.len() ==> ((#[trigger] hcells@[j]).0 as int, hcells@[j].1 as int)
                    == spec_header_cell(w as int, j),
            w >= 2 * CORNER + 1,
            h >= 2 * STRIP_H + 1,
            cells@.len() == w * h,
            2 * (w * h) <= usize::MAX,
            hbits@.len() == i,
            forall|j: int|
                0 <= j < i ==> #[trigger] hbits@[j] == header_area_bits(cells@, w as int)[j],
        decreases hcells.len() - i,
    {
        let (r, c) = hcells[i];
        proof {
            let span = w - 2 * CORNER;
            assert(hcells@.len() == (STRIP_H - 1) * span);
            assert((STRIP_H - 1) * span == span * (STRIP_H - 1)) by (nonlinear_arith);
            lemma_div_below(i as int, span as int, (STRIP_H - 1) as int);
            lemma_grid_index(r as int, c as int, h as int, w as int);
            assert(h * w == w * h) by (nonlinear_arith);
        }
        hbits.push(cells[r * w + c] < 128);
        i = i + 1;
    }
    assert(hbits@ =~= header_area_bits(cells@, w as int));
    hbits
}

/// Reads a `w` x `h` grid of cell values as a frame.
fn decode_cells(cells: &[u8], w: usize, h: usize) -> (r: Result<DecodedFrame, FrameError>)
    requires
        cells@.len() == w * h,
        2 * (w * h) <= usize::MAX,
    ensures
        match r {
            Ok(f) => decode_cells_spec(cells@, w as int, h as int) == Ok::<
                DecodedFrameView,
                FrameError,
            >(f@),
            Err(e) => decode_cells_spec(cells@, w as int, h as int) == Err::<
                DecodedFrameView,
                FrameError,
            >(e),
        },
{
    if w < 2 * CORNER + 1 || h < 2 * STRIP_H + 1 {
        return Err(FrameError::BadDimensions);
    }
    // Corner markers, judged by their agreement with the patterns.
    let origins = corner_origins(w, h);
    let total: usize = 4 * CORNER * CORNER;
    let ghost hits = corner_hits(cells@, w as int, h as int);
    let mut matched: usize = 0;
    let mut k: usize = 0;
    while k < total
        invariant
            k <= total,
            total == corner_cell_total(),
            w >= 2 * CORNER + 1,
            h >= 2 * STRIP_H + 1,
            cells@.len() == w * h,
            hits == corner_hits(cells@, w as int, h as int),
            2 * (w * h) <= usize::MAX,
            forall|q: int|
                0 <= q < 4 ==> ((#[trigger] origins@[q]).0, origins@[q].1 as int, origins@[q].2 as int)
                    == spec_corner_origin(w as int, h as int, q),
            matched <= k,
            matched == count_true(hits.subrange(0, k as int)),
        decreases total - k,
    {
        let q = k / (CORNER * CORNER);
        let rr = (k % (CORNER * CORNER)) / CORNER;
        let cc = k % CORNER;
        let o = origins[q];
        proof {
            lemma_grid_index((o.1 + rr) as int, (o.2 + cc) as int, h as int, w as int);
            assert(h * w == w * h) by (nonlinear_arith);
        }
        let v = cells[(o.1 + rr) * w + o.2 + cc];
        let hit = (v < 128) == corner_black(o.0, rr, cc);
        assert(hit == hits[k as int]);
        assert(hits.subrange(0, k + 1).drop_last() =~= hits.subrange(0, k as int));
        if hit {
            matched = matched + 1;
        }
        k = k + 1;
    }
    assert(hits.subrange(0, total as int) =~= hits);
    if !corner_match_ok(matched, total) {
        return Err(FrameError::CornerMismatch);
    }
    // Header: the first copy whose CRC holds.
    let hbits = read_header_bits(cells, w, h);
    let header = match first_header_in(hbits.as_slice()) {
        Some(hd) => hd,
        None => {
            return Err(FrameError::HeaderNotFound);
        },
    };
    let layout = header.layout;
    let bpc = header.bits_per_cell;
    if layout.grid_w > w || layout.block > w || layout.grid_h > h || layout.block > h {
        proof {
            assert(layout.spec_width() != w || layout.spec_height() != h) by (nonlinear_arith)
                requires
                    layout.grid_w > w || layout.block > w || layout.grid_h > h || layout.block > h,
                    w >= 1,
                    h >= 13,
            ;
        }
        return Err(FrameError::LayoutMismatch);
    }
    proof {
        assert(layout.grid_w * layout.block <= w * h) by (nonlinear_arith)
            requires
                layout.grid_w <= w,
                layout.block <= h,
        ;
        assert(layout.grid_h * layout.block <= w * h) by (nonlinear_arith)
            requires
                layout.grid_h <= h,
                layout.block <= w,
        ;
    }
    if layout.grid_w * layout.block != w || layout.grid_h * layout.block != h - 2 * STRIP_H || !(
    bpc == 1 || bpc == 2) {
        return Err(FrameError::LayoutMismatch);
    }
    proof {
        assert(layout.grid_w >= 1 && layout.block >= 1) by (nonlinear_arith)
            requires
                layout.grid_w * layout.block == w,
                w >= 1,
        ;
        assert(layout.grid_h >= 1) by (nonlinear_arith)
            requires
                layout.grid_h * layout.block == h - 2 * STRIP_H,
                h >= 2 * STRIP_H + 1,
        ;
        assert(layout.grid_w * layout.grid_h <= w * h) by (nonlinear_arith)
            requires
                layout.grid_w * layout.block == w,
                layout.grid_h * layout.block == h - 2 * STRIP_H,
                layout.block >= 1,
                layout.grid_h >= 1,
        ;
        assert(layout.block * layout.block <= w * h) by (nonlinear_arith)
            requires
                layout.grid_w * layout.block == w,
                layout.grid_h * layout.block + 2 * STRIP_H == h,
                layout.grid_w >= 1,
                layout.grid_h >= 1,
                layout.block >= 1,
        ;
        assert(layout.block * layout.block * bpc <= 2 * (w * h)) by (nonlinear_arith)
            requires
                layout.block * layout.block <= w * h,
                bpc <= 2,
        ;
    }
    // A header whose blocks have no room for a CRC-32 describes no readable
    // grid.
    if layout.block * layout.block * (bpc as usize) < 32 {
        return Err(FrameError::LayoutMismatch);
    }
    let nblk = layout.block_count();
    let pl = layout.block_payload_len(bpc);
    let ghost expected = Seq::new(
        layout.spec_block_count() as nat,
        |bi: int|
            recovered_block(
                bits_to_bytes_spec(block_bits(cells@, w as int, layout, bpc, bi)),
                layout.spec_block_payload_len(bpc),
            ),
    );
    let mut blocks: Vec<Option<Vec<u8>>> = Vec::new();
    let mut bi: usize = 0;
    while bi < nblk
        invariant
            bi <= nblk,
            nblk == layout.spec_block_count(),
            pl == layout.spec_block_payload_len(bpc),
            layout.block * layout.block * bpc >= 32,
            layout.spec_width() == w,
            layout.spec_height() == h,
            w >= 1,
            cells@.len() == w * h,
            2 * (w * h) <= usize::MAX,
            bpc == 1 || bpc == 2,
            expected.len() == nblk,
            forall|j: int|
                0 <= j < nblk ==> #[trigger] expected[j] == recovered_block(
                    bits_to_bytes_spec(block_bits(cells@, w as int, layout, bpc, j)),
                    layout.spec_block_payload_len(bpc),
                ),
            blocks@.len() == bi,
            forall|j: int|
                0 <= j < bi ==> option_bytes_view(#[trigger] blocks@[j]) == expected[j],
        decreases nblk - bi,
    {
        let bits = read_block_bits(cells, w, h, layout, bpc, bi);
        proof {
            assert(bits@.len() == layout.block * layout.block * bpc) by (nonlinear_arith)
                requires
                    bpc == 1 ==> bits@.len() == layout.block * layout.block,
                    bpc == 2 ==> bits@.len() == 2 * layout.block * layout.block,
                    bpc == 1 || bpc == 2,
            ;
            assert((bits@.len() + 7) / 8 >= pl + 4) by (nonlinear_arith)
                requires
                    pl + 4 == bits@.len() / 8,
            ;
        }
        let b = recover_block(bits.as_slice(), pl);
        blocks.push(b);
        bi = bi + 1;
    }
    let f = DecodedFrame { header, blocks };
    assert(f@.blocks =~= expected);
    Ok(f)
}

/// The grid of cell values sampled from a bitmap drawn at `scale` pixels per
/// cell, each cell read at its centre.
fn sample_cell_grid(bm: &Bitmap, scale: usize) -> (cells: Vec<u8>)
    requires
        bm.wf(),
        bm.w * bm.h <= usize::MAX,
        scale > 0,
        bm.w % scale == 0,
        bm.h % scale == 0,
    ensures
        cells@ == sampled_cells(
            bm.data@,
            bm.w as int,
            scale as int,
            bm.w as int / scale as int,
            bm.h as int / scale as int,
        ),
        (bm.w / scale) * (bm.h / scale) <= bm.w * bm.h,
{
    let cw = bm.w / scale;
    let ch = bm.h / scale;
    proof {
        assert(cw * ch <= bm.w * bm.h) by (nonlinear_arith)
            requires
                cw == bm.w / scale,
                ch == bm.h / scale,
                scale >= 1,
        ;
    }
    let n = cw * ch;
    let ghost expect = sampled_cells(bm.data@, bm.w as int, scale as int, cw as int, ch as int);
    let mut cells: Vec<u8> = Vec::new();
    let mut k: usize = 0;
    while k < n
        invariant
            k <= n,
            n == cw * ch,
            cw == bm.w / scale,
            ch == bm.h / scale,
            bm.w % scale == 0,
            bm.h % scale == 0,
            scale >= 1,
            bm.wf(),
            expect == sampled_cells(bm.data@, bm.w as int, scale as int, cw as int, ch as int),
            cells@.len() == k,
            forall|j: int| 0 <= j < k ==> #[trigger] cells@[j] == expect[j],
        decreases n - k,
    {
        proof {
            lemma_div_below(k as int, cw as int, ch as int);
            crate::arith::lemma_centre_in_cell((k / cw) as int, scale as int);
            crate::arith::lemma_centre_in_cell((k % cw) as int, scale as int);
            assert(((k / cw) as int + 1) * scale <= ch * scale) by (nonlinear_arith)
                requires
                    (k / cw) < ch,
            ;
            assert(((k % cw) as int + 1) * scale <= cw * scale) by (nonlinear_arith)
                requires
                    (k % cw) < cw,
            ;
            vstd::arithmetic::div_mod::lemma_fundamental_div_mod(bm.w as int, scale as int);
            vstd::arithmetic::div_mod::lemma_fundamental_div_mod(bm.h as int, scale as int);
            assert(cw * scale == bm.w);
            assert(ch * scale == bm.h);
        }
        let r = k / cw;
        let c = k % cw;
        let v = bm.sample_cell_value(scale, r, c);
        cells.push(v);
        k = k + 1;
    }
    assert(cells@ =~= expect);
    cells
}

/// Reads a bitmap drawn at `scale` pixels per cell (ideal channel: cells are
/// sampled at their centres). Damaged blocks come back as `None`. A header
/// whose grid does not fit the bitmap, or whose blocks have no room for a
/// CRC-32, is answered with `LayoutMismatch`.
pub fn decode_frame(bm: &Bitmap, scale: usize) -> (r: Result<DecodedFrame, FrameError>)
    requires
        bm.wf(),
        2 * (bm.w * bm.h) <= usize::MAX,
    ensures
        match r {
            Ok(f) => decode_bitmap_spec(bm.data@, bm.w as int, bm.h as int, scale as int) == Ok::<
                DecodedFrameView,
                FrameError,
            >(f@),
            Err(e) => decode_bitmap_spec(bm.data@, bm.w as int, bm.h as int, scale as int)
                == Err::<DecodedFrameView, FrameError>(e),
        },
{
    if scale == 0 || bm.w % scale != 0 || bm.h % scale != 0 {
        return Err(FrameError::BadDimensions);
    }
    let cw = bm.w / scale;
    let ch = bm.h / scale;
    let cells = sample_cell_grid(bm, scale);
    decode_cells(cells.as_slice(), cw, ch)
}

} // verus!

verus! {

/// A block (payload, then its CRC-32) with any one byte changed reads as
/// missing.
pub proof fn lemma_block_detects_one_byte(p: Seq<u8>, k: int, v: u8)
    requires
        0 <= k < p.len() + 4,
        (p + be32(spec_crc32(p)))[k] != v,
    ensures
        recovered_block((p + be32(spec_crc32(p))).update(k, v), p.len() as int) is None,
{
    let n = p.len() as int;
    let c = p + be32(spec_crc32(p));
    let c2 = c.update(k, v);
    crate::bits::lemma_be32_roundtrip(spec_crc32(p));
    assert(c.subrange(0, n) =~= p);
    assert(c.subrange(n, n + 4) =~= be32(spec_crc32(p)));
    if k < n {
        assert(c2.subrange(n, n + 4) =~= c.subrange(n, n + 4));
        assert(c2.subrange(0, n) =~= p.update(k, v));
        crate::crc::lemma_crc_detects_one_byte(p, k, v);
    } else {
        assert(c2.subrange(0, n) =~= p);
        crate::bits::lemma_from_be32_roundtrip(c2.subrange(n, n + 4));
        if from_be32(c2.subrange(n, n + 4)) == spec_crc32(p) {
            assert(c2.subrange(n, n + 4) =~= be32(spec_crc32(p)));
            assert(c2[k] == c2.subrange(n, n + 4)[k - n]);
        }
    }
}

} // verus!
