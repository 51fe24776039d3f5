//! Partial recovery: damage to the data blocks of a frame costs only the
//! blocks it touches. The strips (corner markers, header copies, calibration
//! cells) decide whether a frame reads at all; each block's payload is read
//! from that block's cells alone.

use vstd::prelude::*;
use crate::arith::{lemma_div_below, lemma_div_mod_parts, lemma_grid_index};
use crate::bits::{bytes_to_bits, lemma_bits_bytes_roundtrip};
use crate::frame::{
    block_bits, block_cell, corner_cell_total, corner_hit, corner_hits, count_true,
    decode_bitmap_spec, decode_cells_spec, first_header, frame_drawable, header_area_bits,
    header_bits_len, header_copies, header_copy, lemma_corner_tolerance,
    lemma_first_header_is_first_valid_copy, sampled_cells, spec_corner_match_ok,
};
use crate::header::{header_bytes, header_encodable, lemma_header_roundtrip, FrameHeaderView};
use crate::layout::{Layout, CORNER, STRIP_H};
use crate::pattern::{header_cell_count, spec_corner_origin, spec_header_cell};
use crate::roundtrip::{encoded_pixels, expected_frame, lemma_every_header_copy, lemma_frame_roundtrip};

verus! {

/// Whether two `w` x `h` grids agree on every cell of the top and bottom
/// strips.
pub open spec fn strips_agree(a: Seq<u8>, b: Seq<u8>, w: int, h: int) -> bool {
    forall|k: int|
        0 <= k < w * h && (k / w < STRIP_H || k / w >= h - STRIP_H) ==> #[trigger] a[k] == b[k]
}

/// Whether two grids agree on every cell of block `bi`.
pub open spec fn block_agrees(a: Seq<u8>, b: Seq<u8>, w: int, l: Layout, bi: int) -> bool {
    forall|i: int| 0 <= i < l.block * l.block ==> #[trigger] block_cell(a, w, l, bi, i) == block_cell(b, w, l, bi, i)
}

/// A strip cell (row `r` in the strips, column `c`) of a grid `w` wide.
proof fn lemma_strip_index(a: Seq<u8>, b: Seq<u8>, w: int, h: int, r: int, c: int)
    requires
        strips_agree(a, b, w, h),
        0 <= r < h,
        0 <= c < w,
        r < STRIP_H || r >= h - STRIP_H,
    ensures
        a[r * w + c] == b[r * w + c],
{
    lemma_div_mod_parts(r, w, c);
    lemma_grid_index(r, c, h, w);
    assert(h * w == w * h) by (nonlinear_arith);
    assert(a[r * w + c] == b[r * w + c]);
}

/// The steps of reading a grid that look only at the strips give the same
/// answer on two grids that agree there: the size check, the corner markers
/// and the header.
proof fn lemma_strips_decide(a: Seq<u8>, b: Seq<u8>, w: int, h: int)
    requires
        strips_agree(a, b, w, h),
        w >= 2 * CORNER + 1,
        h >= 2 * STRIP_H + 1,
    ensures
        corner_hits(a, w, h) == corner_hits(b, w, h),
        header_area_bits(a, w) == header_area_bits(b, w),
{
    assert forall|k: int| 0 <= k < corner_cell_total() implies #[trigger] corner_hits(a, w, h)[k]
        == corner_hits(b, w, h)[k] by {
        let q = k / (CORNER * CORNER) as int;
        let rr = (k % (CORNER * CORNER) as int) / CORNER as int;
        let cc = k % CORNER as int;
        lemma_div_below(k, (CORNER * CORNER) as int, 4);
        lemma_div_below(k % (CORNER * CORNER) as int, CORNER as int, CORNER as int);
        let o = spec_corner_origin(w, h, q);
        lemma_strip_index(a, b, w, h, o.1 + rr, o.2 + cc);
        assert(corner_hit(a, w, h, k) == corner_hit(b, w, h, k));
    }
    assert(corner_hits(a, w, h) =~= corner_hits(b, w, h));
    let span = w - 2 * CORNER;
    assert forall|i: int| 0 <= i < header_cell_count(w) implies #[trigger] header_area_bits(a, w)[i]
        == header_area_bits(b, w)[i] by {
        assert(header_cell_count(w) == span * (STRIP_H - 1)) by (nonlinear_arith)
            requires
                span == w - 2 * CORNER,
        ;
        lemma_div_below(i, span, (STRIP_H - 1) as int);
        let cell = spec_header_cell(w, i);
        lemma_strip_index(a, b, w, h, cell.0, cell.1);
    }
    assert(header_area_bits(a, w) =~= header_area_bits(b, w));
}

/// Two grids that agree on the strips read the same way up to the blocks,
/// and a block on whose cells they agree reads the same in both.
pub proof fn lemma_reading_is_local(a: Seq<u8>, b: Seq<u8>, w: int, h: int)
    requires
        a.len() == w * h,
        b.len() == w * h,
        strips_agree(a, b, w, h),
    ensures
        decode_cells_spec(a, w, h) is Ok <==> decode_cells_spec(b, w, h) is Ok,
        decode_cells_spec(a, w, h) is Err ==> decode_cells_spec(a, w, h) == decode_cells_spec(b, w, h),
        decode_cells_spec(a, w, h) matches Ok(fa) ==> ({
            let fb = decode_cells_spec(b, w, h)->Ok_0;
            &&& fb.header == fa.header
            &&& fb.blocks.len() == fa.blocks.len()
            &&& forall|bi: int|
                0 <= bi < fa.blocks.len() && block_agrees(a, b, w, fa.header.layout, bi)
                    ==> #[trigger] fb.blocks[bi] == fa.blocks[bi]
        }),
{
    if w >= 2 * CORNER + 1 && h >= 2 * STRIP_H + 1 {
        lemma_strips_decide(a, b, w, h);
        match decode_cells_spec(a, w, h) {
            Ok(fa) => {
                let l = fa.header.layout;
                let bpc = fa.header.bits_per_cell;
                let fb = decode_cells_spec(b, w, h)->Ok_0;
                assert forall|bi: int|
                    0 <= bi < fa.blocks.len() && block_agrees(a, b, w, l, bi) implies #[trigger] fb.blocks[bi]
                    == fa.blocks[bi] by {
                    let ba = block_bits(a, w, l, bpc, bi);
                    let bb = block_bits(b, w, l, bpc, bi);
                    assert forall|j: int| 0 <= j < ba.len() implies ba[j] == bb[j] by {
                        if bpc == 1 {
                            assert(block_cell(a, w, l, bi, j) == block_cell(b, w, l, bi, j));
                        } else {
                            assert(0 <= j / 2 < l.block * l.block) by (nonlinear_arith)
                                requires
                                    0 <= j < 2 * l.block * l.block,
                            ;
                            assert(block_cell(a, w, l, bi, j / 2) == block_cell(b, w, l, bi, j / 2));
                        }
                    }
                    assert(ba =~= bb);
                }
            },
            Err(_) => {},
        }
    }
}

/// A rendered frame drawn one pixel per cell, then damaged anywhere between
/// the strips, still reads: its header comes back whole, and every block whose
/// cells the damage left alone reads as the payload it was drawn with (a
/// damaged block reads as whatever its CRC lets through, in practice
/// nothing). The conditions are those under which an undamaged frame reads
/// back.
pub proof fn lemma_damage_stays_in_its_blocks(hv: FrameHeaderView, blocks: Seq<Seq<u8>>, damaged: Seq<u8>)
    requires
        frame_drawable(hv, blocks, 1),
        header_encodable(hv),
        hv.layout.grid_h > 0,
        hv.layout.spec_block_bytes(hv.bits_per_cell) >= 4,
        damaged.len() == hv.layout.spec_width() * hv.layout.spec_height(),
        strips_agree(
            damaged,
            encoded_pixels(hv, blocks, 1),
            hv.layout.spec_width(),
            hv.layout.spec_height(),
        ),
    ensures
        ({
            let w = hv.layout.spec_width();
            let h = hv.layout.spec_height();
            let read = decode_bitmap_spec(damaged, w, h, 1);
            &&& read is Ok
            &&& read->Ok_0.header == hv
            &&& read->Ok_0.blocks.len() == hv.layout.spec_block_count()
            &&& forall|bi: int|
                0 <= bi < hv.layout.spec_block_count() && block_agrees(
                    damaged,
                    encoded_pixels(hv, blocks, 1),
                    w,
                    hv.layout,
                    bi,
                ) ==> #[trigger] read->Ok_0.blocks[bi] == expected_frame(hv, blocks).blocks[bi]
        }),
{
    let w = hv.layout.spec_width();
    let h = hv.layout.spec_height();
    let clean = encoded_pixels(hv, blocks, 1);
    lemma_frame_roundtrip(hv, blocks, 1);
    assert(w * 1 == w && h * 1 == h);
    lemma_sampled_at_one(clean, w, h);
    lemma_sampled_at_one(damaged, w, h);
    assert(w % 1 == 0 && h % 1 == 0);
    assert(w / 1 == w && h / 1 == h);
    assert(clean.len() == w * h);
    lemma_reading_is_local(clean, damaged, w, h);
    assert forall|k: int|
        0 <= k < w * h && (k / w < STRIP_H || k / w >= h - STRIP_H) implies #[trigger] clean[k]
        == damaged[k] by {
        assert(damaged[k] == clean[k]);
    }
    assert forall|bi: int|
        0 <= bi < hv.layout.spec_block_count() && block_agrees(damaged, clean, w, hv.layout, bi) implies block_agrees(
        clean,
        damaged,
        w,
        hv.layout,
        bi,
    ) by {
        assert forall|i: int| 0 <= i < hv.layout.block * hv.layout.block implies #[trigger] block_cell(
            clean,
            w,
            hv.layout,
            bi,
            i,
        ) == block_cell(damaged, w, hv.layout, bi, i) by {
            assert(block_cell(damaged, w, hv.layout, bi, i) == block_cell(clean, w, hv.layout, bi, i));
        }
    }
}

/// Sampling cell centres of a bitmap drawn one pixel per cell reads the
/// bitmap itself.
proof fn lemma_sampled_at_one(data: Seq<u8>, w: int, h: int)
    requires
        data.len() == w * h,
        w >= 1,
        h >= 1,
    ensures
        sampled_cells(data, w, 1, w, h) == data,
{
    assert forall|k: int| 0 <= k < w * h implies #[trigger] sampled_cells(data, w, 1, w, h)[k] == data[k] by {
        vstd::arithmetic::div_mod::lemma_fundamental_div_mod(k, w);
        assert((k / w) * 1 + 1int / 2 == k / w);
        assert((k % w) * 1 + 1int / 2 == k % w);
        assert((k / w) * w + k % w == k) by (nonlinear_arith)
            requires
                k == w * (k / w) + k % w,
        ;
    }
    assert(sampled_cells(data, w, 1, w, h) =~= data);
}

/// Header cell `i` of a grid `w` wide lies in rows 1 to 5, between the
/// corner markers, at row-major index `r * w + c`.
proof fn lemma_header_cell_index(w: int, h: int, i: int)
    requires
        w >= 2 * CORNER + 1,
        h >= 2 * STRIP_H + 1,
        0 <= i < header_cell_count(w),
    ensures
        ({
            let (r, c) = spec_header_cell(w, i);
            &&& 1 <= r < STRIP_H
            &&& CORNER <= c < w - CORNER
            &&& (r - 1) * (w - 2 * CORNER) + (c - CORNER) == i
            &&& 0 <= r * w + c < w * h
            &&& (r * w + c) / w == r
            &&& (r * w + c) % w == c
        }),
{
    let span = w - 2 * CORNER;
    assert(header_cell_count(w) == span * (STRIP_H - 1)) by (nonlinear_arith)
        requires
            span == w - 2 * CORNER,
    ;
    lemma_div_below(i, span, (STRIP_H - 1) as int);
    let (r, c) = spec_header_cell(w, i);
    assert((r - 1) * span + (c - CORNER) == i) by {
        vstd::arithmetic::div_mod::lemma_fundamental_div_mod(i, span);
        assert(span * (i / span) == (i / span) * span) by (nonlinear_arith);
    }
    lemma_div_mod_parts(r, w, c);
    lemma_grid_index(r, c, h, w);
    assert(h * w == w * h) by (nonlinear_arith);
}

/// Cell `i` of block `bi` of a frame's grid lies in the block rows, at
/// row-major index `r * w + c`.
proof fn lemma_block_cell_index(w: int, h: int, l: Layout, bi: int, i: int)
    requires
        l.spec_width() == w,
        l.spec_height() == h,
        l.block > 0,
        0 <= bi < l.spec_block_count(),
        0 <= i < l.block * l.block,
    ensures
        ({
            let o = l.spec_block_origin(bi);
            let r = o.0 + i / l.block as int;
            let c = o.1 + i % l.block as int;
            &&& STRIP_H <= r < h - STRIP_H
            &&& 0 <= c < w
            &&& 0 <= r * w + c < w * h
            &&& (r * w + c) / w == r
            &&& (r * w + c) % w == c
        }),
{
    let b = l.block as int;
    let gw = l.grid_w as int;
    let gh = l.grid_h as int;
    assert(gw > 0) by (nonlinear_arith)
        requires
            0 <= bi < gw * gh,
            gw >= 0,
            gh >= 0,
    ;
    lemma_div_below(bi, gw, gh);
    assert(gw * gh == gh * gw) by (nonlinear_arith);
    lemma_div_below(i, b, b);
    let o = l.spec_block_origin(bi);
    let r = o.0 + i / b;
    let c = o.1 + i % b;
    assert(r < h - STRIP_H) by (nonlinear_arith)
        requires
            r == STRIP_H + (bi / gw) * b + i / b,
            bi / gw < gh,
            i / b < b,
            h == gh * b + 2 * STRIP_H,
            b > 0,
    ;
    assert(r >= STRIP_H) by (nonlinear_arith)
        requires
            r == STRIP_H + (bi / gw) * b + i / b,
            bi / gw >= 0,
            i / b >= 0,
            b > 0,
    ;
    assert(0 <= c < w) by (nonlinear_arith)
        requires
            c == (bi % gw) * b + i % b,
            0 <= bi % gw < gw,
            0 <= i % b < b,
            w == gw * b,
    ;
    lemma_div_mod_parts(r, w, c);
    lemma_grid_index(r, c, h, w);
    assert(h * w == w * h) by (nonlinear_arith);
}

/// Two grids that agree on the block rows give the same bits in every
/// block.
proof fn lemma_blocks_agree(a: Seq<u8>, b: Seq<u8>, w: int, h: int, l: Layout, bpc: u8)
    requires
        l.spec_width() == w,
        l.spec_height() == h,
        l.block > 0,
        bpc == 1 || bpc == 2,
        forall|k: int|
            0 <= k < w * h && STRIP_H <= k / w < h - STRIP_H ==> #[trigger] a[k] == b[k],
    ensures
        forall|bi: int|
            0 <= bi < l.spec_block_count() ==> #[trigger] block_bits(a, w, l, bpc, bi) == block_bits(
                b,
                w,
                l,
                bpc,
                bi,
            ),
{
    assert forall|bi: int| 0 <= bi < l.spec_block_count() implies #[trigger] block_bits(
        a,
        w,
        l,
        bpc,
        bi,
    ) == block_bits(b, w, l, bpc, bi) by {
        assert forall|i: int| 0 <= i < l.block * l.block implies #[trigger] block_cell(
            a,
            w,
            l,
            bi,
            i,
        ) == block_cell(b, w, l, bi, i) by {
            lemma_block_cell_index(w, h, l, bi, i);
        }
        let ba = block_bits(a, w, l, bpc, bi);
        let bb = block_bits(b, w, l, bpc, bi);
        assert forall|j: int| 0 <= j < ba.len() implies ba[j] == bb[j] by {
            if bpc == 2 {
                assert(0 <= j / 2 < l.block * l.block) by (nonlinear_arith)
                    requires
                        0 <= j < 2 * l.block * l.block,
                ;
            }
        }
        assert(ba =~= bb);
    }
}

/// Two grids read the same when they get the same corner verdict, the same
/// header, and, for that header's grid, the same bits in every block.
proof fn lemma_same_reading(a: Seq<u8>, b: Seq<u8>, w: int, h: int)
    requires
        spec_corner_match_ok(count_true(corner_hits(a, w, h)) as int, corner_cell_total())
            == spec_corner_match_ok(count_true(corner_hits(b, w, h)) as int, corner_cell_total()),
        first_header(header_area_bits(a, w)) == first_header(header_area_bits(b, w)),
        first_header(header_area_bits(a, w)) matches Some(hv) ==> forall|bi: int|
            0 <= bi < hv.layout.spec_block_count() ==> #[trigger] block_bits(
                a,
                w,
                hv.layout,
                hv.bits_per_cell,
                bi,
            ) == block_bits(b, w, hv.layout, hv.bits_per_cell, bi),
    ensures
        decode_cells_spec(a, w, h) == decode_cells_spec(b, w, h),
{
    match first_header(header_area_bits(a, w)) {
        Some(hv) => {
            let ra = decode_cells_spec(a, w, h);
            let rb = decode_cells_spec(b, w, h);
            if ra is Ok {
                assert(ra->Ok_0.blocks =~= rb->Ok_0.blocks);
            }
        },
        None => {},
    }
}

/// Whether cell (r, c) of a `w` x `h` grid belongs to a corner marker.
pub open spec fn in_corner_marker(w: int, h: int, r: int, c: int) -> bool {
    (r < CORNER || r >= h - CORNER) && (c < CORNER || c >= w - CORNER)
}

/// Whether two `w` x `h` grids agree on every cell outside the corner
/// markers.
pub open spec fn agree_outside_corners(a: Seq<u8>, b: Seq<u8>, w: int, h: int) -> bool {
    forall|k: int|
        0 <= k < w * h && !in_corner_marker(w, h, k / w, k % w) ==> #[trigger] a[k] == b[k]
}

/// A rendered frame drawn one pixel per cell whose corner markers are
/// damaged, and nothing else, still reads as drawn as long as at least 17 of
/// every 20 corner cells match their patterns.
pub proof fn lemma_corner_damage_tolerated(hv: FrameHeaderView, blocks: Seq<Seq<u8>>, damaged: Seq<u8>)
    requires
        frame_drawable(hv, blocks, 1),
        header_encodable(hv),
        hv.layout.grid_h > 0,
        hv.layout.spec_block_bytes(hv.bits_per_cell) >= 4,
        damaged.len() == hv.layout.spec_width() * hv.layout.spec_height(),
        agree_outside_corners(
            damaged,
            encoded_pixels(hv, blocks, 1),
            hv.layout.spec_width(),
            hv.layout.spec_height(),
        ),
        20 * count_true(corner_hits(damaged, hv.layout.spec_width(), hv.layout.spec_height()))
            >= 17 * corner_cell_total(),
    ensures
        decode_bitmap_spec(damaged, hv.layout.spec_width(), hv.layout.spec_height(), 1) == Ok::<
            crate::frame::DecodedFrameView,
            crate::frame::FrameError,
        >(expected_frame(hv, blocks)),
{
    let w = hv.layout.spec_width();
    let h = hv.layout.spec_height();
    let l = hv.layout;
    let clean = encoded_pixels(hv, blocks, 1);
    lemma_frame_roundtrip(hv, blocks, 1);
    assert(w * 1 == w && h * 1 == h);
    assert(w % 1 == 0 && h % 1 == 0);
    assert(w / 1 == w && h / 1 == h);
    assert(clean.len() == w * h);
    lemma_sampled_at_one(clean, w, h);
    lemma_sampled_at_one(damaged, w, h);
    assert(w >= 2 * CORNER + 1 && h >= 2 * STRIP_H + 1 && l.block > 0) by {
        assert(l.block > 0) by (nonlinear_arith)
            requires
                l.grid_w * l.block == w,
                w > 2 * CORNER,
        ;
        assert(h >= 2 * STRIP_H + 1) by (nonlinear_arith)
            requires
                h == l.grid_h * l.block + 2 * STRIP_H,
                l.grid_h > 0,
                l.block > 0,
        ;
    }
    // The corners still pass, as they do on the clean frame.
    lemma_corner_tolerance(count_true(corner_hits(damaged, w, h)) as int, corner_cell_total());
    lemma_corner_tolerance(count_true(corner_hits(clean, w, h)) as int, corner_cell_total());
    // The header area is left alone.
    assert forall|i: int| 0 <= i < header_cell_count(w) implies #[trigger] header_area_bits(
        damaged,
        w,
    )[i] == header_area_bits(clean, w)[i] by {
        lemma_header_cell_index(w, h, i);
    }
    assert(header_area_bits(damaged, w) =~= header_area_bits(clean, w));
    // So are the blocks.
    assert forall|k: int|
        0 <= k < w * h && STRIP_H <= k / w < h - STRIP_H implies #[trigger] damaged[k] == clean[k] by {}
    lemma_blocks_agree(damaged, clean, w, h, l, hv.bits_per_cell);
    lemma_same_reading(damaged, clean, w, h);
}

/// Whether cell (r, c) of a grid `w` wide belongs to the first header copy.
pub open spec fn in_first_header_copy(w: int, r: int, c: int) -> bool {
    &&& 1 <= r < STRIP_H
    &&& CORNER <= c < w - CORNER
    &&& (r - 1) * (w - 2 * CORNER) + (c - CORNER) < header_bits_len()
}

/// Whether two `w` x `h` grids agree on every cell outside the first header
/// copy.
pub open spec fn agree_outside_first_header_copy(a: Seq<u8>, b: Seq<u8>, w: int, h: int) -> bool {
    forall|k: int|
        0 <= k < w * h && !in_first_header_copy(w, k / w, k % w) ==> #[trigger] a[k] == b[k]
}

/// The size of a frame the format can draw.
proof fn lemma_frame_shape(hv: FrameHeaderView)
    requires
        hv.layout.spec_width() > 2 * CORNER,
        hv.layout.grid_h > 0,
    ensures
        hv.layout.spec_width() >= 2 * CORNER + 1,
        hv.layout.spec_height() >= 2 * STRIP_H + 1,
        hv.layout.block > 0,
{
    let l = hv.layout;
    assert(l.block > 0) by (nonlinear_arith)
        requires
            l.grid_w * l.block == l.spec_width(),
            l.spec_width() > 2 * CORNER,
    ;
    assert(l.spec_height() >= 2 * STRIP_H + 1) by (nonlinear_arith)
        requires
            l.spec_height() == l.grid_h * l.block + 2 * STRIP_H,
            l.grid_h > 0,
            l.block > 0,
    ;
}

/// Two grids that agree on the corner markers see the same corner cells
/// match.
proof fn lemma_corner_cells_agree(a: Seq<u8>, b: Seq<u8>, w: int, h: int)
    requires
        w >= 2 * CORNER + 1,
        h >= 2 * STRIP_H + 1,
        forall|k: int|
            0 <= k < w * h && in_corner_marker(w, h, k / w, k % w) ==> #[trigger] a[k] == b[k],
    ensures
        corner_hits(a, w, h) == corner_hits(b, w, h),
{
    assert forall|k: int| 0 <= k < corner_cell_total() implies #[trigger] corner_hits(a, w, h)[k]
        == corner_hits(b, w, h)[k] by {
        let q = k / (CORNER * CORNER) as int;
        let rr = (k % (CORNER * CORNER) as int) / CORNER as int;
        let cc = k % CORNER as int;
        lemma_div_below(k, (CORNER * CORNER) as int, 4);
        lemma_div_below(k % (CORNER * CORNER) as int, CORNER as int, CORNER as int);
        let o = spec_corner_origin(w, h, q);
        let r = o.1 + rr;
        let c = o.2 + cc;
        lemma_div_mod_parts(r, w, c);
        lemma_grid_index(r, c, h, w);
        assert(h * w == w * h) by (nonlinear_arith);
        assert(a[r * w + c] == b[r * w + c]);
        assert(corner_hit(a, w, h, k) == corner_hit(b, w, h, k));
    }
    assert(corner_hits(a, w, h) =~= corner_hits(b, w, h));
}

/// Two grids that agree outside the first header copy read the same bits
/// from the rest of the header area.
proof fn lemma_header_area_past_first_copy(a: Seq<u8>, b: Seq<u8>, w: int, h: int)
    requires
        w >= 2 * CORNER + 1,
        h >= 2 * STRIP_H + 1,
        agree_outside_first_header_copy(a, b, w, h),
    ensures
        forall|i: int|
            header_bits_len() <= i < header_cell_count(w) ==> #[trigger] header_area_bits(a, w)[i]
                == header_area_bits(b, w)[i],
{
    assert forall|i: int| header_bits_len() <= i < header_cell_count(w) implies #[trigger] header_area_bits(
        a,
        w,
    )[i] == header_area_bits(b, w)[i] by {
        lemma_header_cell_index(w, h, i);
        let (r, c) = spec_header_cell(w, i);
        assert(!in_first_header_copy(w, r, c));
        assert(a[r * w + c] == b[r * w + c]);
    }
}

/// Header-area bits that hold the header in their first two copies, and
/// bits that agree with them past the first copy but fail there, both read
/// as that header.
proof fn lemma_header_from_copy_one(hd: Seq<bool>, hc: Seq<bool>, hv: FrameHeaderView)
    requires
        header_encodable(hv),
        hd.len() == hc.len(),
        2 * header_bits_len() <= hc.len(),
        forall|i: int| header_bits_len() <= i < hc.len() ==> #[trigger] hd[i] == hc[i],
        hc.subrange(0, header_bits_len()) == bytes_to_bits(header_bytes(hv)),
        hc.subrange(header_bits_len(), 2 * header_bits_len()) == bytes_to_bits(header_bytes(hv)),
        header_copy(hd, 0) is None,
    ensures
        first_header(hd) == Some(hv),
        first_header(hc) == Some(hv),
{
    let hb = header_bits_len();
    assert(hd.subrange(1 * hb, 2 * hb) =~= hc.subrange(hb, 2 * hb));
    assert(hc.subrange(0 * hb, 1 * hb) =~= hc.subrange(0, hb));
    lemma_bits_bytes_roundtrip(header_bytes(hv));
    lemma_header_roundtrip(hv);
    assert(header_copy(hd, 1) == Some(hv));
    assert(header_copy(hc, 0) == Some(hv));
    assert((hd.len() as int) / hb >= 2) by {
        vstd::arithmetic::div_mod::lemma_div_is_ordered(2 * hb, hd.len() as int, hb);
        vstd::arithmetic::div_mod::lemma_div_by_multiple(2, hb);
    }
    lemma_first_header_is_first_valid_copy(hd);
    lemma_first_header_is_first_valid_copy(hc);
}

/// A rendered frame damaged only in its first header copy, which then
/// fails its CRC, still shows its header in its second copy, and the clean
/// frame shows it in its first.
proof fn lemma_header_from_second_copy(hv: FrameHeaderView, blocks: Seq<Seq<u8>>, damaged: Seq<u8>)
    requires
        frame_drawable(hv, blocks, 1),
        header_encodable(hv),
        hv.layout.grid_h > 0,
        header_copies(hv.layout.spec_width()) >= 2,
        damaged.len() == hv.layout.spec_width() * hv.layout.spec_height(),
        agree_outside_first_header_copy(
            damaged,
            encoded_pixels(hv, blocks, 1),
            hv.layout.spec_width(),
            hv.layout.spec_height(),
        ),
        header_copy(header_area_bits(damaged, hv.layout.spec_width()), 0) is None,
    ensures
        first_header(header_area_bits(damaged, hv.layout.spec_width())) == Some(hv),
        first_header(header_area_bits(encoded_pixels(hv, blocks, 1), hv.layout.spec_width())) == Some(
            hv,
        ),
{
    let w = hv.layout.spec_width();
    let h = hv.layout.spec_height();
    let hb = header_bits_len();
    let clean = encoded_pixels(hv, blocks, 1);
    lemma_frame_shape(hv);
    lemma_sampled_at_one(clean, w, h);
    assert(w * 1 == w);
    let hd = header_area_bits(damaged, w);
    let hc = header_area_bits(clean, w);
    lemma_header_area_past_first_copy(damaged, clean, w, h);
    assert(2 * hb <= header_cell_count(w)) by {
        vstd::arithmetic::div_mod::lemma_fundamental_div_mod(header_cell_count(w), hb);
        vstd::arithmetic::div_mod::lemma_mod_pos_bound(header_cell_count(w), hb);
        assert(hb * header_copies(w) >= hb * 2) by (nonlinear_arith)
            requires
                header_copies(w) >= 2,
                hb > 0,
        ;
    }
    lemma_every_header_copy(hv, blocks, 1, 1);
    lemma_every_header_copy(hv, blocks, 1, 0);
    assert(hc.subrange(0 * hb, 1 * hb) =~= hc.subrange(0, hb));
    assert(hc.subrange(1 * hb, 2 * hb) =~= hc.subrange(hb, 2 * hb));
    lemma_header_from_copy_one(hd, hc, hv);
}

/// A rendered frame drawn one pixel per cell, whose header area holds two
/// copies or more, still reads as drawn when its first header copy is
/// damaged (and nothing else) so that it fails its CRC: the header comes
/// from the next copy.
pub proof fn lemma_first_copy_damage_tolerated(hv: FrameHeaderView, blocks: Seq<Seq<u8>>, damaged: Seq<u8>)
    requires
        frame_drawable(hv, blocks, 1),
        header_encodable(hv),
        hv.layout.grid_h > 0,
        hv.layout.spec_block_bytes(hv.bits_per_cell) >= 4,
        header_copies(hv.layout.spec_width()) >= 2,
        damaged.len() == hv.layout.spec_width() * hv.layout.spec_height(),
        agree_outside_first_header_copy(
            damaged,
            encoded_pixels(hv, blocks, 1),
            hv.layout.spec_width(),
            hv.layout.spec_height(),
        ),
        header_copy(header_area_bits(damaged, hv.layout.spec_width()), 0) is None,
    ensures
        decode_bitmap_spec(damaged, hv.layout.spec_width(), hv.layout.spec_height(), 1) == Ok::<
            crate::frame::DecodedFrameView,
            crate::frame::FrameError,
        >(expected_frame(hv, blocks)),
{
    let w = hv.layout.spec_width();
    let h = hv.layout.spec_height();
    let l = hv.layout;
    let clean = encoded_pixels(hv, blocks, 1);
    lemma_frame_roundtrip(hv, blocks, 1);
    assert(w * 1 == w && h * 1 == h);
    assert(w % 1 == 0 && h % 1 == 0);
    assert(w / 1 == w && h / 1 == h);
    assert(clean.len() == w * h);
    lemma_sampled_at_one(clean, w, h);
    lemma_sampled_at_one(damaged, w, h);
    lemma_frame_shape(hv);
    // The corner markers are left alone.
    assert forall|k: int|
        0 <= k < w * h && in_corner_marker(w, h, k / w, k % w) implies #[trigger] damaged[k]
        == clean[k] by {}
    lemma_corner_cells_agree(damaged, clean, w, h);
    // The header comes from the second copy.
    lemma_header_from_second_copy(hv, blocks, damaged);
    // The blocks are left alone.
    assert forall|k: int|
        0 <= k < w * h && STRIP_H <= k / w < h - STRIP_H implies #[trigger] damaged[k] == clean[k] by {}
    lemma_blocks_agree(damaged, clean, w, h, l, hv.bits_per_cell);
    lemma_same_reading(damaged, clean, w, h);
}

} // verus!
