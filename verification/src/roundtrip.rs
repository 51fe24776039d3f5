//! The frame format's central promise: reading back a rendered frame gives
//! the header and every block payload it was drawn with.

use vstd::prelude::*;
use crate::arith::{lemma_centre_in_cell, lemma_div_below, lemma_div_mod_parts, lemma_grid_index};
use crate::bits::{
    be32, bits_to_bytes_spec, bytes_to_bits, lemma_be32_roundtrip, lemma_bits_bytes_roundtrip,
};
use crate::crc::spec_crc32;
use crate::frame::{
    bit_value, block_bits, block_cell, block_content, cell_black, corner_at,
    corner_cell_total, corner_hit, corner_hits, count_true, data_cell, decode_bitmap_spec,
    decode_cells_spec, first_header, frame_cell, frame_drawable, frame_pixel, header_area_bits,
    header_bits_len, header_copies, recovered_block, sampled_cells, spec_corner_match_ok,
    DecodedFrameView,
};
use crate::header::{header_bytes, header_encodable, lemma_header_roundtrip, FrameHeaderView};
use crate::layout::{CORNER, STRIP_H};
use crate::pattern::{
    header_cell_count, lemma_level_roundtrip, spec_corner_origin, spec_header_cell,
    spec_level_gray, Corner,
};
use crate::scan::{corner_cell_count, known_cell, known_cell_count, strip_span};

verus! {

/// The pixels `encode_frame` draws for header `hv` and payloads `blocks`.
pub open spec fn encoded_pixels(hv: FrameHeaderView, blocks: Seq<Seq<u8>>, scale: int) -> Seq<u8> {
    let pw = hv.layout.spec_width() * scale;
    let ph = hv.layout.spec_height() * scale;
    Seq::new((pw * ph) as nat, |p: int| frame_pixel(hv, blocks, scale, p))
}

/// What a filler block (all zero bytes) reads as.
pub open spec fn filler_block(block_bytes: int, payload_len: int) -> Option<Seq<u8>> {
    recovered_block(Seq::new(block_bytes as nat, |j: int| 0u8), payload_len)
}

/// What reading back a rendered frame is promised to give: the header, and
/// for every block the payload it was given (or what a filler reads as).
pub open spec fn expected_frame(hv: FrameHeaderView, blocks: Seq<Seq<u8>>) -> DecodedFrameView {
    let l = hv.layout;
    let bpc = hv.bits_per_cell;
    DecodedFrameView {
        header: hv,
        blocks: Seq::new(
            l.spec_block_count() as nat,
            |bi: int|
                if bi < blocks.len() {
                    Some(blocks[bi])
                } else {
                    filler_block(l.spec_block_bytes(bpc), l.spec_block_payload_len(bpc))
                },
        ),
    }
}

/// The cell sampled at the centre of cell (r, c) of a rendered frame is that
/// cell's value.
proof fn lemma_cell_of(hv: FrameHeaderView, blocks: Seq<Seq<u8>>, scale: int, r: int, c: int)
    requires
        scale >= 1,
        0 <= r < hv.layout.spec_height(),
        0 <= c < hv.layout.spec_width(),
    ensures
        sampled_cells(
            encoded_pixels(hv, blocks, scale),
            hv.layout.spec_width() * scale,
            scale,
            hv.layout.spec_width(),
            hv.layout.spec_height(),
        )[r * hv.layout.spec_width() + c] == frame_cell(hv, blocks, r, c),
        0 <= r * hv.layout.spec_width() + c < hv.layout.spec_width() * hv.layout.spec_height(),
{
    let w = hv.layout.spec_width();
    let hh = hv.layout.spec_height();
    let pw = w * scale;
    let ph = hh * scale;
    let k = r * w + c;
    lemma_div_mod_parts(r, w, c);
    lemma_grid_index(r, c, hh, w);
    assert(hh * w == w * hh) by (nonlinear_arith);
    let y = r * scale + scale / 2;
    let x = c * scale + scale / 2;
    lemma_centre_in_cell(r, scale);
    lemma_centre_in_cell(c, scale);
    assert((r + 1) * scale <= hh * scale) by (nonlinear_arith)
        requires
            r + 1 <= hh,
            scale >= 1,
    ;
    assert((c + 1) * scale <= w * scale) by (nonlinear_arith)
        requires
            c + 1 <= w,
            scale >= 1,
    ;
    lemma_div_mod_parts(y, pw, x);
    lemma_grid_index(y, x, ph, pw);
    assert(ph * pw == pw * ph) by (nonlinear_arith);
    let p = y * pw + x;
    assert(p / pw == y && p % pw == x);
    assert(encoded_pixels(hv, blocks, scale)[p] == frame_pixel(hv, blocks, scale, p));
}

/// Every cell of a corner marker of a rendered frame reads as its pattern.
proof fn lemma_corner_hits(hv: FrameHeaderView, blocks: Seq<Seq<u8>>, scale: int)
    requires
        scale >= 1,
        hv.layout.spec_width() >= 2 * CORNER,
        hv.layout.spec_height() >= 2 * CORNER,
    ensures
        forall|k: int|
            0 <= k < corner_cell_total() ==> #[trigger] corner_hits(
                sampled_cells(
                    encoded_pixels(hv, blocks, scale),
                    hv.layout.spec_width() * scale,
                    scale,
                    hv.layout.spec_width(),
                    hv.layout.spec_height(),
                ),
                hv.layout.spec_width(),
                hv.layout.spec_height(),
            )[k],
{
    let w = hv.layout.spec_width();
    let hh = hv.layout.spec_height();
    let cells = sampled_cells(encoded_pixels(hv, blocks, scale), w * scale, scale, w, hh);
    assert forall|k: int| 0 <= k < corner_cell_total() implies #[trigger] corner_hits(
        cells,
        w,
        hh,
    )[k] by {
        let q = k / (CORNER * CORNER) as int;
        let rr = (k % (CORNER * CORNER) as int) / CORNER as int;
        let cc = k % CORNER as int;
        lemma_div_below(k, (CORNER * CORNER) as int, 4);
        lemma_div_below(k % (CORNER * CORNER) as int, CORNER as int, CORNER as int);
        let o = spec_corner_origin(w, hh, q);
        let r = o.1 + rr;
        let c = o.2 + cc;
        lemma_cell_of(hv, blocks, scale, r, c);
        assert(corner_at(w, hh, r, c) == Some((o.0, rr, cc)));
        assert(corner_hit(cells, w, hh, k));
    }
}

/// Every cell whose colour a receiver knows before reading any header (the
/// corner markers, and the calibration cells of the top row and of the
/// bottom strip, as `scan::known_cells` lists them) has that colour in every
/// rendered frame of that grid.
pub proof fn lemma_known_cells_drawn(hv: FrameHeaderView, blocks: Seq<Seq<u8>>, scale: int, k: int)
    requires
        scale >= 1,
        hv.layout.spec_width() >= 2 * CORNER,
        hv.layout.spec_height() >= 2 * STRIP_H,
        0 <= k < known_cell_count(hv.layout.spec_width()),
    ensures
        ({
            let w = hv.layout.spec_width();
            let hh = hv.layout.spec_height();
            let cell = known_cell(w, hh, k);
            let cells = sampled_cells(encoded_pixels(hv, blocks, scale), w * scale, scale, w, hh);
            &&& 0 <= cell.0 < hh
            &&& 0 <= cell.1 < w
            &&& cell_black(cells[cell.0 * w + cell.1]) == cell.2
        }),
{
    let w = hv.layout.spec_width();
    let hh = hv.layout.spec_height();
    let span = strip_span(w);
    assert(span == w - 2 * CORNER);
    let cell = known_cell(w, hh, k);
    if k < corner_cell_count() {
        let q = k / (CORNER * CORNER) as int;
        let rr = (k % (CORNER * CORNER) as int) / CORNER as int;
        let cc = k % CORNER as int;
        lemma_div_below(k, (CORNER * CORNER) as int, 4);
        lemma_div_below(k % (CORNER * CORNER) as int, CORNER as int, CORNER as int);
        let o = spec_corner_origin(w, hh, q);
        let r = o.1 + rr;
        let c = o.2 + cc;
        assert(cell == (r, c, crate::pattern::spec_corner_black(o.0, rr, cc)));
        lemma_cell_of(hv, blocks, scale, r, c);
        assert(corner_at(w, hh, r, c) == Some((o.0, rr, cc)));
    } else if k < corner_cell_count() + span {
        let c = CORNER + (k - corner_cell_count());
        assert(cell == (0int, c, crate::pattern::spec_calib_black(0, c)));
        lemma_cell_of(hv, blocks, scale, 0, c);
        assert(corner_at(w, hh, 0, c) is None);
    } else {
        let j = k - corner_cell_count() - span;
        assert(known_cell_count(w) == corner_cell_count() + span + span * STRIP_H) by (
        nonlinear_arith)
            requires
                known_cell_count(w) == corner_cell_count() + (1 + STRIP_H) * span,
        ;
        lemma_div_below(j, span, STRIP_H as int);
        let r = hh - STRIP_H + j / span;
        let c = CORNER + j % span;
        assert(cell == (r, c, crate::pattern::spec_calib_black(r, c)));
        lemma_cell_of(hv, blocks, scale, r, c);
        assert(corner_at(w, hh, r, c) is None);
    }
}

proof fn lemma_count_all_true(s: Seq<bool>)
    requires
        forall|i: int| 0 <= i < s.len() ==> #[trigger] s[i],
    ensures
        count_true(s) == s.len(),
    decreases s.len(),
{
    if s.len() > 0 {
        lemma_count_all_true(s.drop_last());
    }
}

/// Every whole header copy of a rendered frame (as many as fit the header
/// area) reads as the header's bits, so a frame with one copy smudged still
/// carries its header in the others.
pub proof fn lemma_every_header_copy(hv: FrameHeaderView, blocks: Seq<Seq<u8>>, scale: int, k: int)
    requires
        scale >= 1,
        hv.layout.spec_width() > 2 * CORNER,
        hv.layout.spec_height() >= 2 * CORNER,
        0 <= k < header_copies(hv.layout.spec_width()),
        hv.oti.len() == 12,
    ensures
        ({
            let w = hv.layout.spec_width();
            let cells = sampled_cells(
                encoded_pixels(hv, blocks, scale),
                w * scale,
                scale,
                w,
                hv.layout.spec_height(),
            );
            header_area_bits(cells, w).subrange(k * header_bits_len(), (k + 1) * header_bits_len())
                == bytes_to_bits(header_bytes(hv))
        }),
{
    let w = hv.layout.spec_width();
    let hh = hv.layout.spec_height();
    let span = w - 2 * CORNER;
    let hb = header_bits_len();
    let cells = sampled_cells(encoded_pixels(hv, blocks, scale), w * scale, scale, w, hh);
    let bits = header_area_bits(cells, w);
    assert((k + 1) * hb <= header_copies(w) * hb) by (nonlinear_arith)
        requires
            k + 1 <= header_copies(w),
            hb > 0,
    ;
    assert(header_copies(w) * hb <= header_cell_count(w)) by {
        vstd::arithmetic::div_mod::lemma_fundamental_div_mod(header_cell_count(w), hb);
        vstd::arithmetic::div_mod::lemma_mod_pos_bound(header_cell_count(w), hb);
        assert(hb * header_copies(w) == header_copies(w) * hb) by (nonlinear_arith);
    }
    assert(k * hb >= 0) by (nonlinear_arith)
        requires
            k >= 0,
            hb > 0,
    ;
    assert(bytes_to_bits(header_bytes(hv)).len() == hb);
    assert forall|j: int|
        0 <= j < hb implies #[trigger] bits.subrange(k * hb, (k + 1) * hb)[j] == bytes_to_bits(
        header_bytes(hv),
    )[j] by {
        let i = k * hb + j;
        assert(i < (k + 1) * hb) by (nonlinear_arith)
            requires
                i == k * hb + j,
                j < hb,
        ;
        assert(header_cell_count(w) == span * (STRIP_H - 1)) by (nonlinear_arith)
            requires
                span == w - 2 * CORNER,
        ;
        lemma_div_below(i, span, (STRIP_H - 1) as int);
        let r = 1 + i / span;
        let c = CORNER + i % span;
        assert(spec_header_cell(w, i) == (r, c));
        lemma_cell_of(hv, blocks, scale, r, c);
        assert(corner_at(w, hh, r, c) is None);
        assert((r - 1) * span + (c - CORNER) == i) by {
            vstd::arithmetic::div_mod::lemma_fundamental_div_mod(i, span);
            assert(span * (i / span) == (i / span) * span) by (nonlinear_arith);
        }
        lemma_div_mod_parts(k, hb, j);
        assert(bits[i] == bytes_to_bits(header_bytes(hv))[j]);
    }
    assert(bits.subrange(k * hb, (k + 1) * hb) =~= bytes_to_bits(header_bytes(hv)));
}

/// Block `bi` of a rendered frame reads as the bits of what it carries.
proof fn lemma_block_bits(hv: FrameHeaderView, blocks: Seq<Seq<u8>>, scale: int, bi: int)
    requires
        frame_drawable(hv, blocks, scale),
        0 <= bi < hv.layout.spec_block_count(),
    ensures
        ({
            let l = hv.layout;
            let w = l.spec_width();
            let cells = sampled_cells(
                encoded_pixels(hv, blocks, scale),
                w * scale,
                scale,
                w,
                l.spec_height(),
            );
            block_bits(cells, w, l, hv.bits_per_cell, bi) == bytes_to_bits(
                block_content(blocks, bi, l.spec_block_bytes(hv.bits_per_cell)),
            )
        }),
{
    let l = hv.layout;
    let bpc = hv.bits_per_cell;
    let w = l.spec_width();
    let hh = l.spec_height();
    let b = l.block as int;
    let gw = l.grid_w as int;
    let gh = l.grid_h as int;
    let cells = sampled_cells(encoded_pixels(hv, blocks, scale), w * scale, scale, w, hh);
    let bb = l.spec_block_bytes(bpc);
    let content = block_content(blocks, bi, bb);
    let cbits = bytes_to_bits(content);
    let got = block_bits(cells, w, l, bpc, bi);
    assert(b > 0 && gw > 0) by (nonlinear_arith)
        requires
            gw * b == w,
            w > 2 * CORNER,
            b >= 0,
            gw >= 0,
    ;
    assert(gh > 0) by (nonlinear_arith)
        requires
            bi < gw * gh,
            bi >= 0,
            gw > 0,
    ;
    assert(8 * bb == b * b * bpc) by (nonlinear_arith)
        requires
            bb == b * b * bpc / 8,
            (b * b * bpc) % 8 == 0,
    ;
    if bi < blocks.len() {
        assert(blocks[bi].len() == l.spec_block_payload_len(bpc));
    }
    assert(content.len() == bb);
    assert(gw * gh == gh * gw) by (nonlinear_arith);
    lemma_div_below(bi, gw, gh);
    let by = bi / gw;
    let bx = bi % gw;
    assert(got.len() == cbits.len()) by (nonlinear_arith)
        requires
            bpc == 1 ==> got.len() == b * b,
            bpc == 2 ==> got.len() == 2 * b * b,
            bpc == 1 || bpc == 2,
            cbits.len() == 8 * bb,
            8 * bb == b * b * bpc,
    ;
    assert forall|j: int| 0 <= j < got.len() implies #[trigger] got[j] == cbits[j] by {
        let i = if bpc == 1 {
            j
        } else {
            j / 2
        };
        assert(0 <= i < b * b) by (nonlinear_arith)
            requires
                0 <= j,
                bpc == 1 ==> j < b * b && i == j,
                bpc == 2 ==> j < 2 * b * b && i == j / 2,
                bpc == 1 || bpc == 2,
        ;
        lemma_div_below(i, b, b);
        let r = STRIP_H + by * b + i / b;
        let c = bx * b + i % b;
        lemma_grid_index(by, i / b, gh, b);
        lemma_grid_index(bx, i % b, gw, b);
        assert(0 <= by * b && 0 <= bx * b) by (nonlinear_arith)
            requires
                by >= 0,
                bx >= 0,
                b > 0,
        ;
        lemma_cell_of(hv, blocks, scale, r, c);
        assert(corner_at(w, hh, r, c) is None);
        lemma_div_mod_parts(by, b, i / b);
        lemma_div_mod_parts(bx, b, i % b);
        vstd::arithmetic::div_mod::lemma_fundamental_div_mod(i, b);
        assert((i / b) * b + i % b == i) by (nonlinear_arith)
            requires
                i == b * (i / b) + i % b,
        ;
        vstd::arithmetic::div_mod::lemma_fundamental_div_mod(bi, gw);
        assert(by * gw + bx == bi) by (nonlinear_arith)
            requires
                by == bi / gw,
                bx == bi % gw,
                bi == gw * (bi / gw) + bi % gw,
        ;
        assert(frame_cell(hv, blocks, r, c) == data_cell(hv, blocks, r, c));
        assert(block_cell(cells, w, l, bi, i) == cells[r * w + c]);
        if bpc == 1 {
            assert(got[j] == cell_black(block_cell(cells, w, l, bi, j)));
        } else {
            assert(j / 2 == i);
            let b0 = cbits[2 * i];
            let b1 = cbits[2 * i + 1];
            let lv = (2 * bit_value(b0) + bit_value(b1)) as u8;
            assert(lv < 4);
            lemma_level_roundtrip(lv);
            assert(block_cell(cells, w, l, bi, i) == spec_level_gray(lv));
            assert((3u8 & 2u8) != 0u8 && (3u8 & 1u8) != 0u8 && (2u8 & 2u8) != 0u8 && (2u8 & 1u8)
                == 0u8 && (1u8 & 2u8) == 0u8 && (1u8 & 1u8) != 0u8 && (0u8 & 2u8) == 0u8 && (0u8
                & 1u8) == 0u8) by (bit_vector);
            assert((j % 2 == 0 ==> j == 2 * i) && (j % 2 != 0 ==> j == 2 * i + 1)) by {
                vstd::arithmetic::div_mod::lemma_fundamental_div_mod(j, 2);
            }
        }
    }
    assert(got =~= cbits);
}

/// Every block of a rendered frame is recovered as what it was given.
#[verifier::spinoff_prover]
#[verifier::rlimit(40)]
proof fn lemma_blocks_recovered(hv: FrameHeaderView, blocks: Seq<Seq<u8>>, scale: int)
    requires
        frame_drawable(hv, blocks, scale),
        hv.layout.spec_block_bytes(hv.bits_per_cell) >= 4,
    ensures
        ({
            let l = hv.layout;
            let w = l.spec_width();
            let cells = sampled_cells(
                encoded_pixels(hv, blocks, scale),
                w * scale,
                scale,
                w,
                l.spec_height(),
            );
            Seq::new(
                l.spec_block_count() as nat,
                |bi: int|
                    recovered_block(
                        bits_to_bytes_spec(block_bits(cells, w, l, hv.bits_per_cell, bi)),
                        l.spec_block_payload_len(hv.bits_per_cell),
                    ),
            ) == expected_frame(hv, blocks).blocks
        }),
{
    let l = hv.layout;
    let bpc = hv.bits_per_cell;
    let w = l.spec_width();
    let hh = l.spec_height();
    let cells = sampled_cells(encoded_pixels(hv, blocks, scale), w * scale, scale, w, hh);
    let pl = l.spec_block_payload_len(bpc);
    let bb = l.spec_block_bytes(bpc);
    let got = Seq::new(
        l.spec_block_count() as nat,
        |bi: int| recovered_block(bits_to_bytes_spec(block_bits(cells, w, l, bpc, bi)), pl),
    );
    assert forall|bi: int| 0 <= bi < l.spec_block_count() implies #[trigger] got[bi]
        == expected_frame(hv, blocks).blocks[bi] by {
        lemma_block_bits(hv, blocks, scale, bi);
        let content = block_content(blocks, bi, bb);
        lemma_bits_bytes_roundtrip(content);
        if bi < blocks.len() {
            let p = blocks[bi];
            assert(p.len() == pl);
            lemma_be32_roundtrip(spec_crc32(p));
            assert(content.subrange(0, pl) =~= p);
            assert(content.subrange(pl, pl + 4) =~= be32(spec_crc32(p)));
        }
    }
    assert(got =~= expected_frame(hv, blocks).blocks);
}

/// Reading back a rendered frame gives its header and, for every block, the
/// payload it was drawn with; blocks past the supplied payloads read as a
/// zero-filled block does. This holds for every frame the format can draw
/// (whatever its size in memory) whose header survives serialization, which
/// has at least one row of blocks, and whose blocks have room for a CRC-32.
pub proof fn lemma_frame_roundtrip(hv: FrameHeaderView, blocks: Seq<Seq<u8>>, scale: int)
    requires
        frame_drawable(hv, blocks, scale),
        header_encodable(hv),
        hv.layout.grid_h > 0,
        hv.layout.spec_block_bytes(hv.bits_per_cell) >= 4,
    ensures
        decode_bitmap_spec(
            encoded_pixels(hv, blocks, scale),
            hv.layout.spec_width() * scale,
            hv.layout.spec_height() * scale,
            scale,
        ) == Ok::<DecodedFrameView, crate::frame::FrameError>(expected_frame(hv, blocks)),
{
    let l = hv.layout;
    let bpc = hv.bits_per_cell;
    let w = l.spec_width();
    let hh = l.spec_height();
    let data = encoded_pixels(hv, blocks, scale);
    lemma_div_mod_parts(w, scale, 0);
    lemma_div_mod_parts(hh, scale, 0);
    let cells = sampled_cells(data, w * scale, scale, w, hh);
    assert(l.block > 0) by (nonlinear_arith)
        requires
            l.grid_w * l.block == w,
            w > 2 * CORNER,
    ;
    assert(hh >= 2 * STRIP_H + 1) by (nonlinear_arith)
        requires
            hh == l.grid_h * l.block + 2 * STRIP_H,
            l.grid_h > 0,
            l.block > 0,
    ;
    // Corner markers.
    lemma_corner_hits(hv, blocks, scale);
    lemma_count_all_true(corner_hits(cells, w, hh));
    assert(spec_corner_match_ok(count_true(corner_hits(cells, w, hh)) as int, corner_cell_total()));
    // Header.
    lemma_every_header_copy(hv, blocks, scale, 0);
    let hbits = header_area_bits(cells, w);
    lemma_bits_bytes_roundtrip(header_bytes(hv));
    lemma_header_roundtrip(hv);
    assert((hbits.len() as int) / header_bits_len() >= 1);
    assert(hbits.subrange(0 * header_bits_len(), (0 + 1) * header_bits_len()) == hbits.subrange(
        0,
        header_bits_len(),
    ));
    assert(first_header(hbits) == Some(hv));
    // Blocks.
    lemma_blocks_recovered(hv, blocks, scale);
    assert(decode_cells_spec(cells, w, hh) == Ok::<DecodedFrameView, crate::frame::FrameError>(
        expected_frame(hv, blocks),
    ));
    assert(l.block * l.block * bpc >= 32) by (nonlinear_arith)
        requires
            l.block * l.block * bpc / 8 >= 4,
    ;
}

} // verus!
