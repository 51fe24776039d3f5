//! What a whole transfer promises: one loop of frames shows every packet, a
//! frame drawn by a sender reads back as the packets it carries.

use vstd::prelude::*;
use crate::fountain::div_ceil;
use crate::frame::{decode_bitmap_spec, frame_encodable, DecodedFrameView, FrameError};
use crate::header::header_encodable;
use crate::layout::Layout;
use crate::receiver::{kept_packets, packet_len};
use crate::roundtrip::{encoded_pixels, expected_frame, lemma_frame_roundtrip};
use crate::sender::{padded, tx_frame_blocks, tx_frame_header, tx_packet_index};

verus! {

/// One loop of frames shows every packet: packet `k` travels in block
/// `k mod bc` of frame `k / bc`, and that frame is one of the
/// `ceil(pc / bc)` frames of the loop.
pub proof fn lemma_loop_covers_every_packet(pc: int, bc: int, k: int)
    requires
        bc >= 1,
        0 <= k < pc,
    ensures
        0 <= k / bc < div_ceil(pc, bc),
        0 <= k % bc < bc,
        tx_packet_index(k / bc, k % bc, bc, pc) == k,
{
    let q = k / bc;
    let r = k % bc;
    vstd::arithmetic::div_mod::lemma_fundamental_div_mod(k, bc);
    vstd::arithmetic::div_mod::lemma_mod_pos_bound(k, bc);
    vstd::arithmetic::div_mod::lemma_div_pos_is_pos(k, bc);
    assert(q * bc + r == k) by (nonlinear_arith)
        requires
            k == bc * q + r,
    ;
    vstd::arithmetic::div_mod::lemma_small_mod(k as nat, pc as nat);
    vstd::arithmetic::div_mod::lemma_fundamental_div_mod(pc, bc);
    vstd::arithmetic::div_mod::lemma_mod_pos_bound(pc, bc);
    let pq = pc / bc;
    if pc % bc == 0 {
        assert(q < pq) by (nonlinear_arith)
            requires
                k == bc * q + r,
                pc == bc * pq,
                k < pc,
                r >= 0,
                bc >= 1,
        ;
    } else {
        assert(q < pq + 1) by (nonlinear_arith)
            requires
                k == bc * q + r,
                pc == bc * pq + pc % bc,
                pc % bc < bc,
                k < pc,
                r >= 0,
                bc >= 1,
        ;
    }
}

/// Cutting packets of length `n`, zero-padded to `len >= n`, back to `n`
/// bytes gives the packets.
proof fn lemma_cut_padded(qs: Seq<Seq<u8>>, n: int, len: int)
    requires
        n <= len,
        forall|k: int| 0 <= k < qs.len() ==> #[trigger] qs[k].len() == n,
    ensures
        kept_packets(qs.map_values(|q: Seq<u8>| Some(padded(q, len))), n) == qs,
    decreases qs.len(),
{
    let s = qs.map_values(|q: Seq<u8>| Some(padded(q, len)));
    if qs.len() > 0 {
        let init = qs.drop_last();
        lemma_cut_padded(init, n, len);
        assert(s.drop_last() =~= init.map_values(|q: Seq<u8>| Some(padded(q, len))));
        let q = qs.last();
        let p = padded(q, len);
        assert(q.len() == n);
        if len > n {
            assert(p.subrange(0, n) =~= q);
        } else {
            assert(p =~= q);
        }
        assert(kept_packets(s, n) =~= qs);
    } else {
        assert(kept_packets(s, n) =~= qs);
    }
}

/// A frame drawn by a sender reads back, on the ideal channel, as its
/// header and, block by block, the packets it carries zero-padded; cutting
/// every block to the packet length its OTI declares gives exactly the
/// packets of that frame, in block order. This holds for every grid a sender
/// draws (blocks of 20 cells, at least 3 blocks wide) and every list of
/// packets of the declared length that fits a block.
pub proof fn lemma_sent_frame_delivers(
    l: Layout,
    bpc: u8,
    oti: Seq<u8>,
    packets: Seq<Seq<u8>>,
    i: int,
)
    requires
        l.block == Layout::BLOCK,
        3 <= l.grid_w <= 255,
        2 <= l.grid_h <= 255,
        bpc == 1 || bpc == 2,
        oti.len() == 12,
        packets.len() >= 1,
        0 <= i,
        packet_len(oti) <= l.spec_block_payload_len(bpc),
        forall|k: int| 0 <= k < packets.len() ==> #[trigger] packets[k].len() == packet_len(oti),
    ensures
        ({
            let hv = tx_frame_header(l, bpc, oti, i);
            let blocks = tx_frame_blocks(packets, l, bpc, i);
            let bc = l.spec_block_count();
            let read = Seq::new(bc as nat, |j: int| Some(blocks[j]));
            &&& decode_bitmap_spec(encoded_pixels(hv, blocks, 1), l.spec_width(), l.spec_height(), 1)
                == Ok::<DecodedFrameView, FrameError>(DecodedFrameView { header: hv, blocks: read })
            &&& kept_packets(read, packet_len(oti)) == Seq::new(
                bc as nat,
                |j: int| packets[tx_packet_index(i, j, bc, packets.len() as int)],
            )
        }),
{
    let hv = tx_frame_header(l, bpc, oti, i);
    let blocks = tx_frame_blocks(packets, l, bpc, i);
    let bc = l.spec_block_count();
    let pc = packets.len() as int;
    let pl = l.spec_block_payload_len(bpc);
    let read = Seq::new(bc as nat, |j: int| Some(blocks[j]));
    crate::sender::lemma_tx_sizes(l, bpc);
    // What the drawing needs.
    assert forall|j: int| 0 <= j < blocks.len() implies #[trigger] blocks[j].len() == pl by {
        let k = tx_packet_index(i, j, bc, pc);
        assert(i * bc + j >= 0) by (nonlinear_arith)
            requires
                i >= 0,
                bc >= 0,
                j >= 0,
        ;
        vstd::arithmetic::div_mod::lemma_mod_pos_bound(i * bc + j, pc);
        assert(packets[k].len() <= pl);
    }
    assert(l.spec_width() * 1 * (l.spec_height() * 1) <= 5100 * 5112);
    assert(frame_encodable(hv, blocks, 1));
    assert(header_encodable(hv));
    assert(crate::frame::header_copies(l.spec_width()) >= 1) by {
        assert(crate::pattern::header_cell_count(l.spec_width()) >= 240);
    }
    lemma_frame_roundtrip(hv, blocks, 1);
    assert(expected_frame(hv, blocks).blocks =~= read);
    assert(l.spec_width() * 1 == l.spec_width());
    assert(l.spec_height() * 1 == l.spec_height());
    // What the receiver keeps of the blocks.
    let qs = Seq::new(bc as nat, |j: int| packets[tx_packet_index(i, j, bc, pc)]);
    assert forall|k: int| 0 <= k < qs.len() implies #[trigger] qs[k].len() == packet_len(oti) by {
        assert(i * bc + k >= 0) by (nonlinear_arith)
            requires
                i >= 0,
                bc >= 0,
                k >= 0,
        ;
        vstd::arithmetic::div_mod::lemma_mod_pos_bound(i * bc + k, pc);
    }
    lemma_cut_padded(qs, packet_len(oti), pl);
    assert(qs.map_values(|q: Seq<u8>| Some(padded(q, pl))) =~= read);
}

} // verus!
