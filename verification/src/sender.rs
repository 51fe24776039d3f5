//! The sending side: a payload cut into fountain packets, and the packets laid
//! out block by block on a looping sequence of frames. Packets are assigned to
//! blocks cyclically, so every frame is full and one loop of frames carries
//! every packet.

use vstd::prelude::*;
use vstd::utf8::encode_utf8;
use crate::fountain::{
    div_ceil, lemma_encodable_len, rq_encodable, rq_encoded_packets, rq_encoder_oti,
    rq_symbol_size_for, symbol_size_of_oti, transfer_length_of_oti, Encoder, MAX_EXTRA_REPAIR,
};
use crate::frame::{
    byte_views, decode_bitmap_spec, encode_frame, frame_encodable, DecodedFrameView, FrameError,
};
use crate::header::{FrameHeader, FrameHeaderView, VERSION};
use crate::layout::Layout;
use crate::payload::{field_len, file_container, wrap_file, wrap_payload, wrapped_payload};
use crate::receiver::{kept_packets, packet_len};
use crate::roundtrip::encoded_pixels;

verus! {

/// A fountain encoder as handed to an application: the payload's packets,
/// computed once, shown in a loop.
pub struct FountainEncoder {
    inner: Encoder,
}

impl FountainEncoder {
    #[verifier::type_invariant]
    closed spec fn inv(&self) -> bool {
        self.inner.spec_packets().len() >= 1
    }

    /// The OTI the receiver needs.
    pub closed spec fn spec_oti(&self) -> Seq<u8> {
        self.inner.spec_oti()
    }

    /// The serialized packets, in sending order.
    pub closed spec fn spec_packets(&self) -> Seq<Seq<u8>> {
        self.inner.spec_packets()
    }

    /// Encodes `payload` into packets of `packet_size` bytes, plus
    /// `extra_repair` repair packets per source block (loss tolerance).
    pub fn new(payload: Vec<u8>, packet_size: u16, extra_repair: u32) -> (e: FountainEncoder)
        requires
            rq_encodable(payload@.len() as int, packet_size),
            extra_repair <= MAX_EXTRA_REPAIR,
        ensures
            e.spec_oti() == rq_encoder_oti(payload@, packet_size),
            e.spec_packets() == rq_encoded_packets(payload@, packet_size, extra_repair),
            transfer_length_of_oti(e.spec_oti()) == payload@.len(),
            symbol_size_of_oti(e.spec_oti()) == rq_symbol_size_for(packet_size),
            e.spec_packets().len() >= 1,
    {
        FountainEncoder { inner: Encoder::new(payload.as_slice(), packet_size, extra_repair) }
    }

    /// The 12-byte OTI, needed to build a decoder.
    pub fn oti_bytes(&self) -> (v: Vec<u8>)
        ensures
            v@ == self.spec_oti(),
    {
        let o = self.inner.oti();
        let mut v: Vec<u8> = Vec::new();
        crate::bits::push_range(&mut v, o, 0, 12);
        assert(v@ =~= self.spec_oti());
        v
    }

    /// Number of packets (the sender shows them in a loop of this length).
    pub fn packet_count(&self) -> (n: u32)
        ensures
            n == self.spec_packets().len() as u32,
    {
        self.inner.packet_count() as u32
    }

    /// Packet `i`, serialized (4-byte id, then one symbol); `i` wraps around
    /// the packet count.
    pub fn packet(&self, i: u32) -> (p: Vec<u8>)
        ensures
            p@ == self.spec_packets()[i as int % self.spec_packets().len() as int],
    {
        proof {
            use_type_invariant(self);
        }
        self.inner.packet(i as usize)
    }
}

/// The cell depth a sender uses for a requested one: two bits when asked for
/// two, one bit otherwise.
pub open spec fn tx_bpc(bits_per_cell: u8) -> u8 {
    if bits_per_cell == 2 {
        2
    } else {
        1
    }
}

/// A requested grid dimension, held between 2 and `max`.
pub open spec fn clamp_grid(g: u8, max: u8) -> usize {
    if g < 2 {
        2
    } else if g > max {
        max as usize
    } else {
        g as usize
    }
}

/// The fountain packet size that fills one block at a requested cell depth.
pub open spec fn tx_packet_size(bits_per_cell: u8) -> u16 {
    Layout::v0().spec_packet_size(tx_bpc(bits_per_cell)) as u16
}

/// A byte string cut or zero-padded to `len` bytes.
pub open spec fn padded(p: Seq<u8>, len: int) -> Seq<u8> {
    if p.len() >= len {
        p.subrange(0, len)
    } else {
        p + Seq::new((len - p.len()) as nat, |k: int| 0u8)
    }
}

/// The header of frame `i` of a loop.
pub open spec fn tx_frame_header(l: Layout, bpc: u8, oti: Seq<u8>, i: int) -> FrameHeaderView {
    FrameHeaderView {
        version: VERSION,
        bits_per_cell: bpc,
        layout: l,
        frame_seq: (i % 0x10000) as u16,
        oti,
    }
}

/// Index of the packet that block `j` of frame `i` carries: packets are
/// dealt to blocks in turn, wrapping around the packet count.
pub open spec fn tx_packet_index(i: int, j: int, bc: int, pc: int) -> int {
    (i * bc + j) % pc
}

/// The block payloads of frame `i`: the packets it carries, zero-padded to a
/// block's payload length.
pub open spec fn tx_frame_blocks(packets: Seq<Seq<u8>>, l: Layout, bpc: u8, i: int) -> Seq<Seq<u8>> {
    Seq::new(
        l.spec_block_count() as nat,
        |j: int|
            padded(
                packets[tx_packet_index(i, j, l.spec_block_count(), packets.len() as int)],
                l.spec_block_payload_len(bpc),
            ),
    )
}

/// The sizes of a sender's grid: blocks of 20 x 20 cells, 2 to 255 blocks a
/// side, one or two bits per cell.
pub(crate) proof fn lemma_tx_sizes(l: Layout, bpc: u8)
    requires
        l.block == Layout::BLOCK,
        2 <= l.grid_w <= 255,
        2 <= l.grid_h <= 255,
        bpc == 1 || bpc == 2,
    ensures
        l.block * l.block == 400,
        l.block * l.block * bpc <= 800,
        l.spec_block_bytes(bpc) == 50 * bpc,
        l.spec_block_payload_len(bpc) == 50 * bpc - 4,
        l.spec_packet_size(bpc) == 50 * bpc - 8,
        l.spec_packet_size(bpc) == 42 || l.spec_packet_size(bpc) == 92,
        4 <= l.spec_block_count() <= 255 * 255,
        40 <= l.spec_width() <= 5100,
        52 <= l.spec_height() <= 5112,
        l.spec_width() * l.spec_height() <= 5100 * 5112,
{
    assert(l.block * l.block * bpc == 400 * bpc);
    if bpc == 1 {
        assert(l.spec_block_bytes(bpc) == 50);
    } else {
        assert(l.spec_block_bytes(bpc) == 100);
    }
    assert(4 <= l.grid_w * l.grid_h <= 255 * 255) by (nonlinear_arith)
        requires
            2 <= l.grid_w <= 255,
            2 <= l.grid_h <= 255,
    ;
    assert(l.spec_width() * l.spec_height() <= 5100 * 5112) by (nonlinear_arith)
        requires
            0 <= l.spec_width() <= 5100,
            0 <= l.spec_height() <= 5112,
    ;
}

/// A frame image, one pixel per cell, 0 black and 255 white, row by row.
pub struct VcodeFrameImage {
    pub width: u32,
    pub height: u32,
    pub pixels: Vec<u8>,
}

/// The sender: a payload (with its CRC-32 in front) fountain-coded into
/// packets that each fill one block of a frame.
pub struct VcodeTx {
    encoder: Encoder,
    layout: Layout,
    bpc: u8,
}

impl VcodeTx {
    #[verifier::type_invariant]
    closed spec fn inv(&self) -> bool {
        let ps = self.layout.spec_packet_size(self.bpc);
        &&& self.layout.block == Layout::BLOCK
        &&& 2 <= self.layout.grid_w <= 255
        &&& 2 <= self.layout.grid_h <= 255
        &&& self.bpc == 1 || self.bpc == 2
        &&& self.encoder.spec_oti().len() == 12
        &&& self.encoder.spec_packets().len() >= 1
        &&& symbol_size_of_oti(self.encoder.spec_oti()) == rq_symbol_size_for(ps as u16)
        &&& forall|k: int|
            0 <= k < self.encoder.spec_packets().len() ==> (
            #[trigger] self.encoder.spec_packets()[k]).len() == 4 + symbol_size_of_oti(
                self.encoder.spec_oti(),
            )
    }

    /// The block grid.
    pub closed spec fn spec_layout(&self) -> Layout {
        self.layout
    }

    /// Bits per cell in the data blocks.
    pub closed spec fn spec_bpc(&self) -> u8 {
        self.bpc
    }

    /// The OTI every frame header carries.
    pub closed spec fn spec_oti(&self) -> Seq<u8> {
        self.encoder.spec_oti()
    }

    /// The packets, in sending order.
    pub closed spec fn spec_packets(&self) -> Seq<Seq<u8>> {
        self.encoder.spec_packets()
    }

    /// Encodes `payload` for frames whose grid is `grid_w` x `grid_h` blocks,
    /// each dimension held between 2 and `max_grid`. `bits_per_cell` 2 asks
    /// for four gray levels per cell, anything else for black and white.
    /// The payload gets its CRC-32 in front before coding.
    pub fn with_grid_limit(
        payload: &[u8],
        extra_repair: u32,
        grid_w: u8,
        grid_h: u8,
        bits_per_cell: u8,
        max_grid: u8,
    ) -> (t: VcodeTx)
        requires
            max_grid >= 2,
            rq_encodable(payload@.len() + 4int, tx_packet_size(bits_per_cell)),
            extra_repair <= MAX_EXTRA_REPAIR,
        ensures
            t.spec_layout() == (Layout {
                block: Layout::BLOCK,
                grid_w: clamp_grid(grid_w, max_grid),
                grid_h: clamp_grid(grid_h, max_grid),
            }),
            t.spec_bpc() == tx_bpc(bits_per_cell),
            t.spec_oti() == rq_encoder_oti(
                wrapped_payload(payload@),
                t.spec_layout().spec_packet_size(t.spec_bpc()) as u16,
            ),
            t.spec_packets() == rq_encoded_packets(
                wrapped_payload(payload@),
                t.spec_layout().spec_packet_size(t.spec_bpc()) as u16,
                extra_repair,
            ),
    {
        let bpc: u8 = if bits_per_cell == 2 {
            2
        } else {
            1
        };
        let gw: u8 = if grid_w < 2 {
            2
        } else if grid_w > max_grid {
            max_grid
        } else {
            grid_w
        };
        let gh: u8 = if grid_h < 2 {
            2
        } else if grid_h > max_grid {
            max_grid
        } else {
            grid_h
        };
        let layout = Layout::from_grid(gw as usize, gh as usize);
        proof {
            lemma_tx_sizes(layout, bpc);
            lemma_encodable_len(payload@.len() + 4int, tx_packet_size(bits_per_cell));
            assert(tx_packet_size(bits_per_cell) == layout.spec_packet_size(bpc));
        }
        let wrapped = wrap_payload(payload);
        let ps = layout.packet_size(bpc);
        let encoder = Encoder::new(wrapped.as_slice(), ps as u16, extra_repair);
        VcodeTx { encoder, layout, bpc }
    }

    /// Encodes `payload` for a `grid_w` x `grid_h` block grid (each held
    /// between 2 and 12).
    pub fn new(payload: &[u8], extra_repair: u32, grid_w: u8, grid_h: u8, bits_per_cell: u8) -> (t:
        VcodeTx)
        requires
            rq_encodable(payload@.len() + 4int, tx_packet_size(bits_per_cell)),
            extra_repair <= MAX_EXTRA_REPAIR,
        ensures
            t.spec_layout() == (Layout {
                block: Layout::BLOCK,
                grid_w: clamp_grid(grid_w, 12),
                grid_h: clamp_grid(grid_h, 12),
            }),
            t.spec_bpc() == tx_bpc(bits_per_cell),
            t.spec_oti() == rq_encoder_oti(
                wrapped_payload(payload@),
                t.spec_layout().spec_packet_size(t.spec_bpc()) as u16,
            ),
            t.spec_packets() == rq_encoded_packets(
                wrapped_payload(payload@),
                t.spec_layout().spec_packet_size(t.spec_bpc()) as u16,
                extra_repair,
            ),
    {
        Self::with_grid_limit(payload, extra_repair, grid_w, grid_h, bits_per_cell, 12)
    }

    /// Number of packets (source and repair).
    pub fn packet_count(&self) -> (n: u32)
        ensures
            n == self.spec_packets().len() as u32,
    {
        self.encoder.packet_count() as u32
    }

    /// Frames in one loop: enough to show every packet once.
    pub fn frame_count(&self) -> (n: u32)
        ensures
            n == div_ceil(
                self.spec_packets().len() as int,
                self.spec_layout().spec_block_count(),
            ) as u32,
    {
        proof {
            use_type_invariant(self);
            lemma_tx_sizes(self.layout, self.bpc);
        }
        let bc = self.layout.block_count();
        let pc = self.encoder.packet_count();
        proof {
            assert(pc / bc < pc || pc == 0) by (nonlinear_arith)
                requires
                    bc >= 4,
            ;
        }
        let n = if pc % bc == 0 {
            pc / bc
        } else {
            pc / bc + 1
        };
        n as u32
    }

    /// Frame width in cells (one pixel each).
    pub fn frame_width(&self) -> (n: u32)
        ensures
            n == self.spec_layout().spec_width(),
    {
        proof {
            use_type_invariant(self);
            lemma_tx_sizes(self.layout, self.bpc);
        }
        self.layout.width() as u32
    }

    /// Frame height in cells (one pixel each).
    pub fn frame_height(&self) -> (n: u32)
        ensures
            n == self.spec_layout().spec_height(),
    {
        proof {
            use_type_invariant(self);
            lemma_tx_sizes(self.layout, self.bpc);
        }
        self.layout.height() as u32
    }

    /// Payload bytes one frame carries (a packet size per block).
    pub fn bytes_per_frame(&self) -> (n: u32)
        ensures
            n == self.spec_layout().spec_block_count() * self.spec_layout().spec_packet_size(
                self.spec_bpc(),
            ),
    {
        proof {
            use_type_invariant(self);
            lemma_tx_sizes(self.layout, self.bpc);
        }
        let bc = self.layout.block_count();
        let ps = self.layout.packet_size(self.bpc);
        proof {
            assert(bc * ps <= 255 * 255 * 92) by (nonlinear_arith)
                requires
                    bc <= 255 * 255,
                    ps <= 92,
            ;
        }
        (bc * ps) as u32
    }

    /// Frame `i` of the loop, drawn one pixel per cell. Its header carries
    /// the frame number (mod 2^16) and the OTI; block `j` carries packet
    /// `(i * blocks + j) mod packets`, zero-padded to the block's payload
    /// length. The grid must be at least three blocks wide, for the header
    /// area to hold a header copy.
    pub fn frame_gray(&self, i: u32) -> (img: VcodeFrameImage)
        requires
            self.spec_layout().grid_w >= 3,
        ensures
            img.width == self.spec_layout().spec_width(),
            img.height == self.spec_layout().spec_height(),
            img.pixels@ == encoded_pixels(
                tx_frame_header(self.spec_layout(), self.spec_bpc(), self.spec_oti(), i as int),
                tx_frame_blocks(self.spec_packets(), self.spec_layout(), self.spec_bpc(), i as int),
                1,
            ),
            // The frame reads back as its header and the packets it carries.
            ({
                let l = self.spec_layout();
                let bc = l.spec_block_count();
                let blocks = tx_frame_blocks(self.spec_packets(), l, self.spec_bpc(), i as int);
                let read = Seq::new(bc as nat, |j: int| Some(blocks[j]));
                &&& decode_bitmap_spec(img.pixels@, l.spec_width(), l.spec_height(), 1) == Ok::<
                    DecodedFrameView,
                    FrameError,
                >(
                    DecodedFrameView {
                        header: tx_frame_header(l, self.spec_bpc(), self.spec_oti(), i as int),
                        blocks: read,
                    },
                )
                &&& kept_packets(read, packet_len(self.spec_oti())) == Seq::new(
                    bc as nat,
                    |j: int|
                        self.spec_packets()[tx_packet_index(
                            i as int,
                            j,
                            bc,
                            self.spec_packets().len() as int,
                        )],
                )
            }),
            // Read as a bitmap one pixel per cell, the frame meets what
            // `decode_frame` asks of its input.
            img.pixels@.len() == img.width * img.height,
            2 * (img.width * img.height) <= usize::MAX,
    {
        proof {
            use_type_invariant(self);
            lemma_tx_sizes(self.layout, self.bpc);
            let ps = self.layout.spec_packet_size(self.bpc);
            assert(rq_symbol_size_for(ps as u16) <= ps);
            crate::transfer::lemma_sent_frame_delivers(
                self.layout,
                self.bpc,
                self.encoder.spec_oti(),
                self.encoder.spec_packets(),
                i as int,
            );
        }
        let ghost packets = self.encoder.spec_packets();
        let ghost l = self.layout;
        let ghost bpc = self.bpc;
        let bc = self.layout.block_count();
        let pc = self.encoder.packet_count();
        let oti = self.encoder.oti_bytes();
        let header = FrameHeader {
            version: VERSION,
            bits_per_cell: self.bpc,
            layout: self.layout,
            frame_seq: (i % 0x10000) as u16,
            oti,
        };
        let payload_len = self.layout.block_payload_len(self.bpc);
        let ghost want = tx_frame_blocks(packets, l, bpc, i as int);
        let mut blocks: Vec<Vec<u8>> = Vec::new();
        let mut j: usize = 0;
        while j < bc
            invariant
                j <= bc,
                bc == l.spec_block_count(),
                4 <= bc <= 255 * 255,
                pc == packets.len(),
                pc >= 1,
                packets == self.encoder.spec_packets(),
                l == self.layout,
                bpc == self.bpc,
                bpc == 1 || bpc == 2,
                l.block == 20,
                payload_len == l.spec_block_payload_len(bpc),
                want == tx_frame_blocks(packets, l, bpc, i as int),
                symbol_size_of_oti(self.encoder.spec_oti()) == rq_symbol_size_for(
                    l.spec_packet_size(bpc) as u16,
                ),
                forall|k: int|
                    0 <= k < packets.len() ==> (#[trigger] packets[k]).len() == 4 + symbol_size_of_oti(
                        self.encoder.spec_oti(),
                    ),
                blocks@.len() == j,
                forall|k: int| 0 <= k < j ==> (#[trigger] blocks@[k])@ == want[k],
            decreases bc - j,
        {
            proof {
                assert((i as u64) * (bc as u64) <= 0xFFFF_FFFFu64 * 65025u64) by (nonlinear_arith)
                    requires
                        bc <= 255 * 255,
                ;
            }
            let k64 = ((i as u64) * (bc as u64) + (j as u64)) % (pc as u64);
            let k = k64 as usize;
            let mut p = self.encoder.packet(k);
            proof {
                assert(k == tx_packet_index(i as int, j as int, bc as int, pc as int));
                vstd::arithmetic::div_mod::lemma_small_mod(k as nat, pc as nat);
                assert(p@ == packets[k as int]);
                let ps = l.spec_packet_size(bpc);
                assert(ps == 42 || ps == 92);
                assert(rq_symbol_size_for(ps as u16) <= ps);
                assert(p@.len() <= payload_len);
            }
            p.resize(payload_len, 0);
            proof {
                let q = packets[k as int];
                if q.len() < payload_len {
                    assert forall|t: int| q.len() <= t < payload_len implies p@[t] == 0u8 by {
                        assert(cloned::<u8>(0u8, p@[t]));
                    }
                    assert(p@ =~= padded(q, payload_len as int));
                } else {
                    assert(p@ =~= padded(q, payload_len as int));
                }
                assert(want[j as int] == padded(q, payload_len as int));
            }
            blocks.push(p);
            j = j + 1;
        }
        proof {
            let hv = header@;
            assert(hv == tx_frame_header(l, bpc, self.encoder.spec_oti(), i as int));
            assert(byte_views(blocks@) =~= want);
            lemma_tx_sizes(l, bpc);
            assert(l.spec_width() * 1 * (l.spec_height() * 1) <= 5100 * 5112);
            assert(forall|k: int| 0 <= k < want.len() ==> #[trigger] want[k].len()
                == l.spec_block_payload_len(bpc));
            assert(frame_encodable(hv, want, 1));
        }
        let bm = encode_frame(&header, blocks.as_slice(), 1);
        proof {
            let hv = header@;
            assert(bm.data@ =~= encoded_pixels(hv, want, 1));
            assert(2 * (bm.w * bm.h) <= usize::MAX);
        }
        VcodeFrameImage { width: bm.w as u32, height: bm.h as u32, pixels: bm.data }
    }
}

/// The fountain packet size of the default grid for a requested cell depth
/// (used to estimate the number of source packets before sending).
pub fn packet_size(bits_per_cell: u8) -> (n: u32)
    ensures
        n == Layout::v0().spec_packet_size(tx_bpc(bits_per_cell)),
{
    let bpc: u8 = if bits_per_cell == 2 {
        2
    } else {
        1
    };
    Layout::v0().packet_size(bpc) as u32
}

/// A file's name and MIME type put in front of its contents: what a sender
/// hands to `VcodeTx` so that the receiver can restore both.
pub fn vcode_wrap_file(name: String, mime: String, data: Vec<u8>) -> (v: Vec<u8>)
    requires
        9 + field_len(encode_utf8(name@).len() as int) + field_len(
            encode_utf8(mime@).len() as int,
        ) + data@.len() <= usize::MAX,
    ensures
        v@ == file_container(encode_utf8(name@), encode_utf8(mime@), data@),
{
    wrap_file(name.as_str(), mime.as_str(), data.as_slice())
}

} // verus!
