//! The receiving side: camera planes turned upright, the packets of a decoded
//! frame cut back to their true length, a fountain decoder that keeps the
//! payload once rebuilt, and the end-to-end checks on what it rebuilt.

use vstd::prelude::*;
use crate::arith::lemma_div_below;
use crate::fountain::{
    copy_bytes, drawn_from, oti_constructible, oti_decodable, oti_symbol_size,
    oti_transfer_length, packet_accepted, packet_fits, rq_decoded, symbol_size_of_oti,
    transfer_length_of_oti, Encoder, PayloadDecoder, MAX_PAYLOAD_BYTES,
};
use crate::frame::{option_bytes_view, DecodedFrame};
use crate::layout::Layout;
use crate::payload::{parse_file, unwrap_file, unwrap_payload, unwrapped_payload};

verus! {

/// Size of a plane turned by `rot` degrees: a quarter turn swaps the sides.
pub open spec fn rotated_dims(w: int, h: int, rot: u32) -> (int, int) {
    if rot == 90 || rot == 270 {
        (h, w)
    } else {
        (w, h)
    }
}

/// The source pixel (x, y) that lands on (dx, dy) when a `w` x `h` plane is
/// turned clockwise by `rot` degrees (90, 180 or 270; any other value leaves
/// it as it is).
pub open spec fn rotation_source(w: int, h: int, rot: u32, dx: int, dy: int) -> (int, int) {
    if rot == 90 {
        (dy, h - 1 - dx)
    } else if rot == 180 {
        (w - 1 - dx, h - 1 - dy)
    } else if rot == 270 {
        (w - 1 - dy, dx)
    } else {
        (dx, dy)
    }
}

/// Pixel `k` (row by row) of the turned plane.
pub open spec fn rotated_pixel(
    y: Seq<u8>,
    w: int,
    h: int,
    stride: int,
    rot: u32,
    k: int,
) -> u8 {
    let rw = rotated_dims(w, h, rot).0;
    let s = rotation_source(w, h, rot, k % rw, k / rw);
    y[s.1 * stride + s.0]
}

/// Takes a `w` x `h` luma plane whose rows are `stride` bytes apart, drops
/// the row padding and turns it clockwise by `rot` degrees (0, 90, 180 or
/// 270). Gives the turned plane, its width and its height.
pub fn rotate_y_plane(y: &[u8], w: usize, h: usize, stride: usize, rot: u32) -> (r: (
    Vec<u8>,
    usize,
    usize,
))
    requires
        h > 0 ==> (h - 1) * stride + w <= y@.len(),
        w * h <= usize::MAX,
    ensures
        r.1 == rotated_dims(w as int, h as int, rot).0,
        r.2 == rotated_dims(w as int, h as int, rot).1,
        r.0@.len() == w * h,
        forall|k: int|
            0 <= k < r.0@.len() ==> #[trigger] r.0@[k] == rotated_pixel(
                y@,
                w as int,
                h as int,
                stride as int,
                rot,
                k,
            ),
{
    let (rw, rh) = if rot == 90 || rot == 270 {
        (h, w)
    } else {
        (w, h)
    };
    proof {
        assert(rw * rh == w * h) by (nonlinear_arith)
            requires
                (rw == h && rh == w) || (rw == w && rh == h),
        ;
    }
    let n = rw * rh;
    let ylen = y.len();
    let mut gray: Vec<u8> = Vec::with_capacity(n);
    let mut k: usize = 0;
    while k < n
        invariant
            k <= n,
            n == rw * rh,
            n == w * h,
            rw == rotated_dims(w as int, h as int, rot).0,
            rh == rotated_dims(w as int, h as int, rot).1,
            h > 0 ==> (h - 1) * stride + w <= y@.len(),
            ylen == y@.len(),
            gray@.len() == k,
            forall|j: int|
                0 <= j < k ==> #[trigger] gray@[j] == rotated_pixel(
                    y@,
                    w as int,
                    h as int,
                    stride as int,
                    rot,
                    j,
                ),
        decreases n - k,
    {
        proof {
            assert(rw > 0) by (nonlinear_arith)
                requires
                    k < rw * rh,
            ;
            lemma_div_below(k as int, rw as int, rh as int);
        }
        let dx = k % rw;
        let dy = k / rw;
        let (sx, sy) = if rot == 90 {
            (dy, h - 1 - dx)
        } else if rot == 180 {
            (w - 1 - dx, h - 1 - dy)
        } else if rot == 270 {
            (w - 1 - dy, dx)
        } else {
            (dx, dy)
        };
        proof {
            assert(sx < w && sy < h);
            assert(h > 0);
            assert((h - 1) * stride + w <= y@.len());
            assert(y@.len() <= usize::MAX);
            assert(sy * stride <= (h - 1) * stride) by (nonlinear_arith)
                requires
                    sy <= h - 1,
            ;
            assert(sy * stride + sx < y@.len());
        }
        gray.push(y[sy * stride + sx]);
        k = k + 1;
    }
    (gray, rw, rh)
}

/// The packets a frame hands to the fountain decoder: its recovered blocks in
/// order, each cut to `n` bytes (a block carries a packet zero-padded to the
/// block's payload length).
pub open spec fn kept_packets(blocks: Seq<Option<Seq<u8>>>, n: int) -> Seq<Seq<u8>>
    decreases blocks.len(),
{
    if blocks.len() == 0 {
        Seq::empty()
    } else {
        let rest = kept_packets(blocks.drop_last(), n);
        match blocks.last() {
            Some(p) => rest.push(
                if p.len() > n {
                    p.subrange(0, n)
                } else {
                    p
                },
            ),
            None => rest,
        }
    }
}

/// A block's payload cut to `n` bytes (left whole when shorter).
pub open spec fn cut_packet(p: Seq<u8>, n: int) -> Seq<u8> {
    if p.len() > n {
        p.subrange(0, n)
    } else {
        p
    }
}

/// Packets are taken block by block: the packets of two runs of blocks, one
/// after the other, are those of the first run then those of the second.
pub proof fn lemma_kept_packets_concat(a: Seq<Option<Seq<u8>>>, b: Seq<Option<Seq<u8>>>, n: int)
    ensures
        kept_packets(a + b, n) == kept_packets(a, n) + kept_packets(b, n),
    decreases b.len(),
{
    if b.len() == 0 {
        assert(a + b =~= a);
        assert(kept_packets(a, n) + kept_packets(b, n) =~= kept_packets(a, n));
    } else {
        assert((a + b).drop_last() =~= a + b.drop_last());
        assert((a + b).last() == b.last());
        lemma_kept_packets_concat(a, b.drop_last(), n);
        match b.last() {
            Some(p) => {
                assert(kept_packets(a + b, n) =~= kept_packets(a, n) + kept_packets(b, n));
            },
            None => {},
        }
    }
}

/// The packets taken from a frame are exactly its intact blocks, in block
/// order, each cut to the packet length: there are as many as intact blocks,
/// a damaged block costs its own packet and no other, and an intact block
/// gives its payload cut to `n` bytes.
pub proof fn lemma_kept_packets_are_intact_blocks(blocks: Seq<Option<Seq<u8>>>, n: int)
    ensures
        kept_packets(blocks, n) == blocks.filter_map(
            |b: Option<Seq<u8>>|
                match b {
                    Some(p) => Some(cut_packet(p, n)),
                    None => None,
                },
        ),
        kept_packets(blocks, n).len() == blocks.filter(|b: Option<Seq<u8>>| b is Some).len(),
        kept_packets(seq![None], n) == Seq::<Seq<u8>>::empty(),
        forall|p: Seq<u8>| #[trigger] kept_packets(seq![Some(p)], n) == seq![cut_packet(p, n)],
    decreases blocks.len(),
{
    let f = |b: Option<Seq<u8>>|
        match b {
            Some(p) => Some(cut_packet(p, n)),
            None => None,
        };
    let isp = |b: Option<Seq<u8>>| b is Some;
    reveal(Seq::filter);
    if blocks.len() > 0 {
        lemma_kept_packets_are_intact_blocks(blocks.drop_last(), n);
        assert(kept_packets(blocks, n) =~= blocks.filter_map(f));
        assert(blocks.filter(isp).len() == kept_packets(blocks, n).len());
    } else {
        assert(kept_packets(blocks, n) =~= blocks.filter_map(f));
    }
    let none_only: Seq<Option<Seq<u8>>> = seq![None];
    let nothing = Seq::<Option<Seq<u8>>>::empty();
    assert(kept_packets(nothing, n) == Seq::<Seq<u8>>::empty());
    assert(none_only.len() == 1 && none_only.last() is None);
    assert(none_only.drop_last() =~= nothing);
    assert(kept_packets(none_only, n) == kept_packets(nothing, n));
    assert forall|p: Seq<u8>| #[trigger] kept_packets(seq![Some(p)], n) == seq![cut_packet(p, n)] by {
        let one: Seq<Option<Seq<u8>>> = seq![Some(p)];
        assert(one.len() == 1 && one.last() == Some(p));
        assert(one.drop_last() =~= nothing);
        assert(kept_packets(one, n) == kept_packets(nothing, n).push(cut_packet(p, n)));
        assert(kept_packets(one, n) =~= seq![cut_packet(p, n)]);
    }
}

/// Length of a serialized packet under an OTI: a 4-byte id and one symbol.
pub open spec fn packet_len(oti: Seq<u8>) -> int {
    4 + symbol_size_of_oti(oti)
}

/// The packets carried by the recovered blocks of `frame`, each cut to the
/// packet length its header's OTI declares.
pub fn received_packets(frame: &DecodedFrame) -> (v: Vec<Vec<u8>>)
    ensures
        v@.map_values(|p: Vec<u8>| p@) == kept_packets(frame@.blocks, packet_len(frame@.header.oti)),
{
    let n: usize = 4 + oti_symbol_size(&frame.header.oti) as usize;
    let ghost blocks = frame@.blocks;
    let mut v: Vec<Vec<u8>> = Vec::new();
    let mut i: usize = 0;
    while i < frame.blocks.len()
        invariant
            i <= frame.blocks@.len(),
            blocks == frame@.blocks,
            blocks.len() == frame.blocks@.len(),
            n == packet_len(frame@.header.oti),
            v@.map_values(|p: Vec<u8>| p@) == kept_packets(blocks.subrange(0, i as int), n as int),
        decreases frame.blocks.len() - i,
    {
        assert(blocks.subrange(0, i + 1).drop_last() =~= blocks.subrange(0, i as int));
        assert(blocks[i as int] == option_bytes_view(frame.blocks@[i as int]));
        match &frame.blocks[i] {
            Some(p) => {
                let m = if p.len() > n {
                    n
                } else {
                    p.len()
                };
                let mut q: Vec<u8> = Vec::new();
                crate::bits::push_range(&mut q, p.as_slice(), 0, m);
                assert(p@.len() <= n ==> p@.subrange(0, m as int) =~= p@);
                v.push(q);
                assert(v@.map_values(|p: Vec<u8>| p@) =~= kept_packets(
                    blocks.subrange(0, i + 1),
                    n as int,
                ));
            },
            None => {
                assert(v@.map_values(|p: Vec<u8>| p@) =~= kept_packets(
                    blocks.subrange(0, i + 1),
                    n as int,
                ));
            },
        }
        i = i + 1;
    }
    assert(blocks.subrange(0, blocks.len() as int) =~= blocks);
    v
}

/// A scan result as a browser receiver sees it: whether a frame was read,
/// how many of its blocks survived, the OTI, and the packets to feed the
/// fountain decoder.
pub struct VcodeScanReport {
    detected: bool,
    blocks_ok: u32,
    blocks_total: u32,
    oti: Vec<u8>,
    packets: Vec<Vec<u8>>,
}

impl VcodeScanReport {
    pub closed spec fn spec_detected(&self) -> bool {
        self.detected
    }

    pub closed spec fn spec_blocks_ok(&self) -> u32 {
        self.blocks_ok
    }

    pub closed spec fn spec_blocks_total(&self) -> u32 {
        self.blocks_total
    }

    pub closed spec fn spec_oti(&self) -> Seq<u8> {
        self.oti@
    }

    pub closed spec fn spec_packets(&self) -> Seq<Seq<u8>> {
        self.packets@.map_values(|p: Vec<u8>| p@)
    }

    /// Nothing was read.
    pub fn failed() -> (r: VcodeScanReport)
        ensures
            !r.spec_detected(),
            r.spec_blocks_ok() == 0,
            r.spec_blocks_total() == 0,
            r.spec_oti() == Seq::<u8>::empty(),
            r.spec_packets() == Seq::<Seq<u8>>::empty(),
    {
        let r = VcodeScanReport {
            detected: false,
            blocks_ok: 0,
            blocks_total: 0,
            oti: Vec::new(),
            packets: Vec::new(),
        };
        assert(r.spec_packets() =~= Seq::<Seq<u8>>::empty());
        r
    }

    /// A frame read with the grid `layout`: its packets (cut to their true
    /// length), how many blocks survived out of how many, and its OTI.
    pub fn from_frame(frame: DecodedFrame, layout: Layout) -> (r: VcodeScanReport)
        requires
            layout.spec_block_count() <= usize::MAX,
        ensures
            r.spec_detected(),
            r.spec_packets() == kept_packets(frame@.blocks, packet_len(frame@.header.oti)),
            r.spec_blocks_ok() == r.spec_packets().len() as u32,
            r.spec_blocks_total() == layout.spec_block_count() as u32,
            r.spec_oti() == frame@.header.oti,
    {
        let packets = received_packets(&frame);
        let o = &frame.header.oti;
        let mut oti: Vec<u8> = Vec::new();
        crate::bits::push_range(&mut oti, o, 0, 12);
        assert(oti@ =~= frame@.header.oti);
        VcodeScanReport {
            detected: true,
            blocks_ok: packets.len() as u32,
            blocks_total: layout.block_count() as u32,
            oti,
            packets,
        }
    }

    pub fn detected(&self) -> (b: bool)
        ensures
            b == self.spec_detected(),
    {
        self.detected
    }

    pub fn blocks_ok(&self) -> (n: u32)
        ensures
            n == self.spec_blocks_ok(),
    {
        self.blocks_ok
    }

    pub fn blocks_total(&self) -> (n: u32)
        ensures
            n == self.spec_blocks_total(),
    {
        self.blocks_total
    }

    pub fn oti(&self) -> (v: Vec<u8>)
        ensures
            v@ == self.spec_oti(),
    {
        copy_bytes(self.oti.as_slice())
    }

    pub fn packet_count(&self) -> (n: u32)
        ensures
            n == self.spec_packets().len() as u32,
    {
        self.packets.len() as u32
    }

    /// Packet `i` of the frame.
    pub fn packet(&self, i: u32) -> (p: Vec<u8>)
        requires
            i < self.spec_packets().len(),
        ensures
            p@ == self.spec_packets()[i as int],
    {
        copy_bytes(self.packets[i as usize].as_slice())
    }
}

/// Why a fountain decoder could not be built.
#[derive(Debug, PartialEq, Eq, Structural)]
pub enum FountainDecoderError {
    /// The OTI is not 12 bytes long (its length is given).
    OtiLength(usize),
    /// The declared payload length is 0 or above `MAX_PAYLOAD_BYTES`.
    DeclaredSizeInvalid,
    /// The OTI declares no symbol size or no source block.
    OtiUnusable,
}

/// A fountain decoder as values: the OTI it was built for, the packets it
/// took (in order), and the payload once rebuilt.
pub struct FountainView {
    pub oti: Seq<u8>,
    pub received: Seq<Seq<u8>>,
    pub result: Option<Seq<u8>>,
}

/// A fountain decoder just built for `oti`.
pub open spec fn fountain_start(oti: Seq<u8>) -> FountainView {
    FountainView { oti, received: Seq::empty(), result: None }
}

/// One packet handed to a fountain decoder: ignored once the payload is
/// kept, refused when it does not fit the OTI or RaptorQ cannot decode under
/// that OTI; otherwise taken, and the payload kept as soon as RaptorQ
/// rebuilds it from everything taken.
pub open spec fn fountain_step(v: FountainView, packet: Seq<u8>) -> FountainView {
    if v.result is Some || !(oti_decodable(v.oti) && packet_fits(v.oti, packet)) {
        v
    } else {
        let r = v.received.push(packet);
        FountainView { oti: v.oti, received: r, result: rq_decoded(v.oti, r) }
    }
}

/// Packets handed to a fountain decoder one after the other.
pub open spec fn fountain_feed(v: FountainView, packets: Seq<Seq<u8>>) -> FountainView
    decreases packets.len(),
{
    if packets.len() == 0 {
        v
    } else {
        fountain_step(fountain_feed(v, packets.drop_last()), packets.last())
    }
}

/// A fountain decoder as handed to an application: packets go in as they
/// arrive, and the payload is kept once it has been rebuilt.
pub struct FountainDecoder {
    inner: PayloadDecoder,
    result: Option<Vec<u8>>,
}

impl FountainDecoder {
    /// The inner decoder is consistent, and the kept payload is what
    /// RaptorQ rebuilds from every packet received (none is kept while it
    /// rebuilds nothing).
    pub closed spec fn wf(&self) -> bool {
        &&& self.inner.wf()
        &&& match self.result {
            Some(v) => rq_decoded(self.inner.spec_oti(), self.inner.spec_received()) == Some(v@),
            None => self.inner.spec_received().len() == 0 || rq_decoded(
                self.inner.spec_oti(),
                self.inner.spec_received(),
            ) is None,
        }
    }

    /// The OTI the decoder was built with.
    pub closed spec fn spec_oti(&self) -> Seq<u8> {
        self.inner.spec_oti()
    }

    /// Every packet handed to the fountain decoder so far, in order.
    pub closed spec fn spec_received(&self) -> Seq<Seq<u8>> {
        self.inner.spec_received()
    }

    /// Count of packets handed to the fountain decoder.
    pub closed spec fn spec_count(&self) -> u32 {
        self.inner.spec_count()
    }

    /// The rebuilt payload, once there is one.
    pub closed spec fn spec_result(&self) -> Option<Seq<u8>> {
        option_bytes_view(self.result)
    }

    /// Builds a decoder from a 12-byte OTI. Refuses an OTI of another length,
    /// one that declares an empty payload or one above `MAX_PAYLOAD_BYTES`
    /// (a crafted frame must not make the receiver allocate without bound),
    /// and one that declares no symbol size or no source block.
    pub fn new(oti_bytes: &[u8]) -> (r: Result<FountainDecoder, FountainDecoderError>)
        ensures
            oti_bytes@.len() != 12 ==> r == Err::<FountainDecoder, FountainDecoderError>(
                FountainDecoderError::OtiLength(oti_bytes@.len() as usize),
            ),
            oti_bytes@.len() == 12 && (transfer_length_of_oti(oti_bytes@) == 0 || transfer_length_of_oti(
                oti_bytes@,
            ) > MAX_PAYLOAD_BYTES) ==> r == Err::<FountainDecoder, FountainDecoderError>(
                FountainDecoderError::DeclaredSizeInvalid,
            ),
            oti_bytes@.len() == 12 && transfer_length_of_oti(oti_bytes@) != 0 && transfer_length_of_oti(
                oti_bytes@,
            ) <= MAX_PAYLOAD_BYTES && !oti_constructible(oti_bytes@) ==> r == Err::<
                FountainDecoder,
                FountainDecoderError,
            >(FountainDecoderError::OtiUnusable),
            r is Ok <==> (oti_bytes@.len() == 12 && transfer_length_of_oti(oti_bytes@) != 0
                && transfer_length_of_oti(oti_bytes@) <= MAX_PAYLOAD_BYTES && oti_constructible(
                oti_bytes@,
            )),
            r matches Ok(d) ==> d.wf() && d.spec_oti() == oti_bytes@ && d.spec_received() == Seq::<
                Seq<u8>,
            >::empty() && d.spec_count() == 0 && d.spec_result() is None && d@ == fountain_start(
                oti_bytes@,
            ),
    {
        if oti_bytes.len() != 12 {
            return Err(FountainDecoderError::OtiLength(oti_bytes.len()));
        }
        let arr: [u8; 12] = [
            oti_bytes[0],
            oti_bytes[1],
            oti_bytes[2],
            oti_bytes[3],
            oti_bytes[4],
            oti_bytes[5],
            oti_bytes[6],
            oti_bytes[7],
            oti_bytes[8],
            oti_bytes[9],
            oti_bytes[10],
            oti_bytes[11],
        ];
        assert(arr@ =~= oti_bytes@);
        let len = oti_transfer_length(&arr);
        if len == 0 || len > MAX_PAYLOAD_BYTES {
            return Err(FountainDecoderError::DeclaredSizeInvalid);
        }
        let t = oti_symbol_size(&arr);
        if t == 0 || arr[8] == 0 {
            return Err(FountainDecoderError::OtiUnusable);
        }
        let inner = PayloadDecoder::from_oti_bytes(&arr);
        Ok(FountainDecoder { inner, result: None })
    }

    /// Builds a decoder from a 12-byte OTI with no check of the declared
    /// payload length.
    pub fn from_oti_bytes(oti_bytes: &[u8; 12]) -> (d: FountainDecoder)
        requires
            oti_constructible(oti_bytes@),
        ensures
            d.wf(),
            d@ == fountain_start(oti_bytes@),
            d.spec_count() == 0,
    {
        FountainDecoder { inner: PayloadDecoder::from_oti_bytes(oti_bytes), result: None }
    }

    /// Hands one packet to the fountain decoder; true once the payload has
    /// been rebuilt. After that every packet is ignored and the answer stays
    /// true. A packet that does not fit the OTI (wrong length, unknown source
    /// block), or any packet under an OTI RaptorQ cannot decode with, is
    /// refused: false, nothing changes.
    pub fn add_packet(&mut self, packet: Vec<u8>) -> (done: bool)
        requires
            old(self).wf(),
            old(self).spec_result() is None ==> old(self).spec_count() < u32::MAX,
        ensures
            final(self).wf(),
            final(self)@ == fountain_step(old(self)@, packet@),
            final(self).spec_oti() == old(self).spec_oti(),
            old(self).spec_result() is Some ==> done && final(self).spec_result() == old(
                self,
            ).spec_result() && final(self).spec_received() == old(self).spec_received()
                && final(self).spec_count() == old(self).spec_count(),
            old(self).spec_result() is None && !(oti_decodable(old(self).spec_oti()) && packet_fits(
                old(self).spec_oti(),
                packet@,
            )) ==> !done && final(self).spec_result() is None && final(self).spec_received()
                == old(self).spec_received() && final(self).spec_count() == old(self).spec_count(),
            old(self).spec_result() is None && oti_decodable(old(self).spec_oti()) && packet_fits(
                old(self).spec_oti(),
                packet@,
            ) ==> final(self).spec_received() == old(self).spec_received().push(packet@)
                && final(self).spec_count() == old(self).spec_count() + 1 && final(self).spec_result()
                == rq_decoded(final(self).spec_oti(), final(self).spec_received()) && done
                == final(self).spec_result() is Some,
    {
        if self.result.is_some() {
            return true;
        }
        if !packet_accepted(self.inner.oti(), packet.as_slice()) {
            return false;
        }
        let r = self.inner.add_packet(packet.as_slice());
        let done = r.is_some();
        self.result = r;
        done
    }

    /// The rebuilt payload, or `None` before it could be rebuilt.
    pub fn payload(&self) -> (r: Option<Vec<u8>>)
        ensures
            match r {
                Some(v) => self.spec_result() == Some(v@),
                None => self.spec_result() is None,
            },
    {
        match &self.result {
            Some(v) => Some(copy_bytes(v.as_slice())),
            None => None,
        }
    }

    /// The payload length the OTI declares.
    pub fn payload_size(&self) -> (n: u64)
        ensures
            n == transfer_length_of_oti(self.spec_oti()),
    {
        self.inner.payload_size()
    }

    /// Number of packets handed to the fountain decoder so far.
    pub fn packets_received(&self) -> (n: u32)
        ensures
            n == self.spec_count(),
    {
        self.inner.packets_received()
    }
}

impl View for FountainDecoder {
    type V = FountainView;

    /// The decoder as values.
    open spec fn view(&self) -> FountainView {
        FountainView {
            oti: self.spec_oti(),
            received: self.spec_received(),
            result: self.spec_result(),
        }
    }
}

/// A fountain decoder fed a prefix of an encoder's packets holds the OTI,
/// only packets out of the encoder's, and either nothing (having taken every
/// packet of the prefix, from which RaptorQ rebuilds nothing) or the payload.
proof fn lemma_feed_prefix(e: Encoder, n: int)
    requires
        e.wf(),
        0 <= n <= e.spec_packets().len(),
    ensures
        ({
            let ps = e.spec_packets();
            let v = fountain_feed(fountain_start(e.spec_oti()), ps.take(n));
            &&& v.oti == e.spec_oti()
            &&& drawn_from(v.received, ps)
            &&& v.result is None ==> v.received == ps.take(n)
            &&& v.result is None && n >= 1 ==> rq_decoded(e.spec_oti(), ps.take(n)) is None
            &&& v.result is Some ==> v.result == Some(e.spec_payload())
        }),
    decreases n,
{
    let ps = e.spec_packets();
    let oti = e.spec_oti();
    if n == 0 {
        assert(ps.take(0) =~= Seq::<Seq<u8>>::empty());
        assert(fountain_start(oti).received =~= Seq::<Seq<u8>>::empty());
    } else {
        lemma_feed_prefix(e, n - 1);
        assert(ps.take(n).drop_last() =~= ps.take(n - 1));
        assert(ps.take(n).last() == ps[n - 1]);
        let prev = fountain_feed(fountain_start(oti), ps.take(n - 1));
        let v = fountain_feed(fountain_start(oti), ps.take(n));
        assert(v == fountain_step(prev, ps[n - 1]));
        if prev.result is None {
            assert(packet_fits(oti, ps[n - 1]));
            assert(v.received =~= ps.take(n));
            assert forall|k: int| 0 <= k < v.received.len() implies ps.contains(
                #[trigger] v.received[k],
            ) by {
                assert(v.received[k] == ps[k]);
            }
            if v.result is Some {
                assert(rq_decoded(oti, v.received) is Some);
            }
        }
    }
}

/// A fountain decoder built for an encoder's OTI and handed the encoder's
/// packets in sending order ends holding the payload; on the way it holds
/// either nothing or the payload, never anything else.
pub proof fn lemma_fountain_recovers(e: Encoder)
    requires
        e.wf(),
    ensures
        fountain_feed(fountain_start(e.spec_oti()), e.spec_packets()).result == Some(
            e.spec_payload(),
        ),
        forall|n: int|
            0 <= n <= e.spec_packets().len() ==> ((#[trigger] fountain_feed(
                fountain_start(e.spec_oti()),
                e.spec_packets().take(n),
            )).result is Some ==> fountain_feed(
                fountain_start(e.spec_oti()),
                e.spec_packets().take(n),
            ).result == Some(e.spec_payload())),
{
    let ps = e.spec_packets();
    assert forall|n: int|
        0 <= n <= ps.len() && (#[trigger] fountain_feed(
            fountain_start(e.spec_oti()),
            ps.take(n),
        )).result is Some implies fountain_feed(fountain_start(e.spec_oti()), ps.take(n)).result
            == Some(e.spec_payload()) by {
        lemma_feed_prefix(e, n);
    }
    lemma_feed_prefix(e, ps.len() as int);
    assert(ps.take(ps.len() as int) =~= ps);
}

/// Checks the end-to-end CRC-32 of a rebuilt payload and strips it. `None`
/// means a bad packet slipped past the block CRCs and spoiled the rebuild: the
/// receiver should start a new decoder.
pub fn vcode_unwrap_payload(payload: Vec<u8>) -> (r: Option<Vec<u8>>)
    ensures
        match r {
            Some(d) => unwrapped_payload(payload@) == Some(d@),
            None => unwrapped_payload(payload@) is None,
        },
{
    unwrap_payload(payload.as_slice())
}

/// A file taken back out of a rebuilt payload.
pub struct VcodeFile {
    pub name: String,
    pub mime: String,
    pub data: Vec<u8>,
}

impl VcodeFile {
    pub fn name(&self) -> (s: String)
        ensures
            s@ == self.name@,
    {
        self.name.clone()
    }

    pub fn mime(&self) -> (s: String)
        ensures
            s@ == self.mime@,
    {
        self.mime.clone()
    }

    pub fn data(&self) -> (v: Vec<u8>)
        ensures
            v@ == self.data@,
    {
        copy_bytes(self.data.as_slice())
    }
}

/// The file name, MIME type and contents carried by a rebuilt payload;
/// `None` when it holds no file container (raw bytes of an older sender).
pub fn vcode_unwrap_file(buf: Vec<u8>) -> (r: Option<VcodeFile>)
    ensures
        match r {
            Some(f) => parse_file(buf@) == Some(
                crate::payload::FileMetaView { name: f.name@, mime: f.mime@, data: f.data@ },
            ),
            None => parse_file(buf@) is None,
        },
{
    match unwrap_file(buf.as_slice()) {
        Some(m) => Some(VcodeFile { name: m.name, mime: m.mime, data: m.data }),
        None => None,
    }
}

} // verus!
