//! Fountain coding of a payload into packets with RaptorQ (RFC 6330), and its
//! decoding from packets received in any order. The coding itself is the
//! `raptorq` crate's; this module keeps the packets, the transmission
//! information (OTI) and the receive state, and guards the calls.

use vstd::prelude::*;

verus! {

/// The packet size the senders use unless told otherwise.
pub const DEFAULT_PACKET_SIZE: u16 = 500;

/// Largest payload a receiver accepts for one object (512 MiB). The OTI's
/// transfer length is chosen by the sender (someone else's screen); an
/// absurd one would exhaust memory in the decoder. Every object a sender can
/// actually build stays below this line.
pub const MAX_PAYLOAD_BYTES: u64 = 536870912;

/// Most source symbols RaptorQ puts in one source block.
pub const MAX_SOURCE_SYMBOLS_PER_BLOCK: u64 = 56403;

#[verifier::external_type_specification]
#[verifier::external_body]
pub struct ExRqDecoder(raptorq::Decoder);

// Fields of the 12-byte OTI, as RFC 6330 section 3.3 lays them out (and as
// `ObjectTransmissionInformation::deserialize` reads them).

/// Transfer length: 40-bit big-endian in bytes 0..5.
pub open spec fn transfer_length_of_oti(oti: Seq<u8>) -> u64 {
    (((oti[0] as u64) << 32u64) | ((oti[1] as u64) << 24u64) | ((oti[2] as u64) << 16u64) | ((
    oti[3] as u64) << 8u64) | (oti[4] as u64)) as u64
}

/// Symbol size: big-endian in bytes 6..8.
pub open spec fn symbol_size_of_oti(oti: Seq<u8>) -> u16 {
    ((oti[6] as u16) << 8u16) | (oti[7] as u16)
}

/// Number of source blocks: byte 8.
pub open spec fn oti_source_blocks(oti: Seq<u8>) -> u8 {
    oti[8]
}

/// Number of sub-blocks: big-endian in bytes 9..11.
pub open spec fn oti_sub_blocks(oti: Seq<u8>) -> u16 {
    ((oti[9] as u16) << 8u16) | (oti[10] as u16)
}

/// Symbol alignment: byte 11.
pub open spec fn oti_alignment(oti: Seq<u8>) -> u8 {
    oti[11]
}

/// `ceil(a / b)`.
pub open spec fn div_ceil(a: int, b: int) -> int {
    if a % b == 0 {
        a / b
    } else {
        a / b + 1
    }
}

/// An OTI a RaptorQ decoder can be built from: positive symbol size and
/// source block count.
pub open spec fn oti_constructible(oti: Seq<u8>) -> bool {
    symbol_size_of_oti(oti) > 0 && oti_source_blocks(oti) > 0
}

/// An OTI under which RaptorQ can decode: constructible, alignment and
/// sub-block count positive, and no source block holding more than the most
/// source symbols RaptorQ allows.
pub open spec fn oti_decodable(oti: Seq<u8>) -> bool {
    let t = symbol_size_of_oti(oti) as int;
    let z = oti_source_blocks(oti) as int;
    let kt = div_ceil(transfer_length_of_oti(oti) as int, t);
    &&& oti.len() == 12
    &&& oti_constructible(oti)
    &&& oti_alignment(oti) > 0
    &&& oti_sub_blocks(oti) > 0
    &&& kt <= z * MAX_SOURCE_SYMBOLS_PER_BLOCK
}

/// A serialized packet that belongs to an object with this OTI: a 4-byte
/// payload id (source block number first) and exactly one symbol.
pub open spec fn packet_fits(oti: Seq<u8>, packet: Seq<u8>) -> bool {
    packet.len() == 4 + symbol_size_of_oti(oti) && (packet[0] as int) < (oti_source_blocks(oti) as int)
}

/// Symbol size RaptorQ picks for a packet size: the packet size rounded down
/// to the symbol alignment (8 from 64 bytes up, else 1).
pub open spec fn rq_symbol_size_for(packet_size: u16) -> int {
    let al: int = if packet_size >= 64 { 8 } else { 1 };
    packet_size - (packet_size as int) % al
}

/// Payload lengths and packet sizes RaptorQ can encode: a non-empty payload,
/// a positive packet size, and at most 255 source blocks of at most
/// `MAX_SOURCE_SYMBOLS_PER_BLOCK` symbols.
pub open spec fn rq_encodable(len: int, packet_size: u16) -> bool {
    &&& len >= 1
    &&& packet_size >= 1
    &&& div_ceil(div_ceil(len, rq_symbol_size_for(packet_size)), MAX_SOURCE_SYMBOLS_PER_BLOCK as int)
        <= 255
}

/// An encodable payload is at most 255 blocks of the most source symbols a
/// block can hold, each one packet size long.
pub proof fn lemma_encodable_len(len: int, packet_size: u16)
    requires
        rq_encodable(len, packet_size),
    ensures
        1 <= rq_symbol_size_for(packet_size) <= packet_size,
        len <= 255 * (MAX_SOURCE_SYMBOLS_PER_BLOCK as int) * (packet_size as int),
{
    let s = rq_symbol_size_for(packet_size);
    let m = MAX_SOURCE_SYMBOLS_PER_BLOCK as int;
    let al: int = if packet_size >= 64 { 8 } else { 1 };
    assert(s >= 1) by {
        if packet_size >= 64 {
            assert((packet_size as int) % 8 < 8);
        } else {
            assert((packet_size as int) % 1 == 0);
        }
    }
    let k = div_ceil(len, s);
    let z = div_ceil(k, m);
    assert(len <= k * s) by (nonlinear_arith)
        requires
            s >= 1,
            len >= 1,
            k == (if len % s == 0 { len / s } else { len / s + 1 }),
    ;
    assert(k <= z * m) by (nonlinear_arith)
        requires
            m >= 1,
            k >= 0,
            z == (if k % m == 0 { k / m } else { k / m + 1 }),
    ;
    assert(len <= 255 * m * (packet_size as int)) by (nonlinear_arith)
        requires
            len <= k * s,
            k <= z * m,
            z <= 255,
            1 <= s <= packet_size,
            m >= 1,
            k >= 0,
    ;
}

/// Whether a payload of `len` bytes can be coded in packets of
/// `packet_size` bytes (what a caller checks before coding).
pub fn can_encode(len: usize, packet_size: u16) -> (ok: bool)
    ensures
        ok == rq_encodable(len as int, packet_size),
{
    if len == 0 || packet_size == 0 {
        return false;
    }
    let al: u16 = if packet_size >= 64 {
        8
    } else {
        1
    };
    let sym = (packet_size - packet_size % al) as usize;
    assert(sym as int == rq_symbol_size_for(packet_size));
    assert(sym >= 1) by {
        if packet_size >= 64 {
            assert((packet_size as int) % 8 < 8);
        }
    }
    let k = if len % sym == 0 {
        len / sym
    } else {
        assert(len / sym < len) by (nonlinear_arith)
            requires
                sym >= 1,
                len % sym != 0,
                len >= 1,
        ;
        len / sym + 1
    };
    let m = MAX_SOURCE_SYMBOLS_PER_BLOCK as usize;
    let z = if k % m == 0 {
        k / m
    } else {
        assert(k / m < k) by (nonlinear_arith)
            requires
                m >= 2,
                k >= 1,
        ;
        k / m + 1
    };
    z <= 255
}

/// Largest number of repair packets per block: encoding symbol ids are 24-bit.
pub const MAX_EXTRA_REPAIR: u32 = 16720812;

/// The OTI RaptorQ chooses for a payload and packet size.
pub uninterp spec fn rq_encoder_oti(payload: Seq<u8>, packet_size: u16) -> Seq<u8>;

/// The serialized packets RaptorQ produces for a payload, packet size and
/// number of repair packets per source block: every source packet of every
/// block, then that block's repair packets.
pub uninterp spec fn rq_encoded_packets(payload: Seq<u8>, packet_size: u16, extra_repair: u32) -> Seq<
    Seq<u8>,
>;

/// Whether `d` is the decoder that `raptorq::Decoder::new` builds for the
/// deserialized `oti` and that `add_new_packet` then makes of it, fed each of
/// `packets` (deserialized) in order.
pub uninterp spec fn rq_decoder_fed(d: raptorq::Decoder, oti: Seq<u8>, packets: Seq<Seq<u8>>) -> bool;

/// What `get_result` returns on the decoder that `raptorq::Decoder::new`
/// builds for the deserialized `oti`, once fed each of `packets`
/// (deserialized) in order.
pub uninterp spec fn rq_decoded(oti: Seq<u8>, packets: Seq<Seq<u8>>) -> Option<Seq<u8>>;

/// `raptorq::Encoder::with_defaults(payload, packet_size)`, then its
/// `get_config().serialize()` and the serialization of every packet of
/// `get_encoded_packets(extra_repair)`. The OTI declares the payload length
/// and the symbol size RaptorQ chose, at most `MAX_SOURCE_SYMBOLS_PER_BLOCK`
/// source symbols per block (the block count is `ceil(ceil(F/T)/56403)`,
/// at most 255 here), one sub-block or more and an alignment of 1 or 8;
/// there is at least one packet, and each is a 4-byte payload id (its
/// source block first) followed by one symbol. A decoder for that OTI fed
/// every packet in order gives back the payload: each block comes back as
/// soon as all its source packets are in (they come first), and the blocks
/// joined and cut to the transfer length are the payload. Whatever a decoder
/// for that OTI gives back from any list of these packets is the payload:
/// RaptorQ rebuilds a block only when its received symbols determine it.
#[verifier::external_body]
fn rq_encode(payload: &[u8], packet_size: u16, extra_repair: u32) -> (r: ([u8; 12], Vec<Vec<u8>>))
    requires
        rq_encodable(payload@.len() as int, packet_size),
        extra_repair <= MAX_EXTRA_REPAIR,
    ensures
        r.0@ == rq_encoder_oti(payload@, packet_size),
        r.1@.map_values(|p: Vec<u8>| p@) == rq_encoded_packets(payload@, packet_size, extra_repair),
        transfer_length_of_oti(r.0@) == payload@.len(),
        symbol_size_of_oti(r.0@) == rq_symbol_size_for(packet_size),
        r.1@.len() >= 1,
        forall|i: int|
            0 <= i < r.1@.len() ==> (#[trigger] r.1@[i])@.len() == 4 + symbol_size_of_oti(r.0@),
        oti_decodable(r.0@),
        forall|i: int| 0 <= i < r.1@.len() ==> packet_fits(r.0@, (#[trigger] r.1@[i])@),
        rq_decoded(r.0@, r.1@.map_values(|p: Vec<u8>| p@)) == Some(payload@),
        forall|qs: Seq<Seq<u8>>|
            #![trigger rq_decoded(r.0@, qs)]
            (forall|k: int|
                0 <= k < qs.len() ==> r.1@.map_values(|p: Vec<u8>| p@).contains(#[trigger] qs[k]))
                ==> (rq_decoded(r.0@, qs) is Some ==> rq_decoded(r.0@, qs) == Some(payload@)),
{
    let enc = raptorq::Encoder::with_defaults(payload, packet_size);
    let oti = enc.get_config().serialize();
    let packets = enc.get_encoded_packets(extra_repair).iter().map(|p| p.serialize()).collect();
    (oti, packets)
}

/// `ObjectTransmissionInformation::deserialize(oti)` and its transfer length,
/// symbol size, source blocks, sub-blocks and alignment.
#[verifier::external_body]
fn rq_oti_fields(oti: &[u8; 12]) -> (r: (u64, u16, u8, u16, u8))
    ensures
        r.0 == transfer_length_of_oti(oti@),
        r.1 == symbol_size_of_oti(oti@),
        r.2 == oti_source_blocks(oti@),
        r.3 == oti_sub_blocks(oti@),
        r.4 == oti_alignment(oti@),
{
    let o = raptorq::ObjectTransmissionInformation::deserialize(oti);
    (o.transfer_length(), o.symbol_size(), o.source_blocks(), o.sub_blocks(), o.symbol_alignment())
}

/// `raptorq::Decoder::new` for the deserialized OTI: a decoder fed nothing
/// yet.
#[verifier::external_body]
fn rq_decoder_new(oti: &[u8; 12]) -> (d: raptorq::Decoder)
    requires
        oti_constructible(oti@),
    ensures
        rq_decoder_fed(d, oti@, Seq::<Seq<u8>>::empty()),
{
    raptorq::Decoder::new(raptorq::ObjectTransmissionInformation::deserialize(oti))
}

/// `raptorq::Decoder::add_new_packet` with the deserialized packet, on a
/// decoder for `oti` fed `received`: it is then that decoder fed `received`
/// and the packet. (`oti` and `received` only name the decoder's state.)
#[verifier::external_body]
#[allow(unused_variables)]
fn rq_add_packet(d: &mut raptorq::Decoder, oti: &[u8; 12], received: &Vec<Vec<u8>>, packet: &[u8])
    requires
        rq_decoder_fed(*old(d), oti@, received@.map_values(|p: Vec<u8>| p@)),
        oti_decodable(oti@),
        packet_fits(oti@, packet@),
    ensures
        rq_decoder_fed(*final(d), oti@, received@.map_values(|p: Vec<u8>| p@).push(packet@)),
{
    d.add_new_packet(raptorq::EncodingPacket::deserialize(packet));
}

/// `raptorq::Decoder::get_result` on a decoder for `oti` fed `received`.
/// Under a decodable OTI the source symbol count `ceil(F/T)` fits RaptorQ's
/// 32-bit count, so the blocks hold at least the transfer length `F`, and
/// the object comes back cut to exactly that length.
#[verifier::external_body]
#[allow(unused_variables)]
fn rq_result(d: &raptorq::Decoder, oti: &[u8; 12], received: &Vec<Vec<u8>>) -> (r: Option<Vec<u8>>)
    requires
        rq_decoder_fed(*d, oti@, received@.map_values(|p: Vec<u8>| p@)),
    ensures
        match r {
            Some(v) => rq_decoded(oti@, received@.map_values(|p: Vec<u8>| p@)) == Some(v@),
            None => rq_decoded(oti@, received@.map_values(|p: Vec<u8>| p@)) is None,
        },
        oti_decodable(oti@) ==> (r matches Some(v) ==> v@.len() == transfer_length_of_oti(oti@)),
{
    d.get_result()
}

/// Symbol size declared by a serialized OTI. The serialized length of a
/// packet (4-byte id plus one symbol) follows from it.
pub fn oti_symbol_size(oti_bytes: &[u8; 12]) -> (s: u16)
    ensures
        s == symbol_size_of_oti(oti_bytes@),
{
    rq_oti_fields(oti_bytes).1
}

/// Payload length declared by a serialized OTI.
pub fn oti_transfer_length(oti_bytes: &[u8; 12]) -> (n: u64)
    ensures
        n == transfer_length_of_oti(oti_bytes@),
{
    rq_oti_fields(oti_bytes).0
}

/// Copy of `src`.
pub fn copy_bytes(src: &[u8]) -> (v: Vec<u8>)
    ensures
        v@ == src@,
{
    let mut v: Vec<u8> = Vec::new();
    crate::bits::push_range(&mut v, src, 0, src.len());
    assert(src@.subrange(0, src@.len() as int) =~= src@);
    v
}

/// The sender's side: every packet precomputed (source packets plus repair
/// packets), shown in a loop.
pub struct Encoder {
    oti: [u8; 12],
    packets: Vec<Vec<u8>>,
    payload: Ghost<Seq<u8>>,
}

/// `qs` holds only packets out of `ps` (any of them, in any order, repeated
/// or not).
pub open spec fn drawn_from(qs: Seq<Seq<u8>>, ps: Seq<Seq<u8>>) -> bool {
    forall|k: int| 0 <= k < qs.len() ==> ps.contains(#[trigger] qs[k])
}

impl Encoder {
    /// The payload the packets code.
    pub closed spec fn spec_payload(&self) -> Seq<u8> {
        self.payload@
    }

    /// There is a packet, every packet fits the OTI, which RaptorQ can decode
    /// with; a decoder
    /// fed all the packets in order gives back the payload, and whatever it
    /// gives back from any list drawn from the packets is the payload.
    pub open spec fn wf(&self) -> bool {
        &&& self.spec_packets().len() >= 1
        &&& oti_decodable(self.spec_oti())
        &&& forall|i: int|
            0 <= i < self.spec_packets().len() ==> packet_fits(
                self.spec_oti(),
                #[trigger] self.spec_packets()[i],
            )
        &&& rq_decoded(self.spec_oti(), self.spec_packets()) == Some(self.spec_payload())
        &&& forall|qs: Seq<Seq<u8>>|
            #![trigger rq_decoded(self.spec_oti(), qs)]
            drawn_from(qs, self.spec_packets()) ==> (rq_decoded(self.spec_oti(), qs) is Some
                ==> rq_decoded(self.spec_oti(), qs) == Some(self.spec_payload()))
    }

    /// The OTI.
    pub closed spec fn spec_oti(&self) -> Seq<u8> {
        self.oti@
    }

    /// The serialized packets, in sending order.
    pub closed spec fn spec_packets(&self) -> Seq<Seq<u8>> {
        self.packets@.map_values(|p: Vec<u8>| p@)
    }

    /// Encodes `payload` into packets of `packet_size` bytes plus
    /// `extra_repair` repair packets per source block.
    pub fn new(payload: &[u8], packet_size: u16, extra_repair: u32) -> (e: Encoder)
        requires
            rq_encodable(payload@.len() as int, packet_size),
            extra_repair <= MAX_EXTRA_REPAIR,
        ensures
            e.wf(),
            e.spec_payload() == payload@,
            e.spec_oti() == rq_encoder_oti(payload@, packet_size),
            e.spec_packets() == rq_encoded_packets(payload@, packet_size, extra_repair),
            e.spec_oti().len() == 12,
            transfer_length_of_oti(e.spec_oti()) == payload@.len(),
            symbol_size_of_oti(e.spec_oti()) == rq_symbol_size_for(packet_size),
            e.spec_packets().len() >= 1,
            forall|i: int|
                0 <= i < e.spec_packets().len() ==> (#[trigger] e.spec_packets()[i]).len() == 4
                    + symbol_size_of_oti(e.spec_oti()),
    {
        let (oti, packets) = rq_encode(payload, packet_size, extra_repair);
        let e = Encoder { oti, packets, payload: Ghost(payload@) };
        assert forall|i: int| 0 <= i < e.spec_packets().len() implies (
        #[trigger] e.spec_packets()[i]).len() == 4 + symbol_size_of_oti(e.spec_oti())
            && packet_fits(e.spec_oti(), e.spec_packets()[i]) by {
            assert(e.spec_packets()[i] == e.packets@[i]@);
        }
        assert forall|qs: Seq<Seq<u8>>|
            #![trigger rq_decoded(e.spec_oti(), qs)]
            drawn_from(qs, e.spec_packets()) && rq_decoded(e.spec_oti(), qs) is Some implies rq_decoded(
                e.spec_oti(),
                qs,
            ) == Some(e.spec_payload()) by {
            assert(forall|k: int|
                0 <= k < qs.len() ==> e.packets@.map_values(|p: Vec<u8>| p@).contains(
                    #[trigger] qs[k],
                ));
        }
        e
    }

    /// The OTI (12 bytes), which the receiver needs to build its decoder.
    pub fn oti(&self) -> (o: &[u8; 12])
        ensures
            o@ == self.spec_oti(),
    {
        &self.oti
    }

    /// The OTI (12 bytes), copied.
    pub fn oti_bytes(&self) -> (o: [u8; 12])
        ensures
            o@ == self.spec_oti(),
    {
        let o = &self.oti;
        let c: [u8; 12] = [o[0], o[1], o[2], o[3], o[4], o[5], o[6], o[7], o[8], o[9], o[10], o[11]];
        assert(c@ =~= o@);
        c
    }

    /// Number of precomputed packets.
    pub fn packet_count(&self) -> (n: usize)
        ensures
            n == self.spec_packets().len(),
    {
        self.packets.len()
    }

    /// Packet `i`, serialized; `i` wraps around the packet count, so a
    /// sender can simply count up.
    pub fn packet(&self, i: usize) -> (p: Vec<u8>)
        requires
            self.spec_packets().len() > 0,
        ensures
            p@ == self.spec_packets()[i as int % self.spec_packets().len() as int],
    {
        let k = i % self.packets.len();
        copy_bytes(self.packets[k].as_slice())
    }
}

/// The receiver's side: a RaptorQ decoder fed with packets as they arrive.
pub struct PayloadDecoder {
    inner: raptorq::Decoder,
    oti: [u8; 12],
    received: Vec<Vec<u8>>,
    packets_received: u32,
}

impl PayloadDecoder {
    /// The inner decoder is the one built for the stored OTI and fed the
    /// stored packets.
    pub closed spec fn wf(&self) -> bool {
        rq_decoder_fed(self.inner, self.oti@, self.spec_received())
    }

    /// The OTI the decoder was built with.
    pub closed spec fn spec_oti(&self) -> Seq<u8> {
        self.oti@
    }

    /// Every packet handed to the decoder so far, in order.
    pub closed spec fn spec_received(&self) -> Seq<Seq<u8>> {
        self.received@.map_values(|p: Vec<u8>| p@)
    }

    /// Count of packets handed to the decoder.
    pub closed spec fn spec_count(&self) -> u32 {
        self.packets_received
    }

    /// Builds a decoder from a serialized OTI, with no check of the declared
    /// size.
    pub fn from_oti_bytes(oti_bytes: &[u8; 12]) -> (d: PayloadDecoder)
        requires
            oti_constructible(oti_bytes@),
        ensures
            d.wf(),
            d.spec_oti() == oti_bytes@,
            d.spec_received() == Seq::<Seq<u8>>::empty(),
            d.spec_count() == 0,
    {
        let inner = rq_decoder_new(oti_bytes);
        let oti: [u8; 12] = [
            oti_bytes[0],
            oti_bytes[1],
            oti_bytes[2],
            oti_bytes[3],
            oti_bytes[4],
            oti_bytes[5],
            oti_bytes[6],
            oti_bytes[7],
            oti_bytes[8],
            oti_bytes[9],
            oti_bytes[10],
            oti_bytes[11],
        ];
        assert(oti@ =~= oti_bytes@);
        let received: Vec<Vec<u8>> = Vec::new();
        let d = PayloadDecoder { inner, oti, received, packets_received: 0 };
        assert(d.spec_received() =~= Seq::<Seq<u8>>::empty());
        d
    }

    /// Builds a decoder from a serialized OTI, unless its declared transfer
    /// length is 0 or above `MAX_PAYLOAD_BYTES` (a crafted frame must not make
    /// the receiver allocate without bound).
    pub fn from_oti_bytes_checked(oti_bytes: &[u8; 12]) -> (d: Option<PayloadDecoder>)
        requires
            transfer_length_of_oti(oti_bytes@) != 0 && transfer_length_of_oti(oti_bytes@)
                <= MAX_PAYLOAD_BYTES ==> oti_constructible(oti_bytes@),
        ensures
            d is Some <==> (transfer_length_of_oti(oti_bytes@) != 0 && transfer_length_of_oti(
                oti_bytes@,
            ) <= MAX_PAYLOAD_BYTES),
            d matches Some(dd) ==> dd.wf() && dd.spec_oti() == oti_bytes@ && dd.spec_received() == Seq::<
                Seq<u8>,
            >::empty() && dd.spec_count() == 0,
    {
        let len = rq_oti_fields(oti_bytes).0;
        if len == 0 || len > MAX_PAYLOAD_BYTES {
            return None;
        }
        Some(Self::from_oti_bytes(oti_bytes))
    }

    /// The OTI the decoder was built with.
    pub fn oti(&self) -> (o: &[u8; 12])
        ensures
            o@ == self.spec_oti(),
    {
        &self.oti
    }

    /// Payload length the OTI declares.
    pub fn payload_size(&self) -> (n: u64)
        ensures
            n == transfer_length_of_oti(self.spec_oti()),
    {
        rq_oti_fields(&self.oti).0
    }

    /// Number of packets handed to the decoder so far.
    pub fn packets_received(&self) -> (n: u32)
        ensures
            n == self.spec_count(),
    {
        self.packets_received
    }

    /// Hands one serialized packet to the decoder; the payload once it can be
    /// rebuilt from everything received.
    pub fn add_packet(&mut self, packet_bytes: &[u8]) -> (r: Option<Vec<u8>>)
        requires
            old(self).wf(),
            oti_decodable(old(self).spec_oti()),
            packet_fits(old(self).spec_oti(), packet_bytes@),
            old(self).spec_count() < u32::MAX,
        ensures
            final(self).wf(),
            final(self).spec_oti() == old(self).spec_oti(),
            final(self).spec_received() == old(self).spec_received().push(packet_bytes@),
            final(self).spec_count() == old(self).spec_count() + 1,
            match r {
                Some(v) => rq_decoded(final(self).spec_oti(), final(self).spec_received()) == Some(
                    v@,
                ),
                None => rq_decoded(final(self).spec_oti(), final(self).spec_received()) is None,
            },
            r matches Some(v) ==> v@.len() == transfer_length_of_oti(old(self).spec_oti()),
    {
        rq_add_packet(&mut self.inner, &self.oti, &self.received, packet_bytes);
        let ghost before = self.received@;
        self.received.push(copy_bytes(packet_bytes));
        assert(self.spec_received() =~= before.map_values(|p: Vec<u8>| p@).push(packet_bytes@));
        self.packets_received = self.packets_received + 1;
        rq_result(&self.inner, &self.oti, &self.received)
    }
}

/// Whether a decoder can be built for `oti` and fed `packet`.
pub fn packet_accepted(oti: &[u8; 12], packet: &[u8]) -> (ok: bool)
    ensures
        ok == (oti_decodable(oti@) && packet_fits(oti@, packet@)),
{
    let (f, t, z, n, al) = rq_oti_fields(oti);
    if t == 0 || z == 0 || al == 0 || n == 0 {
        return false;
    }
    let kt = if f % (t as u64) == 0 {
        f / (t as u64)
    } else {
        assert(t >= 2);
        assert(f / (t as u64) <= f / 2) by (nonlinear_arith)
            requires
                t >= 2,
        ;
        f / (t as u64) + 1
    };
    if kt > (z as u64) * MAX_SOURCE_SYMBOLS_PER_BLOCK {
        return false;
    }
    packet.len() == 4 + t as usize && packet[0] < z
}

} // verus!
