//! The frame header: format version, cell depth, block grid, frame sequence
//! number and the fountain code parameters, closed by a CRC-32.

use vstd::prelude::*;
use crate::bits::{
    be32, from_be32, from_le16, le16, lemma_be32_roundtrip, lemma_from_be32_roundtrip,
    lemma_from_le16_roundtrip, lemma_le16_roundtrip,
};
use crate::crc::{crc32, crc32_range, spec_crc32};
use crate::layout::Layout;

verus! {

/// First byte of every serialized header.
pub const MAGIC: u8 = 0xB9;

/// Length of a serialized header, CRC-32 included.
pub const HEADER_LEN: usize = 24;

/// Format version (1: 32-bit block and header CRCs).
pub const VERSION: u8 = 1;

/// Frame header. Several copies of it are drawn in the strip above the blocks.
#[derive(Clone, Debug, PartialEq, Eq)]
pub struct FrameHeader {
    pub version: u8,
    pub bits_per_cell: u8,
    pub layout: Layout,
    /// Display sequence number (statistics and duplicate detection).
    pub frame_seq: u16,
    /// Fountain code transmission information, carried by every frame so that
    /// reception can start from any frame.
    pub oti: [u8; 12],
}

/// A header as mathematical values.
pub struct FrameHeaderView {
    pub version: u8,
    pub bits_per_cell: u8,
    pub layout: Layout,
    pub frame_seq: u16,
    pub oti: Seq<u8>,
}

impl View for FrameHeader {
    type V = FrameHeaderView;

    open spec fn view(&self) -> FrameHeaderView {
        FrameHeaderView {
            version: self.version,
            bits_per_cell: self.bits_per_cell,
            layout: self.layout,
            frame_seq: self.frame_seq,
            oti: self.oti@,
        }
    }
}

/// The first 20 serialized bytes: everything the CRC covers.
pub open spec fn header_prefix(h: FrameHeaderView) -> Seq<u8> {
    seq![
        MAGIC,
        h.version,
        h.bits_per_cell,
        h.layout.block as u8,
        h.layout.grid_w as u8,
        h.layout.grid_h as u8,
    ] + le16(h.frame_seq) + h.oti
}

/// The 24 serialized bytes of a header.
pub open spec fn header_bytes(h: FrameHeaderView) -> Seq<u8> {
    header_prefix(h) + be32(spec_crc32(header_prefix(h)))
}

/// Whether a header with these fields survives serialization unchanged:
/// the right version and a grid whose numbers fit in a byte.
pub open spec fn header_encodable(h: FrameHeaderView) -> bool {
    &&& h.version == VERSION
    &&& h.layout.block <= 255
    &&& h.layout.grid_w <= 255
    &&& h.layout.grid_h <= 255
    &&& h.oti.len() == 12
}

/// What a byte string says as a header: nothing unless it is long enough and
/// magic, version and CRC all match.
pub open spec fn parse_header(s: Seq<u8>) -> Option<FrameHeaderView> {
    if s.len() < HEADER_LEN || s[0] != MAGIC || s[1] != VERSION || spec_crc32(s.subrange(0, 20))
        != from_be32(s.subrange(20, 24)) {
        None
    } else {
        Some(
            FrameHeaderView {
                version: s[1],
                bits_per_cell: s[2],
                layout: Layout { block: s[3] as usize, grid_w: s[4] as usize, grid_h: s[5] as usize },
                frame_seq: from_le16(s.subrange(6, 8)),
                oti: s.subrange(8, 20),
            },
        )
    }
}

impl FrameHeader {
    /// The 24 bytes of this header.
    pub fn serialize(&self) -> (buf: [u8; 24])
        ensures
            buf@ == header_bytes(self@),
    {
        let o = &self.oti;
        let prefix: [u8; 20] = [
            MAGIC,
            self.version,
            self.bits_per_cell,
            self.layout.block as u8,
            self.layout.grid_w as u8,
            self.layout.grid_h as u8,
            self.frame_seq as u8,
            (self.frame_seq >> 8) as u8,
            o[0],
            o[1],
            o[2],
            o[3],
            o[4],
            o[5],
            o[6],
            o[7],
            o[8],
            o[9],
            o[10],
            o[11],
        ];
        assert(prefix@ =~= header_prefix(self@));
        let crc = crc32(&prefix);
        let buf: [u8; 24] = [
            prefix[0],
            prefix[1],
            prefix[2],
            prefix[3],
            prefix[4],
            prefix[5],
            prefix[6],
            prefix[7],
            prefix[8],
            prefix[9],
            prefix[10],
            prefix[11],
            prefix[12],
            prefix[13],
            prefix[14],
            prefix[15],
            prefix[16],
            prefix[17],
            prefix[18],
            prefix[19],
            (crc >> 24) as u8,
            (crc >> 16) as u8,
            (crc >> 8) as u8,
            crc as u8,
        ];
        assert(buf@ =~= header_bytes(self@));
        buf
    }

    /// Reads a header from the front of `buf`; `None` unless magic, version
    /// and CRC all match.
    pub fn deserialize(buf: &[u8]) -> (res: Option<FrameHeader>)
        ensures
            match res {
                Some(h) => parse_header(buf@) == Some(h@),
                None => parse_header(buf@) is None,
            },
    {
        if buf.len() < HEADER_LEN || buf[0] != MAGIC || buf[1] != VERSION {
            return None;
        }
        let crc_stored = ((buf[20] as u32) << 24) | ((buf[21] as u32) << 16) | ((buf[22] as u32)
            << 8) | (buf[23] as u32);
        assert(crc_stored == from_be32(buf@.subrange(20, 24)));
        if crc32_range(buf, 0, 20) != crc_stored {
            return None;
        }
        let oti: [u8; 12] = [
            buf[8],
            buf[9],
            buf[10],
            buf[11],
            buf[12],
            buf[13],
            buf[14],
            buf[15],
            buf[16],
            buf[17],
            buf[18],
            buf[19],
        ];
        let h = FrameHeader {
            version: buf[1],
            bits_per_cell: buf[2],
            layout: Layout { block: buf[3] as usize, grid_w: buf[4] as usize, grid_h: buf[5] as usize },
            frame_seq: (buf[6] as u16) | ((buf[7] as u16) << 8),
            oti,
        };
        assert(h.oti@ =~= buf@.subrange(8, 20));
        assert(h.frame_seq == from_le16(buf@.subrange(6, 8)));
        Some(h)
    }
}

/// Two headers with the same view are the same header.
pub proof fn lemma_header_view_injective(a: FrameHeader, b: FrameHeader)
    requires
        a@ == b@,
    ensures
        a == b,
{
    assert(a.oti =~= b.oti);
}

/// Reading back a serialized header gives the header, for every header whose
/// version is the current one and whose grid numbers fit in a byte.
pub proof fn lemma_header_roundtrip(v: FrameHeaderView)
    requires
        header_encodable(v),
    ensures
        parse_header(header_bytes(v)) == Some(v),
{
    let s = header_bytes(v);
    let p = header_prefix(v);
    lemma_be32_roundtrip(spec_crc32(p));
    lemma_le16_roundtrip(v.frame_seq);
    assert(s.subrange(0, 20) =~= p);
    assert(s.subrange(20, 24) =~= be32(spec_crc32(p)));
    assert(s.subrange(6, 8) =~= le16(v.frame_seq));
    assert(s.subrange(8, 20) =~= v.oti);
    assert((v.layout.block as u8) as usize == v.layout.block);
    assert((v.layout.grid_w as u8) as usize == v.layout.grid_w);
    assert((v.layout.grid_h as u8) as usize == v.layout.grid_h);
}

/// A byte string that reads as a header begins with that header's bytes.
pub proof fn lemma_header_parse_serialize(s: Seq<u8>)
    requires
        parse_header(s) is Some,
    ensures
        header_bytes(parse_header(s).unwrap()) == s.subrange(0, 24),
        header_encodable(parse_header(s).unwrap()),
{
    let v = parse_header(s).unwrap();
    lemma_from_le16_roundtrip(s.subrange(6, 8));
    lemma_from_be32_roundtrip(s.subrange(20, 24));
    assert(header_prefix(v) =~= s.subrange(0, 20));
    assert(header_bytes(v) =~= s.subrange(0, 24));
}

} // verus!

verus! {

/// A serialized header with any one byte changed reads as no header: the
/// magic, the version or the CRC-32 gives it away.
pub proof fn lemma_header_detects_one_byte(h: FrameHeaderView, k: int, v: u8)
    requires
        header_encodable(h),
        0 <= k < HEADER_LEN,
        header_bytes(h)[k] != v,
    ensures
        parse_header(header_bytes(h).update(k, v)) is None,
{
    let s = header_bytes(h);
    let s2 = s.update(k, v);
    let p = header_prefix(h);
    lemma_be32_roundtrip(spec_crc32(p));
    assert(s.subrange(0, 20) =~= p);
    assert(s.subrange(20, 24) =~= be32(spec_crc32(p)));
    if 2 <= k < 20 {
        assert(s2.subrange(20, 24) =~= s.subrange(20, 24));
        assert(s2.subrange(0, 20) =~= p.update(k, v));
        crate::crc::lemma_crc_detects_one_byte(p, k, v);
    } else if k >= 20 {
        assert(s2.subrange(0, 20) =~= p);
        lemma_from_be32_roundtrip(s2.subrange(20, 24));
        if from_be32(s2.subrange(20, 24)) == spec_crc32(p) {
            assert(s2.subrange(20, 24) =~= be32(spec_crc32(p)));
            assert(s2[k] == s2.subrange(20, 24)[k - 20]);
        }
    }
}

} // verus!
