use vloom::crc::crc32;
use vloom::frame::{decode_frame, encode_frame, FrameError};
use vloom::header::{FrameHeader, VERSION};
use vloom::layout::{Layout, CORNER};
use vloom::pattern::header_cells;
use vloom::payload::{unwrap_file, unwrap_payload, wrap_file, wrap_payload};

fn test_header(frame_seq: u16) -> FrameHeader {
    FrameHeader {
        version: VERSION,
        bits_per_cell: 1,
        layout: Layout::v0(),
        frame_seq,
        oti: [1, 2, 3, 4, 5, 6, 7, 8, 9, 10, 11, 12],
    }
}

/// Deterministic pseudo-random block payloads.
fn test_blocks(n: usize, len: usize, seed: u8) -> Vec<Vec<u8>> {
    (0..n)
        .map(|bi| {
            (0..len)
                .map(|i| (i as u8).wrapping_mul(31).wrapping_add(bi as u8 ^ seed))
                .collect()
        })
        .collect()
}

#[test]
fn crc32_known_vector() {
    assert_eq!(crc32(b"123456789"), 0xCBF43926);
}

#[test]
fn file_wrap_roundtrip() {
    let data = b"\x50\x4b\x03\x04 fake docx zip bytes".to_vec();
    let wrapped = wrap_file(
        "report.docx",
        "application/vnd.openxmlformats-officedocument.wordprocessingml.document",
        &data,
    );
    let got = unwrap_file(&wrapped).expect("the container should unwrap");
    assert_eq!(got.name, "report.docx");
    assert_eq!(
        got.mime,
        "application/vnd.openxmlformats-officedocument.wordprocessingml.document"
    );
    assert_eq!(got.data, data);
}

#[test]
fn file_wrap_empty_meta() {
    let data = vec![1u8, 2, 3];
    let wrapped = wrap_file("", "", &data);
    let got = unwrap_file(&wrapped).unwrap();
    assert_eq!(got.name, "");
    assert_eq!(got.mime, "");
    assert_eq!(got.data, data);
}

#[test]
fn unwrap_file_rejects_raw_bytes() {
    assert_eq!(unwrap_file(b"\xff\xd8plain jpeg start"), None);
    assert_eq!(unwrap_file(b"PK\x03\x04zip"), None);
    assert_eq!(unwrap_file(b"hello"), None);
    assert_eq!(unwrap_file(b""), None);
}

#[test]
fn payload_wrap_roundtrip() {
    let data = b"hello vcode".to_vec();
    let wrapped = wrap_payload(&data);
    assert_eq!(wrapped.len(), data.len() + 4);
    assert_eq!(unwrap_payload(&wrapped), Some(data.clone()));
    let mut bad = wrapped.clone();
    bad[7] ^= 0x01;
    assert_eq!(unwrap_payload(&bad), None);
}

#[test]
fn header_roundtrip() {
    let h = test_header(1234);
    let buf = h.serialize();
    assert_eq!(FrameHeader::deserialize(&buf), Some(h));
    let mut bad = buf;
    bad[9] ^= 0x40;
    assert_eq!(FrameHeader::deserialize(&bad), None);
}

#[test]
fn layout_v0_capacity() {
    let l = Layout::v0();
    assert_eq!((l.width(), l.height()), (100, 92));
    assert_eq!(l.block_count(), 20);
    assert_eq!(l.block_bytes(1), 50);
    assert_eq!(l.block_payload_len(1), 46);
    assert_eq!(l.packet_size(1), 42);
    assert_eq!(header_cells(l.width()).len(), 440);
}

#[test]
fn frame_roundtrip_scale1() {
    let header = test_header(7);
    let blocks = test_blocks(20, Layout::v0().block_payload_len(1), 0xA5);
    let bm = encode_frame(&header, &blocks, 1);
    let decoded = decode_frame(&bm, 1).unwrap();
    assert_eq!(decoded.header, header);
    for (i, b) in decoded.blocks.iter().enumerate() {
        assert_eq!(b.as_deref(), Some(blocks[i].as_slice()), "block {i}");
    }
}

#[test]
fn frame_roundtrip_2bpc() {
    let l = Layout::v0();
    assert_eq!(l.block_bytes(2), 100);
    assert_eq!(l.block_payload_len(2), 96);
    assert_eq!(l.packet_size(2), 92);

    let mut header = test_header(12);
    header.bits_per_cell = 2;
    let blocks = test_blocks(20, l.block_payload_len(2), 0xE7);
    let bm = encode_frame(&header, &blocks, 2);
    let decoded = decode_frame(&bm, 2).unwrap();
    assert_eq!(decoded.header, header);
    for (i, b) in decoded.blocks.iter().enumerate() {
        assert_eq!(b.as_deref(), Some(blocks[i].as_slice()), "block {i}");
    }
}

#[test]
fn frame_roundtrip_scale3() {
    let header = test_header(8);
    let blocks = test_blocks(20, Layout::v0().block_payload_len(1), 0x5A);
    let bm = encode_frame(&header, &blocks, 3);
    assert_eq!((bm.w, bm.h), (300, 276));
    let decoded = decode_frame(&bm, 3).unwrap();
    assert_eq!(decoded.header, header);
    for (i, b) in decoded.blocks.iter().enumerate() {
        assert_eq!(b.as_deref(), Some(blocks[i].as_slice()), "block {i}");
    }
}

#[test]
fn filler_blocks_decode_as_none() {
    let header = test_header(9);
    let blocks = test_blocks(5, Layout::v0().block_payload_len(1), 0x11);
    let bm = encode_frame(&header, &blocks, 1);
    let decoded = decode_frame(&bm, 1).unwrap();
    for i in 0..5 {
        assert!(decoded.blocks[i].is_some());
    }
    for i in 5..20 {
        assert_eq!(decoded.blocks[i], None, "filler block {i} was recovered");
    }
}

#[test]
fn partial_corruption_recovers_intact_blocks() {
    let header = test_header(10);
    let blocks = test_blocks(20, Layout::v0().block_payload_len(1), 0x77);
    let mut bm = encode_frame(&header, &blocks, 1);

    // Black over blocks (bx, by) in (1..3, 1..3): cell rows 26..66, columns 20..60.
    for y in 26..66 {
        for x in 20..60 {
            bm.set(x, y, 0);
        }
    }
    let decoded = decode_frame(&bm, 1).unwrap();
    assert_eq!(decoded.header, header, "damage to the data area leaves the header alone");

    let expect_dead = [6usize, 7, 11, 12];
    for i in 0..20 {
        if expect_dead.contains(&i) {
            assert_eq!(decoded.blocks[i], None, "block {i} should be damaged");
        } else {
            assert_eq!(
                decoded.blocks[i].as_deref(),
                Some(blocks[i].as_slice()),
                "block {i} should be recovered intact"
            );
        }
    }
}

#[test]
fn corner_corruption_is_detected() {
    let header = test_header(11);
    let blocks = test_blocks(20, Layout::v0().block_payload_len(1), 0x33);
    let mut bm = encode_frame(&header, &blocks, 1);
    for y in 0..CORNER {
        for x in 0..CORNER {
            bm.set(x, y, 255);
        }
    }
    assert_eq!(decode_frame(&bm, 1).unwrap_err(), FrameError::CornerMismatch);
}
