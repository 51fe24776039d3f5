use vloom::bits::{bits_to_bytes_range, byte_bits};
use vloom::crc::{crc32, crc32_range};
use vloom::frame::{decode_frame, encode_frame, Bitmap, FrameError};
use vloom::header::{FrameHeader, VERSION};
use vloom::layout::Layout;
use vloom::payload::{unwrap_file, wrap_file};

fn header(bpc: u8, layout: Layout) -> FrameHeader {
    FrameHeader { version: VERSION, bits_per_cell: bpc, layout, frame_seq: 77, oti: [9; 12] }
}

#[test]
fn crc32_of_ranges() {
    assert_eq!(crc32(b""), 0);
    assert_eq!(crc32_range(b"xx123456789yy", 2, 11), 0xCBF43926);
    assert_eq!(crc32(b"a"), 0xE8B7BE43);
}

#[test]
fn bits_round_trip() {
    let bytes = [0x80u8, 0x01, 0xA5];
    let bits = byte_bits(&bytes);
    assert_eq!(bits.len(), 24);
    assert!(bits[0] && !bits[1] && bits[15] && bits[16] && !bits[17]);
    assert_eq!(bits_to_bytes_range(&bits, 0, 24), bytes.to_vec());
    assert_eq!(bits_to_bytes_range(&bits, 8, 16), vec![0x01]);
    // A trailing partial byte is read as the high bits of a byte.
    assert_eq!(bits_to_bytes_range(&bits, 16, 20), vec![0x0A]);
}

#[test]
fn every_header_byte_is_protected() {
    let h = header(2, Layout::v1_dense());
    let buf = h.serialize();
    assert_eq!(FrameHeader::deserialize(&buf), Some(h));
    for i in 0..24 {
        let mut bad = buf;
        bad[i] ^= 0x10;
        assert_eq!(FrameHeader::deserialize(&bad), None, "byte {i}");
    }
    assert_eq!(FrameHeader::deserialize(&buf[..23]), None);
}

#[test]
fn dense_layout_capacities() {
    let c = Layout::candidates();
    assert_eq!(c[0], Layout::v1_dense());
    let expect = [(140, 132, 42), (100, 92, 20), (180, 172, 72), (220, 212, 110)];
    for (l, (w, h, n)) in c.iter().zip(expect) {
        assert_eq!((l.width(), l.height(), l.block_count()), (w, h, n));
    }
    assert_eq!(Layout::from_grid(3, 2).width(), 60);
}

#[test]
fn dense_frame_round_trip_with_fillers() {
    let l = Layout::v1_dense();
    let h = header(2, l);
    let blocks: Vec<Vec<u8>> =
        (0..30).map(|b| (0..l.block_payload_len(2)).map(|i| (i * 7 + b) as u8).collect()).collect();
    let bm = encode_frame(&h, &blocks, 2);
    assert_eq!((bm.w, bm.h), (280, 264));
    let d = decode_frame(&bm, 2).unwrap();
    assert_eq!(d.header, h);
    for i in 0..42 {
        if i < 30 {
            assert_eq!(d.blocks[i].as_deref(), Some(blocks[i].as_slice()));
        } else {
            assert_eq!(d.blocks[i], None);
        }
    }
}

#[test]
fn decode_errors() {
    let white = Bitmap::new_white(100, 92);
    assert_eq!(decode_frame(&white, 0).unwrap_err(), FrameError::BadDimensions);
    assert_eq!(decode_frame(&white, 3).unwrap_err(), FrameError::BadDimensions);
    assert_eq!(decode_frame(&Bitmap::new_white(10, 10), 1).unwrap_err(), FrameError::BadDimensions);
    assert_eq!(decode_frame(&white, 1).unwrap_err(), FrameError::CornerMismatch);
    // Corners intact, header area wiped: no header.
    let h = header(1, Layout::v0());
    let mut bm = encode_frame(&h, &[], 1);
    for y in 1..6 {
        for x in 6..94 {
            bm.set(x, y, 255);
        }
    }
    assert_eq!(decode_frame(&bm, 1).unwrap_err(), FrameError::HeaderNotFound);
    // A header with a cell depth other than 1 or 2, or for another grid,
    // written over the header area.
    for bad in [header(3, Layout::v0()), header(1, Layout::v1_dense())] {
        let bits = byte_bits(&bad.serialize());
        let mut bm = encode_frame(&h, &[], 1);
        for i in 0..384 {
            bm.set(6 + i % 88, 1 + i / 88, if bits[i % 192] { 0 } else { 255 });
        }
        assert_eq!(decode_frame(&bm, 1).unwrap_err(), FrameError::LayoutMismatch);
    }
}

#[test]
fn long_names_are_cut_to_the_length_field() {
    let name = "n".repeat(70_000);
    let wrapped = wrap_file(&name, "m", &[1]);
    let got = unwrap_file(&wrapped).unwrap();
    assert_eq!(got.name.len(), 65_535);
    assert_eq!(got.mime, "m");
    assert_eq!(got.data, vec![1]);
}

#[test]
fn every_payload_byte_is_protected() {
    let wrapped = vloom::payload::wrap_payload(b"fountain");
    for k in 0..wrapped.len() {
        for flip in [0x01u8, 0x80, 0xFF] {
            let mut bad = wrapped.clone();
            bad[k] ^= flip;
            assert_eq!(vloom::payload::unwrap_payload(&bad), None, "byte {k}");
        }
    }
}

#[test]
fn one_damaged_cell_costs_one_block() {
    let h = header(1, Layout::v0());
    let blocks: Vec<Vec<u8>> = (0..20).map(|b| (0..46).map(|i| (i * 3 + b * 5) as u8).collect()).collect();
    let mut bm = encode_frame(&h, &blocks, 1);
    // Block 7 is block (2, 1): cells from row 26, column 40.
    let v = bm.get(45, 30);
    bm.set(45, 30, 255 - v);
    let d = decode_frame(&bm, 1).unwrap();
    for i in 0..20 {
        if i == 7 {
            assert_eq!(d.blocks[i], None);
        } else {
            assert_eq!(d.blocks[i].as_deref(), Some(blocks[i].as_slice()));
        }
    }
}

#[test]
fn blocks_without_room_for_a_crc_are_a_layout_mismatch() {
    // A header that passes its CRC and describes this very grid, but blocks
    // of 16 bits: no room for a CRC-32.
    let tiny = Layout { block: 4, grid_w: 13, grid_h: 1 };
    let bm = encode_frame(&header(1, tiny), &[], 1);
    assert_eq!((bm.w, bm.h), (52, 16));
    assert_eq!(decode_frame(&bm, 1).unwrap_err(), FrameError::LayoutMismatch);
    // Blocks of exactly 32 bits (no payload, a CRC-32) read.
    let bm = encode_frame(&header(2, tiny), &[], 1);
    let d = decode_frame(&bm, 1).unwrap();
    assert_eq!(d.blocks.len(), 13);
}
