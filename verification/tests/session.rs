use vloom::fountain::{can_encode, oti_symbol_size, oti_transfer_length, Encoder};
use vloom::frame::{decode_frame, Bitmap};
use vloom::layout::Layout;
use vloom::payload::{unwrap_payload, wrap_payload};
use vloom::receiver::{
    received_packets, rotate_y_plane, vcode_unwrap_file, vcode_unwrap_payload, FountainDecoder,
    FountainDecoderError, VcodeScanReport,
};
use vloom::sender::{packet_size, vcode_wrap_file, FountainEncoder, VcodeTx};

fn sample_payload(n: usize) -> Vec<u8> {
    (0..n).map(|i| (i as u8).wrapping_mul(29).wrapping_add((i >> 7) as u8)).collect()
}

fn oti_with(transfer_len: u64, symbol: u16, blocks: u8) -> Vec<u8> {
    let mut b = vec![0u8; 12];
    b[..5].copy_from_slice(&transfer_len.to_be_bytes()[3..]);
    b[6..8].copy_from_slice(&symbol.to_be_bytes());
    b[8] = blocks;
    b[9..11].copy_from_slice(&1u16.to_be_bytes());
    b[11] = 1;
    b
}

#[test]
fn fountain_decoder_refuses_bad_oti() {
    assert_eq!(FountainDecoder::new(&[0u8; 11]).err(), Some(FountainDecoderError::OtiLength(11)));
    assert_eq!(FountainDecoder::new(&[0u8; 13]).err(), Some(FountainDecoderError::OtiLength(13)));
    assert_eq!(
        FountainDecoder::new(&oti_with(0, 42, 1)).err(),
        Some(FountainDecoderError::DeclaredSizeInvalid)
    );
    assert_eq!(
        FountainDecoder::new(&oti_with(vloom::fountain::MAX_PAYLOAD_BYTES + 1, 42, 1)).err(),
        Some(FountainDecoderError::DeclaredSizeInvalid)
    );
    assert_eq!(FountainDecoder::new(&oti_with(1000, 0, 1)).err(), Some(FountainDecoderError::OtiUnusable));
    assert_eq!(FountainDecoder::new(&oti_with(1000, 42, 0)).err(), Some(FountainDecoderError::OtiUnusable));
    let d = FountainDecoder::new(&oti_with(1000, 42, 1)).ok().unwrap();
    assert_eq!(d.payload_size(), 1000);
    assert_eq!(d.packets_received(), 0);
    assert_eq!(d.payload(), None);
}

#[test]
fn fountain_encoder_and_decoder_round_trip() {
    let payload = sample_payload(3000);
    let enc = FountainEncoder::new(payload.clone(), 100, 10);
    let oti = enc.oti_bytes();
    assert_eq!(oti.len(), 12);
    let n = enc.packet_count();
    assert!(n >= 31);
    // Packet numbers wrap around the count.
    assert_eq!(enc.packet(n), enc.packet(0));
    assert_eq!(enc.packet(n + 3), enc.packet(3));

    let mut dec = FountainDecoder::new(&oti).ok().unwrap();
    assert_eq!(dec.payload_size(), 3000);
    // A packet of the wrong length is refused and not counted.
    assert!(!dec.add_packet(vec![0u8; 7]));
    assert_eq!(dec.packets_received(), 0);
    let mut done = false;
    let mut used = 0u32;
    for i in 0..n {
        used += 1;
        if dec.add_packet(enc.packet(i)) {
            done = true;
            break;
        }
    }
    assert!(done);
    assert_eq!(dec.packets_received(), used);
    assert_eq!(dec.payload(), Some(payload.clone()));
    // Once rebuilt, further packets change nothing.
    assert!(dec.add_packet(enc.packet(0)));
    assert_eq!(dec.packets_received(), used);
    assert_eq!(dec.payload(), Some(payload));
}

#[test]
fn fountain_symbol_size_follows_packet_size() {
    // 92 is rounded down to the 8-byte alignment RaptorQ uses from 64 up.
    let e = Encoder::new(&sample_payload(500), 92, 0);
    let oti = e.oti_bytes();
    assert_eq!(oti_symbol_size(&oti), 88);
    assert_eq!(oti_transfer_length(&oti), 500);
    assert_eq!(e.packet(0).len(), 4 + 88);
    let e = Encoder::new(&sample_payload(500), 42, 0);
    assert_eq!(oti_symbol_size(&e.oti_bytes()), 42);
    assert_eq!(e.packet_count(), 12);
}

#[test]
fn tx_layout_is_clamped() {
    let p = sample_payload(100);
    let t = VcodeTx::new(&p, 0, 1, 30, 1);
    assert_eq!((t.frame_width(), t.frame_height()), (40, 12 * 20 + 12));
    let t = VcodeTx::new(&p, 0, 7, 6, 2);
    assert_eq!((t.frame_width(), t.frame_height()), (140, 132));
    assert_eq!(t.bytes_per_frame(), 42 * 92);
    let t = VcodeTx::with_grid_limit(&p, 0, 15, 20, 3, 20);
    assert_eq!((t.frame_width(), t.frame_height()), (300, 412));
    assert_eq!(t.bytes_per_frame(), 300 * 42);
}

#[test]
fn tx_frame_count_covers_every_packet() {
    let p = sample_payload(5000);
    let t = VcodeTx::new(&p, 7, 5, 4, 1);
    let pc = t.packet_count();
    // 5004 bytes in 42-byte symbols: 120 source packets, plus 7 repair.
    assert_eq!(pc, 127);
    assert_eq!(t.frame_count(), 7);
    assert_eq!(t.frame_count(), (pc + 19) / 20);
}

#[test]
fn tx_frames_read_back_as_their_packets() {
    let p = sample_payload(5000);
    let t = VcodeTx::new(&p, 3, 5, 4, 2);
    let pc = t.packet_count() as usize;
    let fc = t.frame_count();
    let mut seen = vec![false; pc];
    let mut dec: Option<FountainDecoder> = None;
    let mut rebuilt = None;
    for i in 0..fc {
        let img = t.frame_gray(i);
        assert_eq!((img.width, img.height), (100, 92));
        let bm = Bitmap { w: img.width as usize, h: img.height as usize, data: img.pixels };
        let frame = decode_frame(&bm, 1).unwrap();
        assert_eq!(frame.header.frame_seq as u32, i);
        assert_eq!(frame.header.bits_per_cell, 2);
        let packets = received_packets(&frame);
        assert_eq!(packets.len(), 20);
        let enc = FountainEncoder::new(wrap_payload(&p), 92, 3);
        for (j, q) in packets.iter().enumerate() {
            let k = (i as usize * 20 + j) % pc;
            assert_eq!(q, &enc.packet(k as u32));
            seen[k] = true;
        }
        let d = dec.get_or_insert_with(|| FountainDecoder::new(&frame.header.oti).ok().unwrap());
        for q in packets {
            if d.add_packet(q) {
                rebuilt = d.payload();
            }
        }
    }
    assert!(seen.iter().all(|&s| s));
    let rebuilt = rebuilt.expect("one loop rebuilds the payload");
    assert_eq!(vcode_unwrap_payload(rebuilt), Some(p));
}

#[test]
fn tx_frame_sequence_wraps_at_16_bits() {
    let t = VcodeTx::new(&sample_payload(300), 0, 5, 4, 1);
    let img = t.frame_gray(65537);
    let bm = Bitmap { w: img.width as usize, h: img.height as usize, data: img.pixels };
    let frame = decode_frame(&bm, 1).unwrap();
    assert_eq!(frame.header.frame_seq, 1);
}

#[test]
fn scan_report_cuts_packets_to_their_length() {
    let p = sample_payload(800);
    let t = VcodeTx::new(&p, 0, 5, 4, 2);
    let img = t.frame_gray(0);
    let bm = Bitmap { w: img.width as usize, h: img.height as usize, data: img.pixels };
    let frame = decode_frame(&bm, 1).unwrap();
    // Every block carries 96 bytes; a packet is 4 + 88.
    assert!(frame.blocks.iter().all(|b| b.as_ref().map(|v| v.len()) == Some(96)));
    let oti = frame.header.oti;
    let r = VcodeScanReport::from_frame(frame, Layout::v0());
    assert!(r.detected());
    assert_eq!(r.blocks_ok(), 20);
    assert_eq!(r.blocks_total(), 20);
    assert_eq!(r.oti(), oti.to_vec());
    assert_eq!(r.packet_count(), 20);
    for i in 0..20 {
        assert_eq!(r.packet(i).len(), 92);
    }
    let f = VcodeScanReport::failed();
    assert!(!f.detected());
    assert_eq!((f.blocks_ok(), f.blocks_total(), f.packet_count()), (0, 0, 0));
    assert!(f.oti().is_empty());
}

#[test]
fn packet_size_by_cell_depth() {
    assert_eq!(packet_size(1), 42);
    assert_eq!(packet_size(2), 92);
    assert_eq!(packet_size(0), 42);
    assert_eq!(packet_size(7), 42);
}

#[test]
fn file_container_through_the_session_calls() {
    let wrapped = vcode_wrap_file("a.txt".to_string(), "text/plain".to_string(), vec![9, 8, 7]);
    let f = vcode_unwrap_file(wrapped).unwrap();
    assert_eq!(f.name(), "a.txt");
    assert_eq!(f.mime(), "text/plain");
    assert_eq!(f.data(), vec![9, 8, 7]);
    assert!(vcode_unwrap_file(b"plain".to_vec()).is_none());
    // A name that is not UTF-8 is refused.
    let mut bad = vcode_wrap_file("ab".to_string(), "".to_string(), vec![]);
    bad[7] = 0xFF;
    assert!(vcode_unwrap_file(bad).is_none());
}

#[test]
fn unwrap_payload_refuses_short_and_damaged() {
    assert_eq!(vcode_unwrap_payload(vec![]), None);
    assert_eq!(vcode_unwrap_payload(vec![1, 2, 3]), None);
    // CRC-32 of nothing is 0: four zero bytes unwrap to nothing.
    assert_eq!(vcode_unwrap_payload(vec![0, 0, 0, 0]), Some(vec![]));
    assert_eq!(unwrap_payload(&wrap_payload(b"")), Some(vec![]));
    assert_eq!(wrap_payload(b"123456789")[..4], [0xCB, 0xF4, 0x39, 0x26]);
}

#[test]
fn rotation_of_a_strided_plane() {
    // 3 x 2 plane, rows 4 bytes apart (the last byte of each row is padding).
    let y = [1u8, 2, 3, 99, 4, 5, 6, 99];
    let (g, w, h) = rotate_y_plane(&y, 3, 2, 4, 0);
    assert_eq!((g, w, h), (vec![1, 2, 3, 4, 5, 6], 3, 2));
    let (g, w, h) = rotate_y_plane(&y, 3, 2, 4, 90);
    assert_eq!((g, w, h), (vec![4, 1, 5, 2, 6, 3], 2, 3));
    let (g, w, h) = rotate_y_plane(&y, 3, 2, 4, 180);
    assert_eq!((g, w, h), (vec![6, 5, 4, 3, 2, 1], 3, 2));
    let (g, w, h) = rotate_y_plane(&y, 3, 2, 4, 270);
    assert_eq!((g, w, h), (vec![3, 6, 2, 5, 1, 4], 2, 3));
    let (g, _, _) = rotate_y_plane(&y, 3, 2, 4, 45);
    assert_eq!(g, vec![1, 2, 3, 4, 5, 6]);
}

#[test]
fn encodable_payload_sizes() {
    assert!(!can_encode(0, 42));
    assert!(!can_encode(1, 0));
    assert!(can_encode(1, 1));
    assert!(can_encode(100, 42));
    // At most 255 source blocks of 56403 symbols.
    assert!(can_encode(604_076_130, 42));
    assert!(!can_encode(604_076_131, 42));
    // 92 codes 88-byte symbols.
    assert!(can_encode(1_265_683_320, 92));
    assert!(!can_encode(1_265_683_321, 92));
}

#[test]
fn decoder_takes_unaligned_symbols_and_spare_blocks() {
    // 10 bytes in 42-byte symbols with alignment 8, spread over 3 source
    // blocks: one block of one symbol and two empty ones.
    let mut oti = oti_with(10, 42, 3);
    oti[11] = 8;
    let mut d = FountainDecoder::new(&oti).ok().unwrap();
    let mut p0 = vec![0u8, 0, 0, 0];
    p0.extend(1..=42u8);
    assert!(!d.add_packet(p0));
    assert_eq!(d.packets_received(), 1);
    assert!(!d.add_packet(vec![1u8, 0, 0, 0].into_iter().chain([0u8; 42]).collect()));
    assert!(d.add_packet(vec![2u8, 0, 0, 0].into_iter().chain([0u8; 42]).collect()));
    assert_eq!(d.packets_received(), 3);
    assert_eq!(d.payload(), Some((1..=10u8).collect::<Vec<u8>>()));
    // A packet for a block the OTI does not have is refused.
    let mut e = FountainDecoder::new(&oti).ok().unwrap();
    assert!(!e.add_packet(vec![3u8, 0, 0, 0].into_iter().chain([0u8; 42]).collect()));
    assert_eq!(e.packets_received(), 0);
}

#[test]
fn fountain_decoder_fed_the_encoder_packets_recovers_the_payload() {
    let payload = sample_payload(3000);
    let enc = Encoder::new(&payload, 92, 5);
    let mut d = FountainDecoder::new(enc.oti()).ok().unwrap();
    let n = enc.packet_count();
    let mut done_at = None;
    for i in 0..n {
        if d.add_packet(enc.packet(i)) && done_at.is_none() {
            done_at = Some(i);
        }
        // On the way it holds nothing or the payload.
        if let Some(p) = d.payload() {
            assert_eq!(p, payload);
        }
    }
    assert_eq!(d.payload(), Some(payload.clone()));
    // Source packets come first: the payload is back with the last of them,
    // and later packets are not counted.
    let k = (3000 + 87) / 88;
    assert_eq!(done_at, Some(k - 1));
    assert_eq!(d.packets_received() as usize, k);
    // Repair packets alone, from the end, rebuild it too.
    let mut r = FountainDecoder::new(enc.oti()).ok().unwrap();
    let mut i = n;
    while r.payload().is_none() && i > 0 {
        i -= 1;
        r.add_packet(enc.packet(i));
    }
    assert_eq!(r.payload(), Some(payload));
}

#[test]
fn unchecked_fountain_decoder_takes_any_declared_size() {
    let oti = oti_with(0, 42, 1);
    assert_eq!(FountainDecoder::new(&oti).err(), Some(FountainDecoderError::DeclaredSizeInvalid));
    let mut arr = [0u8; 12];
    arr.copy_from_slice(&oti);
    let d = FountainDecoder::from_oti_bytes(&arr);
    assert_eq!(d.payload_size(), 0);
    assert_eq!(d.packets_received(), 0);
    assert_eq!(d.payload(), None);
}
