use vloom::fountain::{oti_symbol_size, Encoder, PayloadDecoder};
use vloom::frame::{decode_frame, encode_frame, Bitmap};
use vloom::header::{FrameHeader, VERSION};
use vloom::layout::{Layout, STRIP_H};

const PAYLOAD_LEN: usize = 20_000;

fn test_payload() -> Vec<u8> {
    (0..PAYLOAD_LEN).map(|i| (i as u8).wrapping_mul(37).wrapping_add((i >> 8) as u8)).collect()
}

/// Deterministic pseudo-random numbers (std only, for reproducibility).
struct Lcg(u64);

impl Lcg {
    fn next(&mut self) -> u32 {
        self.0 = self.0.wrapping_mul(6364136223846793005).wrapping_add(1442695040888963407);
        (self.0 >> 33) as u32
    }
}

/// The sender's frames for an encoder.
fn build_frames(encoder: &Encoder, layout: Layout) -> Vec<Bitmap> {
    let per_frame = layout.block_count();
    let n_frames = encoder.packet_count().div_ceil(per_frame);
    (0..n_frames)
        .map(|f| {
            let header = FrameHeader {
                version: VERSION,
                bits_per_cell: 1,
                layout,
                frame_seq: f as u16,
                oti: encoder.oti_bytes(),
            };
            let blocks: Vec<Vec<u8>> = (f * per_frame..encoder.packet_count())
                .take(per_frame)
                .map(|i| encoder.packet(i))
                .collect();
            encode_frame(&header, &blocks, 1)
        })
        .collect()
}

#[test]
fn e2e_no_loss() {
    let payload = test_payload();
    let layout = Layout::v0();
    let encoder = Encoder::new(&payload, layout.packet_size(1) as u16, 0);
    let frames = build_frames(&encoder, layout);

    // The OTI comes from a frame header.
    let first = decode_frame(&frames[0], 1).unwrap();
    let mut decoder = PayloadDecoder::from_oti_bytes(&first.header.oti);

    for bm in &frames {
        let decoded = decode_frame(bm, 1).unwrap();
        for block in decoded.blocks.into_iter().flatten() {
            if let Some(out) = decoder.add_packet(&block) {
                assert_eq!(out, payload);
                return;
            }
        }
    }
    panic!("could not rebuild without loss");
}

#[test]
fn e2e_2bpc_with_padding() {
    let payload = test_payload();
    let layout = Layout::v0();
    let bpc = 2u8;
    let encoder = Encoder::new(&payload, layout.packet_size(bpc) as u16, 0);
    let payload_len = layout.block_payload_len(bpc);

    let per_frame = layout.block_count();
    let pc = encoder.packet_count();
    let n_frames = pc.div_ceil(per_frame);
    let mut oti = [0u8; 12];
    oti.copy_from_slice(&encoder.oti_bytes());
    let pkt_len = 4 + oti_symbol_size(&oti) as usize;
    assert!(pkt_len <= payload_len, "a packet must fit a block");

    let mut decoder = PayloadDecoder::from_oti_bytes(&oti);
    for f in 0..n_frames {
        let header = FrameHeader {
            version: VERSION,
            bits_per_cell: bpc,
            layout,
            frame_seq: f as u16,
            oti,
        };
        let blocks: Vec<Vec<u8>> = (0..per_frame)
            .map(|j| {
                let mut p = encoder.packet((f * per_frame + j) % pc);
                p.resize(payload_len, 0);
                p
            })
            .collect();
        let bm = encode_frame(&header, &blocks, 1);
        let decoded = decode_frame(&bm, 1).unwrap();
        assert_eq!(decoded.header.bits_per_cell, 2);
        for block in decoded.blocks.into_iter().flatten() {
            let packet = &block[..pkt_len];
            if let Some(out) = decoder.add_packet(packet) {
                assert_eq!(out, payload);
                return;
            }
        }
    }
    panic!("could not rebuild with 2 bits per cell and padding");
}

#[test]
fn e2e_with_block_corruption() {
    let payload = test_payload();
    let layout = Layout::v0();
    // 30% of blocks damaged: 60% repair packets.
    let source_packets = PAYLOAD_LEN.div_ceil(layout.packet_size(1));
    let encoder =
        Encoder::new(&payload, layout.packet_size(1) as u16, (source_packets * 6 / 10) as u32);
    let frames = build_frames(&encoder, layout);

    let mut rng = Lcg(0xBEEF);
    let mut corrupted_blocks = 0usize;
    let mut recovered_blocks = 0usize;
    let mut decoder: Option<PayloadDecoder> = None;

    for bm in &frames {
        // Each block area is painted black with probability 30%.
        let mut damaged = Bitmap { w: bm.w, h: bm.h, data: bm.data.clone() };
        let block = layout.block;
        for by in 0..layout.grid_h {
            for bx in 0..layout.grid_w {
                if rng.next() % 100 < 30 {
                    corrupted_blocks += 1;
                    for y in 0..block {
                        for x in 0..block {
                            damaged.set(bx * block + x, STRIP_H + by * block + y, 0);
                        }
                    }
                }
            }
        }

        let decoded = decode_frame(&damaged, 1).expect("header and corners are intact");
        let dec = decoder.get_or_insert_with(|| PayloadDecoder::from_oti_bytes(&decoded.header.oti));

        for block in decoded.blocks.into_iter().flatten() {
            recovered_blocks += 1;
            if let Some(out) = dec.add_packet(&block) {
                assert_eq!(out, payload, "payload differs after a damaging channel");
                assert!(corrupted_blocks > 0, "the channel damaged nothing");
                println!("rebuilt with {} damaged and {} recovered blocks", corrupted_blocks, recovered_blocks);
                return;
            }
        }
    }
    panic!(
        "could not rebuild with 30% of blocks damaged ({} damaged / {} recovered)",
        corrupted_blocks, recovered_blocks
    );
}
