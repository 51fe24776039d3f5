use vloom::fountain::{Encoder, PayloadDecoder, MAX_PAYLOAD_BYTES};

fn oti_bytes(transfer_len: u64) -> [u8; 12] {
    let mut b = [0u8; 12];
    b[..5].copy_from_slice(&transfer_len.to_be_bytes()[3..]);
    b[6..8].copy_from_slice(&42u16.to_be_bytes());
    b[8] = 1;
    b[9..11].copy_from_slice(&1u16.to_be_bytes());
    b[11] = 1;
    b
}

#[test]
fn oversized_declared_length_is_rejected() {
    assert!(PayloadDecoder::from_oti_bytes_checked(&oti_bytes(1 << 20)).is_some());
    assert!(PayloadDecoder::from_oti_bytes_checked(&oti_bytes(MAX_PAYLOAD_BYTES)).is_some());
    assert!(PayloadDecoder::from_oti_bytes_checked(&oti_bytes(MAX_PAYLOAD_BYTES + 1)).is_none());
    assert!(PayloadDecoder::from_oti_bytes_checked(&oti_bytes(0)).is_none());
}

#[test]
fn roundtrip_no_loss() {
    let payload: Vec<u8> = (0..2000).map(|i| (i as u8).wrapping_mul(31)).collect();
    let encoder = Encoder::new(&payload, 200, 20);
    let oti_bytes = encoder.oti_bytes();
    let mut decoder = PayloadDecoder::from_oti_bytes(&oti_bytes);
    for i in 0..encoder.packet_count() {
        if let Some(out) = decoder.add_packet(&encoder.packet(i)) {
            assert_eq!(out, payload);
            return;
        }
    }
    panic!("did not recover");
}

#[test]
fn recovers_with_50pct_loss() {
    let payload: Vec<u8> = (0..5000).map(|i| (i as u8).wrapping_mul(13)).collect();
    let encoder = Encoder::new(&payload, 250, 30);
    let oti_bytes = encoder.oti_bytes();
    let mut decoder = PayloadDecoder::from_oti_bytes(&oti_bytes);
    // Only the even-numbered packets arrive (50% loss).
    for i in (0..encoder.packet_count()).step_by(2) {
        if let Some(out) = decoder.add_packet(&encoder.packet(i)) {
            assert_eq!(out, payload);
            return;
        }
    }
    panic!("did not recover at 50% loss");
}

#[test]
fn large_payload_200kb() {
    let payload: Vec<u8> = (0..200_000).map(|i| (i as u8).wrapping_mul(7)).collect();
    let encoder = Encoder::new(&payload, 500, 100);
    assert!(encoder.packet_count() >= 400 && encoder.packet_count() <= 600);
    let oti_bytes = encoder.oti_bytes();
    let mut decoder = PayloadDecoder::from_oti_bytes(&oti_bytes);
    for i in 0..encoder.packet_count() {
        if let Some(out) = decoder.add_packet(&encoder.packet(i)) {
            assert_eq!(out.len(), payload.len());
            assert_eq!(out, payload);
            return;
        }
    }
    panic!("did not recover 200KB payload");
}
