//! Why a block filled with zero bytes reads as missing: the CRC-32 of its
//! zero payload is not the zero its CRC field holds, for both block sizes a
//! frame uses. Evaluated byte by byte from the register's definition.

use vstd::prelude::*;
use crate::bits::from_be32;
use crate::crc::{crc_feed, crc_register, crc_shift, crc_shifts, spec_crc32};
use crate::frame::recovered_block;
use crate::roundtrip::filler_block;

verus! {

/// Eight bit steps of the register, written out.
spec fn crc_shift8(c: u32) -> u32 {
    crc_shift(crc_shift(crc_shift(crc_shift(crc_shift(crc_shift(crc_shift(crc_shift(c))))))))
}

proof fn lemma_shifts8(c: u32)
    ensures
        crc_shifts(c, 8) == crc_shift8(c),
{
    reveal_with_fuel(crc_shifts, 9);
}

/// The register after `k` zero bytes.
spec fn zero_register(k: nat) -> u32
    decreases k,
{
    if k == 0 {
        0xFFFF_FFFFu32
    } else {
        crc_feed(zero_register((k - 1) as nat), 0u8)
    }
}

proof fn lemma_zero_register(k: nat)
    ensures
        crc_register(Seq::new(k, |j: int| 0u8)) == zero_register(k),
    decreases k,
{
    if k > 0 {
        lemma_zero_register((k - 1) as nat);
        assert(Seq::new(k, |j: int| 0u8).drop_last() =~= Seq::new((k - 1) as nat, |j: int| 0u8));
    }
}

/// The register after each of the first 96 zero bytes.
proof fn lemma_zero_steps()
    by (bit_vector)
    ensures
        crc_shift8(0xFFFFFFFFu32 ^ (0u8 as u32)) == 0x2DFD1072u32,
        crc_shift8(0x2DFD1072u32 ^ (0u8 as u32)) == 0xBE26ED00u32,
        crc_shift8(0xBE26ED00u32 ^ (0u8 as u32)) == 0x00BE26EDu32,
        crc_shift8(0x00BE26EDu32 ^ (0u8 as u32)) == 0xDEBB20E3u32,
        crc_shift8(0xDEBB20E3u32 ^ (0u8 as u32)) == 0x39DD08E2u32,
        crc_shift8(0x39DD08E2u32 ^ (0u8 as u32)) == 0x4E3D5E5Cu32,
        crc_shift8(0x4E3D5E5Cu32 ^ (0u8 as u32)) == 0x62932081u32,
        crc_shift8(0x62932081u32 ^ (0u8 as u32)) == 0x9ADD2096u32,
        crc_shift8(0x9ADD2096u32 ^ (0u8 as u32)) == 0x19F6EB51u32,
        crc_shift8(0x19F6EB51u32 ^ (0u8 as u32)) == 0x1C759789u32,
        crc_shift8(0x1C759789u32 ^ (0u8 as u32)) == 0x94784E13u32,
        crc_shift8(0x94784E13u32 ^ (0u8 as u32)) == 0x842A3990u32,
        crc_shift8(0x842A3990u32 ^ (0u8 as u32)) == 0xF08BB97Du32,
        crc_shift8(0xF08BB97Du32 ^ (0u8 as u32)) == 0x2E448638u32,
        crc_shift8(0x2E448638u32 ^ (0u8 as u32)) == 0x282CFC18u32,
        crc_shift8(0x282CFC18u32 ^ (0u8 as u32)) == 0x1344B4AAu32,
        crc_shift8(0x1344B4AAu32 ^ (0u8 as u32)) == 0x36100E42u32,
        crc_shift8(0x36100E42u32 ^ (0u8 as u32)) == 0x98E430B2u32,
        crc_shift8(0x98E430B2u32 ^ (0u8 as u32)) == 0x25F73690u32,
        crc_shift8(0x25F73690u32 ^ (0u8 as u32)) == 0xF02A6472u32,
        crc_shift8(0xF02A6472u32 ^ (0u8 as u32)) == 0xBEFB3A74u32,
        crc_shift8(0xBEFB3A74u32 ^ (0u8 as u32)) == 0x57D64E1Fu32,
        crc_shift8(0x57D64E1Fu32 ^ (0u8 as u32)) == 0x8D5FDBBBu32,
        crc_shift8(0x8D5FDBBBu32 ^ (0u8 as u32)) == 0x5C3E35DFu32,
        crc_shift8(0x5C3E35DFu32 ^ (0u8 as u32)) == 0x1630F170u32,
        crc_shift8(0x1630F170u32 ^ (0u8 as u32)) == 0x501341CDu32,
        crc_shift8(0x501341CDu32 ^ (0u8 as u32)) == 0xE585AD4Cu32,
        crc_shift8(0xE585AD4Cu32 ^ (0u8 as u32)) == 0x7F8F8816u32,
        crc_shift8(0x7F8F8816u32 ^ (0u8 as u32)) == 0xF4AB3AD9u32,
        crc_shift8(0xF4AB3AD9u32 ^ (0u8 as u32)) == 0xFFFBC14Au32,
        crc_shift8(0xFFFBC14Au32 ^ (0u8 as u32)) == 0x96F6534Fu32,
        crc_shift8(0x96F6534Fu32 ^ (0u8 as u32)) == 0xE6F5AA52u32,
        crc_shift8(0xE6F5AA52u32 ^ (0u8 as u32)) == 0x8583C572u32,
        crc_shift8(0x8583C572u32 ^ (0u8 as u32)) == 0xBE8E93D5u32,
        crc_shift8(0xBE8E93D5u32 ^ (0u8 as u32)) == 0xF607A8C8u32,
        crc_shift8(0xF607A8C8u32 ^ (0u8 as u32)) == 0x95494D2Au32,
        crc_shift8(0x95494D2Au32 ^ (0u8 as u32)) == 0xDB2E809Bu32,
        crc_shift8(0xDB2E809Bu32 ^ (0u8 as u32)) == 0x6706644Cu32,
        crc_shift8(0x6706644Cu32 ^ (0u8 as u32)) == 0x7F0D0BDFu32,
        crc_shift8(0x7F0D0BDFu32 ^ (0u8 as u32)) == 0x1613C24Eu32,
        crc_shift8(0x1613C24Eu32 ^ (0u8 as u32)) == 0x91727F55u32,
        crc_shift8(0x91727F55u32 ^ (0u8 as u32)) == 0x1B90D704u32,
        crc_shift8(0x1B90D704u32 ^ (0u8 as u32)) == 0x077654CEu32,
        crc_shift8(0x077654CEu32 ^ (0u8 as u32)) == 0x7CDB99E3u32,
        crc_shift8(0x7CDB99E3u32 ^ (0u8 as u32)) == 0x397F685Bu32,
        crc_shift8(0x397F685Bu32 ^ (0u8 as u32)) == 0xFC80F714u32,
        crc_shift8(0xFC80F714u32 ^ (0u8 as u32)) == 0x1A26548Au32,
        crc_shift8(0x1A26548Au32 ^ (0u8 as u32)) == 0x0D774C6Au32,
        crc_shift8(0x0D774C6Au32 ^ (0u8 as u32)) == 0xAD6AFF0Au32,
        crc_shift8(0xAD6AFF0Au32 ^ (0u8 as u32)) == 0xE07883E1u32,
        crc_shift8(0xE07883E1u32 ^ (0u8 as u32)) == 0xD7EDAA6Du32,
        crc_shift8(0xD7EDAA6Du32 ^ (0u8 as u32)) == 0x33D4F04Fu32,
        crc_shift8(0x33D4F04Fu32 ^ (0u8 as u32)) == 0xE65088F1u32,
        crc_shift8(0xE65088F1u32 ^ (0u8 as u32)) == 0xCA5C9202u32,
        crc_shift8(0xCA5C9202u32 ^ (0u8 as u32)) == 0xEEC43DBEu32,
        crc_shift8(0xEEC43DBEu32 ^ (0u8 as u32)) == 0x2C375AB6u32,
        crc_shift8(0x2C375AB6u32 ^ (0u8 as u32)) == 0x222E21E3u32,
        crc_shift8(0x222E21E3u32 ^ (0u8 as u32)) == 0x39219DE3u32,
        crc_shift8(0x39219DE3u32 ^ (0u8 as u32)) == 0x393A925Fu32,
        crc_shift8(0x393A925Fu32 ^ (0u8 as u32)) == 0xFBED76F7u32,
        crc_shift8(0xFBED76F7u32 ^ (0u8 as u32)) == 0x23228AC9u32,
        crc_shift8(0x23228AC9u32 ^ (0u8 as u32)) == 0xE29B589Eu32,
        crc_shift8(0xE29B589Eu32 ^ (0u8 as u32)) == 0x1755251Bu32,
        crc_shift8(0x1755251Bu32 ^ (0u8 as u32)) == 0x8A729CC9u32,
        crc_shift8(0x8A729CC9u32 ^ (0u8 as u32)) == 0xE2320888u32,
        crc_shift8(0xE2320888u32 ^ (0u8 as u32)) == 0xE381391Au32,
        crc_shift8(0xE381391Au32 ^ (0u8 as u32)) == 0xFD817843u32,
        crc_shift8(0xFD817843u32 ^ (0u8 as u32)) == 0xEF289152u32,
        crc_shift8(0xEF289152u32 ^ (0u8 as u32)) == 0x858A1849u32,
        crc_shift8(0x858A1849u32 ^ (0u8 as u32)) == 0x0F85732Cu32,
        crc_shift8(0x0F85732Cu32 ^ (0u8 as u32)) == 0x32D7E990u32,
        crc_shift8(0x32D7E990u32 ^ (0u8 as u32)) == 0xF03D44ADu32,
        crc_shift8(0xF03D44ADu32 ^ (0u8 as u32)) == 0xA897E211u32,
        crc_shift8(0xA897E211u32 ^ (0u8 as u32)) == 0x6A18B710u32,
        crc_shift8(0x6A18B710u32 ^ (0u8 as u32)) == 0x1DDD08D3u32,
        crc_shift8(0x1DDD08D3u32 ^ (0u8 as u32)) == 0x1FC75E66u32,
        crc_shift8(0x1FC75E66u32 ^ (0u8 as u32)) == 0xA4CE0333u32,
        crc_shift8(0xA4CE0333u32 ^ (0u8 as u32)) == 0xBF74AF15u32,
        crc_shift8(0xBF74AF15u32 ^ (0u8 as u32)) == 0x6D629044u32,
        crc_shift8(0x6D629044u32 ^ (0u8 as u32)) == 0x71DCE719u32,
        crc_shift8(0x71DCE719u32 ^ (0u8 as u32)) == 0x641A7427u32,
        crc_shift8(0x641A7427u32 ^ (0u8 as u32)) == 0xA56EAF1Fu32,
        crc_shift8(0xA56EAF1Fu32 ^ (0u8 as u32)) == 0x8DAD635Au32,
        crc_shift8(0x8DAD635Au32 ^ (0u8 as u32)) == 0x8B331589u32,
        crc_shift8(0x8B331589u32 ^ (0u8 as u32)) == 0x94EF0891u32,
        crc_shift8(0x94EF0891u32 ^ (0u8 as u32)) == 0x879C4CDAu32,
        crc_shift8(0x879C4CDAu32 ^ (0u8 as u32)) == 0x6681A786u32,
        crc_shift8(0x6681A786u32 ^ (0u8 as u32)) == 0x04BDA7B2u32,
        crc_shift8(0x04BDA7B2u32 ^ (0u8 as u32)) == 0x256B6F07u32,
        crc_shift8(0x256B6F07u32 ^ (0u8 as u32)) == 0x9E41FECCu32,
        crc_shift8(0x9E41FECCu32 ^ (0u8 as u32)) == 0x924CCF65u32,
        crc_shift8(0x924CCF65u32 ^ (0u8 as u32)) == 0x3D4AD918u32,
        crc_shift8(0x3D4AD918u32 ^ (0u8 as u32)) == 0x1351D28Fu32,
        crc_shift8(0x1351D28Fu32 ^ (0u8 as u32)) == 0x7D14CF63u32,
        crc_shift8(0x7D14CF63u32 ^ (0u8 as u32)) == 0xD4C6242Du32,
        crc_shift8(0xD4C6242Du32 ^ (0u8 as u32)) == 0x450B9A51u32,
{
}

/// CRC-32 of 46 and of 96 zero bytes (the payload of a zero-filled block at
/// one and at two bits per cell).
pub proof fn lemma_crc_of_zero_payloads()
    ensures
        spec_crc32(Seq::new(46, |j: int| 0u8)) == 0x037F_08EBu32,
        spec_crc32(Seq::new(96, |j: int| 0u8)) == 0xBAF4_65AEu32,
{
    lemma_zero_steps();
    assert(zero_register(0) == 0xFFFF_FFFFu32);
    lemma_shifts8(0xFFFFFFFFu32 ^ (0u8 as u32));
    assert(zero_register(1) == 0x2DFD1072u32);
    lemma_shifts8(0x2DFD1072u32 ^ (0u8 as u32));
    assert(zero_register(2) == 0xBE26ED00u32);
    lemma_shifts8(0xBE26ED00u32 ^ (0u8 as u32));
    assert(zero_register(3) == 0x00BE26EDu32);
    lemma_shifts8(0x00BE26EDu32 ^ (0u8 as u32));
    assert(zero_register(4) == 0xDEBB20E3u32);
    lemma_shifts8(0xDEBB20E3u32 ^ (0u8 as u32));
    assert(zero_register(5) == 0x39DD08E2u32);
    lemma_shifts8(0x39DD08E2u32 ^ (0u8 as u32));
    assert(zero_register(6) == 0x4E3D5E5Cu32);
    lemma_shifts8(0x4E3D5E5Cu32 ^ (0u8 as u32));
    assert(zero_register(7) == 0x62932081u32);
    lemma_shifts8(0x62932081u32 ^ (0u8 as u32));
    assert(zero_register(8) == 0x9ADD2096u32);
    lemma_shifts8(0x9ADD2096u32 ^ (0u8 as u32));
    assert(zero_register(9) == 0x19F6EB51u32);
    lemma_shifts8(0x19F6EB51u32 ^ (0u8 as u32));
    assert(zero_register(10) == 0x1C759789u32);
    lemma_shifts8(0x1C759789u32 ^ (0u8 as u32));
    assert(zero_register(11) == 0x94784E13u32);
    lemma_shifts8(0x94784E13u32 ^ (0u8 as u32));
    assert(zero_register(12) == 0x842A3990u32);
    lemma_shifts8(0x842A3990u32 ^ (0u8 as u32));
    assert(zero_register(13) == 0xF08BB97Du32);
    lemma_shifts8(0xF08BB97Du32 ^ (0u8 as u32));
    assert(zero_register(14) == 0x2E448638u32);
    lemma_shifts8(0x2E448638u32 ^ (0u8 as u32));
    assert(zero_register(15) == 0x282CFC18u32);
    lemma_shifts8(0x282CFC18u32 ^ (0u8 as u32));
    assert(zero_register(16) == 0x1344B4AAu32);
    lemma_shifts8(0x1344B4AAu32 ^ (0u8 as u32));
    assert(zero_register(17) == 0x36100E42u32);
    lemma_shifts8(0x36100E42u32 ^ (0u8 as u32));
    assert(zero_register(18) == 0x98E430B2u32);
    lemma_shifts8(0x98E430B2u32 ^ (0u8 as u32));
    assert(zero_register(19) == 0x25F73690u32);
    lemma_shifts8(0x25F73690u32 ^ (0u8 as u32));
    assert(zero_register(20) == 0xF02A6472u32);
    lemma_shifts8(0xF02A6472u32 ^ (0u8 as u32));
    assert(zero_register(21) == 0xBEFB3A74u32);
    lemma_shifts8(0xBEFB3A74u32 ^ (0u8 as u32));
    assert(zero_register(22) == 0x57D64E1Fu32);
    lemma_shifts8(0x57D64E1Fu32 ^ (0u8 as u32));
    assert(zero_register(23) == 0x8D5FDBBBu32);
    lemma_shifts8(0x8D5FDBBBu32 ^ (0u8 as u32));
    assert(zero_register(24) == 0x5C3E35DFu32);
    lemma_shifts8(0x5C3E35DFu32 ^ (0u8 as u32));
    assert(zero_register(25) == 0x1630F170u32);
    lemma_shifts8(0x1630F170u32 ^ (0u8 as u32));
    assert(zero_register(26) == 0x501341CDu32);
    lemma_shifts8(0x501341CDu32 ^ (0u8 as u32));
    assert(zero_register(27) == 0xE585AD4Cu32);
    lemma_shifts8(0xE585AD4Cu32 ^ (0u8 as u32));
    assert(zero_register(28) == 0x7F8F8816u32);
    lemma_shifts8(0x7F8F8816u32 ^ (0u8 as u32));
    assert(zero_register(29) == 0xF4AB3AD9u32);
    lemma_shifts8(0xF4AB3AD9u32 ^ (0u8 as u32));
    assert(zero_register(30) == 0xFFFBC14Au32);
    lemma_shifts8(0xFFFBC14Au32 ^ (0u8 as u32));
    assert(zero_register(31) == 0x96F6534Fu32);
    lemma_shifts8(0x96F6534Fu32 ^ (0u8 as u32));
    assert(zero_register(32) == 0xE6F5AA52u32);
    lemma_shifts8(0xE6F5AA52u32 ^ (0u8 as u32));
    assert(zero_register(33) == 0x8583C572u32);
    lemma_shifts8(0x8583C572u32 ^ (0u8 as u32));
    assert(zero_register(34) == 0xBE8E93D5u32);
    lemma_shifts8(0xBE8E93D5u32 ^ (0u8 as u32));
    assert(zero_register(35) == 0xF607A8C8u32);
    lemma_shifts8(0xF607A8C8u32 ^ (0u8 as u32));
    assert(zero_register(36) == 0x95494D2Au32);
    lemma_shifts8(0x95494D2Au32 ^ (0u8 as u32));
    assert(zero_register(37) == 0xDB2E809Bu32);
    lemma_shifts8(0xDB2E809Bu32 ^ (0u8 as u32));
    assert(zero_register(38) == 0x6706644Cu32);
    lemma_shifts8(0x6706644Cu32 ^ (0u8 as u32));
    assert(zero_register(39) == 0x7F0D0BDFu32);
    lemma_shifts8(0x7F0D0BDFu32 ^ (0u8 as u32));
    assert(zero_register(40) == 0x1613C24Eu32);
    lemma_shifts8(0x1613C24Eu32 ^ (0u8 as u32));
    assert(zero_register(41) == 0x91727F55u32);
    lemma_shifts8(0x91727F55u32 ^ (0u8 as u32));
    assert(zero_register(42) == 0x1B90D704u32);
    lemma_shifts8(0x1B90D704u32 ^ (0u8 as u32));
    assert(zero_register(43) == 0x077654CEu32);
    lemma_shifts8(0x077654CEu32 ^ (0u8 as u32));
    assert(zero_register(44) == 0x7CDB99E3u32);
    lemma_shifts8(0x7CDB99E3u32 ^ (0u8 as u32));
    assert(zero_register(45) == 0x397F685Bu32);
    lemma_shifts8(0x397F685Bu32 ^ (0u8 as u32));
    assert(zero_register(46) == 0xFC80F714u32);
    lemma_shifts8(0xFC80F714u32 ^ (0u8 as u32));
    assert(zero_register(47) == 0x1A26548Au32);
    lemma_shifts8(0x1A26548Au32 ^ (0u8 as u32));
    assert(zero_register(48) == 0x0D774C6Au32);
    lemma_shifts8(0x0D774C6Au32 ^ (0u8 as u32));
    assert(zero_register(49) == 0xAD6AFF0Au32);
    lemma_shifts8(0xAD6AFF0Au32 ^ (0u8 as u32));
    assert(zero_register(50) == 0xE07883E1u32);
    lemma_shifts8(0xE07883E1u32 ^ (0u8 as u32));
    assert(zero_register(51) == 0xD7EDAA6Du32);
    lemma_shifts8(0xD7EDAA6Du32 ^ (0u8 as u32));
    assert(zero_register(52) == 0x33D4F04Fu32);
    lemma_shifts8(0x33D4F04Fu32 ^ (0u8 as u32));
    assert(zero_register(53) == 0xE65088F1u32);
    lemma_shifts8(0xE65088F1u32 ^ (0u8 as u32));
    assert(zero_register(54) == 0xCA5C9202u32);
    lemma_shifts8(0xCA5C9202u32 ^ (0u8 as u32));
    assert(zero_register(55) == 0xEEC43DBEu32);
    lemma_shifts8(0xEEC43DBEu32 ^ (0u8 as u32));
    assert(zero_register(56) == 0x2C375AB6u32);
    lemma_shifts8(0x2C375AB6u32 ^ (0u8 as u32));
    assert(zero_register(57) == 0x222E21E3u32);
    lemma_shifts8(0x222E21E3u32 ^ (0u8 as u32));
    assert(zero_register(58) == 0x39219DE3u32);
    lemma_shifts8(0x39219DE3u32 ^ (0u8 as u32));
    assert(zero_register(59) == 0x393A925Fu32);
    lemma_shifts8(0x393A925Fu32 ^ (0u8 as u32));
    assert(zero_register(60) == 0xFBED76F7u32);
    lemma_shifts8(0xFBED76F7u32 ^ (0u8 as u32));
    assert(zero_register(61) == 0x23228AC9u32);
    lemma_shifts8(0x23228AC9u32 ^ (0u8 as u32));
    assert(zero_register(62) == 0xE29B589Eu32);
    lemma_shifts8(0xE29B589Eu32 ^ (0u8 as u32));
    assert(zero_register(63) == 0x1755251Bu32);
    lemma_shifts8(0x1755251Bu32 ^ (0u8 as u32));
    assert(zero_register(64) == 0x8A729CC9u32);
    lemma_shifts8(0x8A729CC9u32 ^ (0u8 as u32));
    assert(zero_register(65) == 0xE2320888u32);
    lemma_shifts8(0xE2320888u32 ^ (0u8 as u32));
    assert(zero_register(66) == 0xE381391Au32);
    lemma_shifts8(0xE381391Au32 ^ (0u8 as u32));
    assert(zero_register(67) == 0xFD817843u32);
    lemma_shifts8(0xFD817843u32 ^ (0u8 as u32));
    assert(zero_register(68) == 0xEF289152u32);
    lemma_shifts8(0xEF289152u32 ^ (0u8 as u32));
    assert(zero_register(69) == 0x858A1849u32);
    lemma_shifts8(0x858A1849u32 ^ (0u8 as u32));
    assert(zero_register(70) == 0x0F85732Cu32);
    lemma_shifts8(0x0F85732Cu32 ^ (0u8 as u32));
    assert(zero_register(71) == 0x32D7E990u32);
    lemma_shifts8(0x32D7E990u32 ^ (0u8 as u32));
    assert(zero_register(72) == 0xF03D44ADu32);
    lemma_shifts8(0xF03D44ADu32 ^ (0u8 as u32));
    assert(zero_register(73) == 0xA897E211u32);
    lemma_shifts8(0xA897E211u32 ^ (0u8 as u32));
    assert(zero_register(74) == 0x6A18B710u32);
    lemma_shifts8(0x6A18B710u32 ^ (0u8 as u32));
    assert(zero_register(75) == 0x1DDD08D3u32);
    lemma_shifts8(0x1DDD08D3u32 ^ (0u8 as u32));
    assert(zero_register(76) == 0x1FC75E66u32);
    lemma_shifts8(0x1FC75E66u32 ^ (0u8 as u32));
    assert(zero_register(77) == 0xA4CE0333u32);
    lemma_shifts8(0xA4CE0333u32 ^ (0u8 as u32));
    assert(zero_register(78) == 0xBF74AF15u32);
    lemma_shifts8(0xBF74AF15u32 ^ (0u8 as u32));
    assert(zero_register(79) == 0x6D629044u32);
    lemma_shifts8(0x6D629044u32 ^ (0u8 as u32));
    assert(zero_register(80) == 0x71DCE719u32);
    lemma_shifts8(0x71DCE719u32 ^ (0u8 as u32));
    assert(zero_register(81) == 0x641A7427u32);
    lemma_shifts8(0x641A7427u32 ^ (0u8 as u32));
    assert(zero_register(82) == 0xA56EAF1Fu32);
    lemma_shifts8(0xA56EAF1Fu32 ^ (0u8 as u32));
    assert(zero_register(83) == 0x8DAD635Au32);
    lemma_shifts8(0x8DAD635Au32 ^ (0u8 as u32));
    assert(zero_register(84) == 0x8B331589u32);
    lemma_shifts8(0x8B331589u32 ^ (0u8 as u32));
    assert(zero_register(85) == 0x94EF0891u32);
    lemma_shifts8(0x94EF0891u32 ^ (0u8 as u32));
    assert(zero_register(86) == 0x879C4CDAu32);
    lemma_shifts8(0x879C4CDAu32 ^ (0u8 as u32));
    assert(zero_register(87) == 0x6681A786u32);
    lemma_shifts8(0x6681A786u32 ^ (0u8 as u32));
    assert(zero_register(88) == 0x04BDA7B2u32);
    lemma_shifts8(0x04BDA7B2u32 ^ (0u8 as u32));
    assert(zero_register(89) == 0x256B6F07u32);
    lemma_shifts8(0x256B6F07u32 ^ (0u8 as u32));
    assert(zero_register(90) == 0x9E41FECCu32);
    lemma_shifts8(0x9E41FECCu32 ^ (0u8 as u32));
    assert(zero_register(91) == 0x924CCF65u32);
    lemma_shifts8(0x924CCF65u32 ^ (0u8 as u32));
    assert(zero_register(92) == 0x3D4AD918u32);
    lemma_shifts8(0x3D4AD918u32 ^ (0u8 as u32));
    assert(zero_register(93) == 0x1351D28Fu32);
    lemma_shifts8(0x1351D28Fu32 ^ (0u8 as u32));
    assert(zero_register(94) == 0x7D14CF63u32);
    lemma_shifts8(0x7D14CF63u32 ^ (0u8 as u32));
    assert(zero_register(95) == 0xD4C6242Du32);
    lemma_shifts8(0xD4C6242Du32 ^ (0u8 as u32));
    assert(zero_register(96) == 0x450B9A51u32);
    lemma_zero_register(46);
    lemma_zero_register(96);
    assert(!0xFC80F714u32 == 0x037F_08EBu32) by (bit_vector);
    assert(!0x450B9A51u32 == 0xBAF4_65AEu32) by (bit_vector);
}

/// The blocks a frame leaves without a payload (all zero bytes) read as
/// missing, at one and at two bits per cell of the common block size.
pub proof fn lemma_filler_blocks_read_missing()
    ensures
        filler_block(50, 46) is None,
        filler_block(100, 96) is None,
{
    lemma_crc_of_zero_payloads();
    let z50 = Seq::new(50, |j: int| 0u8);
    let z100 = Seq::new(100, |j: int| 0u8);
    assert(z50.subrange(0, 46) =~= Seq::new(46, |j: int| 0u8));
    assert(z100.subrange(0, 96) =~= Seq::new(96, |j: int| 0u8));
    assert(((0u8 as u32) << 24u32) | ((0u8 as u32) << 16u32) | ((0u8 as u32) << 8u32) | (0u8
        as u32) == 0u32) by (bit_vector);
    let t4 = z50.subrange(46, 50);
    let u4 = z100.subrange(96, 100);
    assert(t4[0] == 0u8 && t4[1] == 0u8 && t4[2] == 0u8 && t4[3] == 0u8);
    assert(u4[0] == 0u8 && u4[1] == 0u8 && u4[2] == 0u8 && u4[3] == 0u8);
    assert(from_be32(t4) == 0u32);
    assert(from_be32(u4) == 0u32);
    assert(recovered_block(z50, 46) is None);
    assert(recovered_block(z100, 96) is None);
}

} // verus!
