//! CRC-32/ISO-HDLC (reflected polynomial 0xEDB88320, init and xorout all ones).

use vstd::prelude::*;

verus! {

/// One bit step of the reflected CRC register.
pub open spec fn crc_shift(c: u32) -> u32 {
    if c & 1 != 0 {
        (c >> 1) ^ 0xEDB8_8320u32
    } else {
        c >> 1
    }
}

/// `n` bit steps of the register.
pub open spec fn crc_shifts(c: u32, n: nat) -> u32
    decreases n,
{
    if n == 0 {
        c
    } else {
        crc_shift(crc_shifts(c, (n - 1) as nat))
    }
}

/// Feeds one byte into the register.
pub open spec fn crc_feed(c: u32, b: u8) -> u32 {
    crc_shifts(c ^ (b as u32), 8)
}

/// The register after feeding every byte of `s`, starting from all ones.
pub open spec fn crc_register(s: Seq<u8>) -> u32
    decreases s.len(),
{
    if s.len() == 0 {
        0xFFFF_FFFFu32
    } else {
        crc_feed(crc_register(s.drop_last()), s.last())
    }
}

/// CRC-32 of a byte sequence.
pub open spec fn spec_crc32(s: Seq<u8>) -> u32 {
    !crc_register(s)
}

/// CRC-32 of `data[lo..hi]`.
pub fn crc32_range(data: &[u8], lo: usize, hi: usize) -> (r: u32)
    requires
        lo <= hi <= data@.len(),
    ensures
        r == spec_crc32(data@.subrange(lo as int, hi as int)),
{
    let mut crc: u32 = 0xFFFF_FFFF;
    let mut i = lo;
    while i < hi
        invariant
            lo <= i <= hi,
            hi <= data@.len(),
            crc == crc_register(data@.subrange(lo as int, i as int)),
        decreases hi - i,
    {
        let b = data[i];
        crc = crc ^ (b as u32);
        let ghost c0 = crc;
        let mut k: u32 = 0;
        while k < 8
            invariant
                k <= 8,
                crc == crc_shifts(c0, k as nat),
            decreases 8 - k,
        {
            crc = if crc & 1 != 0 {
                (crc >> 1) ^ 0xEDB8_8320
            } else {
                crc >> 1
            };
            k = k + 1;
        }
        assert(data@.subrange(lo as int, i + 1).drop_last() =~= data@.subrange(lo as int, i as int));
        i = i + 1;
    }
    !crc
}

/// CRC-32/ISO-HDLC of `data`.
pub fn crc32(data: &[u8]) -> (r: u32)
    ensures
        r == spec_crc32(data@),
{
    assert(data@.subrange(0, data@.len() as int) =~= data@);
    crc32_range(data, 0, data.len())
}

/// One bit step loses nothing (the polynomial's top bit is set, so a shifted
/// register can be told from the polynomial), nor do exclusive-or with a
/// known value and complement.
proof fn lemma_register_steps_injective()
    by (bit_vector)
    ensures
        forall|a: u32, b: u32| #[trigger] crc_shift(a) == #[trigger] crc_shift(b) ==> a == b,
        forall|a: u32, b: u32, c: u32| #[trigger] (a ^ c) == #[trigger] (b ^ c) ==> a == b,
        forall|a: u32, b: u32, c: u32| #[trigger] (c ^ a) == #[trigger] (c ^ b) ==> a == b,
        forall|a: u32, b: u32| #[trigger] !a == #[trigger] !b ==> a == b,
{
}

proof fn lemma_shifts_injective(a: u32, b: u32, n: nat)
    requires
        crc_shifts(a, n) == crc_shifts(b, n),
    ensures
        a == b,
    decreases n,
{
    if n > 0 {
        lemma_register_steps_injective();
        assert(crc_shifts(a, (n - 1) as nat) == crc_shifts(b, (n - 1) as nat));
        lemma_shifts_injective(a, b, (n - 1) as nat);
    }
}

/// Two byte strings of one length that differ in exactly one byte leave
/// different registers.
proof fn lemma_register_one_byte(m: Seq<u8>, m2: Seq<u8>, k: int)
    requires
        m.len() == m2.len(),
        0 <= k < m.len(),
        m[k] != m2[k],
        forall|j: int| 0 <= j < m.len() && j != k ==> m[j] == m2[j],
    ensures
        crc_register(m) != crc_register(m2),
    decreases m.len(),
{
    lemma_register_steps_injective();
    let n = m.len() as int;
    let r = crc_register(m.drop_last());
    let r2 = crc_register(m2.drop_last());
    if k == n - 1 {
        assert(m.drop_last() =~= m2.drop_last());
        if crc_register(m) == crc_register(m2) {
            lemma_shifts_injective(r ^ (m.last() as u32), r2 ^ (m2.last() as u32), 8);
            assert((m.last() as u32) == (m2.last() as u32));
        }
    } else {
        lemma_register_one_byte(m.drop_last(), m2.drop_last(), k);
        assert(m.last() == m2.last());
        if crc_register(m) == crc_register(m2) {
            lemma_shifts_injective(r ^ (m.last() as u32), r2 ^ (m2.last() as u32), 8);
        }
    }
}

/// CRC-32 tells apart any two byte strings of one length that differ in
/// exactly one byte: changing one byte of a message changes its CRC-32.
pub proof fn lemma_crc_detects_one_byte(m: Seq<u8>, k: int, v: u8)
    requires
        0 <= k < m.len(),
        m[k] != v,
    ensures
        spec_crc32(m.update(k, v)) != spec_crc32(m),
{
    lemma_register_one_byte(m.update(k, v), m, k);
    lemma_register_steps_injective();
}

} // verus!
