//! Bit and byte packing used by the frame format: MSB-first bit strings,
//! big-endian 32-bit and little-endian 16-bit integers.

use vstd::prelude::*;

verus! {

/// Bit `j` (0 = most significant) of `b`.
pub open spec fn byte_bit(b: u8, j: int) -> bool {
    (b >> ((7 - j) as u8)) & 1u8 == 1u8
}

/// The eight bits of `b`, most significant first.
pub open spec fn bits_of_byte(b: u8) -> Seq<bool> {
    Seq::new(8, |j: int| byte_bit(b, j))
}

/// The bits of a byte string, each byte most significant bit first.
pub open spec fn bytes_to_bits(s: Seq<u8>) -> Seq<bool> {
    Seq::new((8 * s.len()) as nat, |i: int| byte_bit(s[i / 8], i % 8))
}

/// The number whose binary digits, most significant first, are `bits`.
pub open spec fn pack_bits(bits: Seq<bool>) -> nat
    decreases bits.len(),
{
    if bits.len() == 0 {
        0
    } else {
        2 * pack_bits(bits.drop_last()) + (if bits.last() { 1nat } else { 0nat })
    }
}

pub open spec fn min_int(a: int, b: int) -> int {
    if a <= b { a } else { b }
}

/// Groups a bit string into bytes, eight bits each, the last group possibly
/// shorter (and then packed into its low bits).
pub open spec fn bits_to_bytes_spec(bits: Seq<bool>) -> Seq<u8> {
    Seq::new(
        ((bits.len() + 7) / 8) as nat,
        |i: int| pack_bits(bits.subrange(8 * i, min_int(8 * i + 8, bits.len() as int))) as u8,
    )
}

/// Big-endian bytes of a 32-bit integer.
pub open spec fn be32(x: u32) -> Seq<u8> {
    seq![(x >> 24u32) as u8, (x >> 16u32) as u8, (x >> 8u32) as u8, x as u8]
}

/// The 32-bit integer whose big-endian bytes are `s[0..4]`.
pub open spec fn from_be32(s: Seq<u8>) -> u32 {
    ((s[0] as u32) << 24u32) | ((s[1] as u32) << 16u32) | ((s[2] as u32) << 8u32) | (s[3] as u32)
}

/// Little-endian bytes of a 16-bit integer.
pub open spec fn le16(x: u16) -> Seq<u8> {
    seq![x as u8, (x >> 8u16) as u8]
}

/// The 16-bit integer whose little-endian bytes are `s[0..2]`.
pub open spec fn from_le16(s: Seq<u8>) -> u16 {
    (s[0] as u16) | ((s[1] as u16) << 8u16)
}

pub proof fn lemma_pack_bits_bound(bits: Seq<bool>)
    ensures
        pack_bits(bits) < vstd::arithmetic::power2::pow2(bits.len()),
    decreases bits.len(),
{
    if bits.len() > 0 {
        lemma_pack_bits_bound(bits.drop_last());
        vstd::arithmetic::power2::lemma_pow2_unfold(bits.len());
    } else {
        vstd::arithmetic::power2::lemma2_to64();
    }
}

/// Packing the eight bits of a byte gives the byte back.
pub proof fn lemma_pack_byte(b: u8)
    ensures
        pack_bits(bits_of_byte(b)) == b as nat,
{
    let s = bits_of_byte(b);
    let s7 = s.drop_last();
    let s6 = s7.drop_last();
    let s5 = s6.drop_last();
    let s4 = s5.drop_last();
    let s3 = s4.drop_last();
    let s2 = s3.drop_last();
    let s1 = s2.drop_last();
    let s0 = s1.drop_last();
    assert(s0.len() == 0);
    assert(pack_bits(s0) == 0);
    let v = |k: u8| -> nat { if (b >> k) & 1u8 == 1u8 { 1nat } else { 0nat } };
    assert(pack_bits(s1) == v(7));
    assert(pack_bits(s2) == 2 * v(7) + v(6));
    assert(pack_bits(s3) == 4 * v(7) + 2 * v(6) + v(5));
    assert(pack_bits(s4) == 8 * v(7) + 4 * v(6) + 2 * v(5) + v(4));
    assert(pack_bits(s5) == 16 * v(7) + 8 * v(6) + 4 * v(5) + 2 * v(4) + v(3));
    assert(pack_bits(s6) == 32 * v(7) + 16 * v(6) + 8 * v(5) + 4 * v(4) + 2 * v(3) + v(2));
    assert(pack_bits(s7) == 64 * v(7) + 32 * v(6) + 16 * v(5) + 8 * v(4) + 4 * v(3) + 2 * v(2)
        + v(1));
    assert(pack_bits(s) == 128 * v(7) + 64 * v(6) + 32 * v(5) + 16 * v(4) + 8 * v(3) + 4 * v(2)
        + 2 * v(1) + v(0));
    assert(b == 128 * ((b >> 7u8) & 1u8) + 64 * ((b >> 6u8) & 1u8) + 32 * ((b >> 5u8) & 1u8) + 16
        * ((b >> 4u8) & 1u8) + 8 * ((b >> 3u8) & 1u8) + 4 * ((b >> 2u8) & 1u8) + 2 * ((b >> 1u8)
        & 1u8) + ((b >> 0u8) & 1u8)) by (bit_vector);
    assert forall|k: u8| k < 8 implies #[trigger] v(k) == ((b >> k) & 1u8) as nat by {
        assert((b >> k) & 1u8 == 0u8 || (b >> k) & 1u8 == 1u8) by (bit_vector);
    }
    assert(v(0) == ((b >> 0u8) & 1u8) as nat);
    assert(v(1) == ((b >> 1u8) & 1u8) as nat);
    assert(v(2) == ((b >> 2u8) & 1u8) as nat);
    assert(v(3) == ((b >> 3u8) & 1u8) as nat);
    assert(v(4) == ((b >> 4u8) & 1u8) as nat);
    assert(v(5) == ((b >> 5u8) & 1u8) as nat);
    assert(v(6) == ((b >> 6u8) & 1u8) as nat);
    assert(v(7) == ((b >> 7u8) & 1u8) as nat);
}

/// Regrouping the bits of a byte string gives the byte string back.
pub proof fn lemma_bits_bytes_roundtrip(s: Seq<u8>)
    ensures
        bits_to_bytes_spec(bytes_to_bits(s)) == s,
{
    let bits = bytes_to_bits(s);
    let r = bits_to_bytes_spec(bits);
    assert(r.len() == s.len());
    assert forall|i: int| 0 <= i < s.len() implies r[i] == s[i] by {
        let chunk = bits.subrange(8 * i, 8 * i + 8);
        assert(min_int(8 * i + 8, bits.len() as int) == 8 * i + 8);
        assert forall|j: int| 0 <= j < 8 implies chunk[j] == bits_of_byte(s[i])[j] by {
            assert((8 * i + j) / 8 == i) by (nonlinear_arith)
                requires
                    0 <= j < 8,
            ;
            assert((8 * i + j) % 8 == j) by (nonlinear_arith)
                requires
                    0 <= j < 8,
            ;
        }
        assert(chunk =~= bits_of_byte(s[i]));
        lemma_pack_byte(s[i]);
    }
    assert(r =~= s);
}

/// `from_be32` undoes `be32`.
pub proof fn lemma_be32_roundtrip(x: u32)
    ensures
        from_be32(be32(x)) == x,
        be32(x).len() == 4,
{
    let s = be32(x);
    assert(s[0] == (x >> 24u32) as u8);
    assert(s[1] == (x >> 16u32) as u8);
    assert(s[2] == (x >> 8u32) as u8);
    assert(s[3] == x as u8);
    assert((((x >> 24u32) as u8 as u32) << 24u32) | (((x >> 16u32) as u8 as u32) << 16u32) | (((x
        >> 8u32) as u8 as u32) << 8u32) | ((x as u8) as u32) == x) by (bit_vector);
}

/// `be32` undoes `from_be32` on four bytes.
pub proof fn lemma_from_be32_roundtrip(s: Seq<u8>)
    requires
        s.len() == 4,
    ensures
        be32(from_be32(s)) == s,
{
    let (a, b, c, d) = (s[0], s[1], s[2], s[3]);
    let x = from_be32(s);
    assert(x == ((a as u32) << 24u32) | ((b as u32) << 16u32) | ((c as u32) << 8u32) | (d as u32));
    assert(((((a as u32) << 24u32) | ((b as u32) << 16u32) | ((c as u32) << 8u32) | (d as u32))
        >> 24u32) as u8 == a) by (bit_vector);
    assert(((((a as u32) << 24u32) | ((b as u32) << 16u32) | ((c as u32) << 8u32) | (d as u32))
        >> 16u32) as u8 == b) by (bit_vector);
    assert(((((a as u32) << 24u32) | ((b as u32) << 16u32) | ((c as u32) << 8u32) | (d as u32))
        >> 8u32) as u8 == c) by (bit_vector);
    assert(((((a as u32) << 24u32) | ((b as u32) << 16u32) | ((c as u32) << 8u32) | (d as u32)))
        as u8 == d) by (bit_vector);
    assert(be32(x) =~= s);
}

/// `from_le16` undoes `le16`.
pub proof fn lemma_le16_roundtrip(x: u16)
    ensures
        from_le16(le16(x)) == x,
        le16(x).len() == 2,
{
    assert(((x as u8) as u16) | ((((x >> 8u16) as u8) as u16) << 8u16) == x) by (bit_vector);
}

/// `le16` undoes `from_le16` on two bytes.
pub proof fn lemma_from_le16_roundtrip(s: Seq<u8>)
    requires
        s.len() == 2,
    ensures
        le16(from_le16(s)) == s,
{
    let (a, b) = (s[0], s[1]);
    assert((((a as u16) | ((b as u16) << 8u16)) as u8) == a) by (bit_vector);
    assert(((((a as u16) | ((b as u16) << 8u16)) >> 8u16) as u8) == b) by (bit_vector);
    assert(le16(from_le16(s)) =~= s);
}

/// The bits of `bytes`, most significant bit of each byte first.
pub fn byte_bits(bytes: &[u8]) -> (out: Vec<bool>)
    requires
        8 * bytes@.len() <= usize::MAX,
    ensures
        out@ == bytes_to_bits(bytes@),
{
    let mut out: Vec<bool> = Vec::new();
    let mut i: usize = 0;
    while i < bytes.len()
        invariant
            i <= bytes@.len(),
            8 * bytes@.len() <= usize::MAX,
            out@.len() == 8 * i,
            forall|k: int| 0 <= k < 8 * i ==> out@[k] == byte_bit(#[trigger] bytes@[k / 8], k % 8),
        decreases bytes.len() - i,
    {
        let b = bytes[i];
        let mut j: u8 = 0;
        while j < 8
            invariant
                j <= 8,
                i < bytes@.len(),
                b == bytes@[i as int],
                out@.len() == 8 * i + j,
                forall|k: int|
                    0 <= k < 8 * i + j ==> out@[k] == byte_bit(#[trigger] bytes@[k / 8], k % 8),
            decreases 8 - j,
        {
            let bit = (b >> (7 - j)) & 1 == 1;
            proof {
                let k = 8 * i + j;
                assert(k / 8 == i as int && k % 8 == j as int) by (nonlinear_arith)
                    requires
                        k == 8 * i + j,
                        j < 8,
                ;
            }
            out.push(bit);
            j = j + 1;
        }
        i = i + 1;
    }
    assert(out@ =~= bytes_to_bits(bytes@));
    out
}

/// Packs bits into bytes, eight bits per byte, most significant first (a
/// trailing partial byte takes the high bits).
pub fn bits_to_bytes(bits: &[bool]) -> (out: Vec<u8>)
    ensures
        out@ == bits_to_bytes_spec(bits@),
{
    assert(bits@.subrange(0, bits@.len() as int) =~= bits@);
    bits_to_bytes_range(bits, 0, bits.len())
}

/// Packs `bits[lo..hi]` into bytes, eight bits per byte, most significant first.
pub fn bits_to_bytes_range(bits: &[bool], lo: usize, hi: usize) -> (out: Vec<u8>)
    requires
        lo <= hi <= bits@.len(),
    ensures
        out@ == bits_to_bytes_spec(bits@.subrange(lo as int, hi as int)),
{
    let ghost sub = bits@.subrange(lo as int, hi as int);
    let mut out: Vec<u8> = Vec::new();
    let mut i: usize = lo;
    while i < hi
        invariant
            lo <= i <= hi <= bits@.len(),
            sub == bits@.subrange(lo as int, hi as int),
            (i - lo) % 8 == 0 || i == hi,
            out@.len() == (i - lo + 7) / 8,
            forall|k: int|
                0 <= k < out@.len() ==> #[trigger] out@[k] == bits_to_bytes_spec(sub)[k],
        decreases hi - i,
    {
        let end = if hi - i >= 8 {
            i + 8
        } else {
            hi
        };
        let mut acc: u8 = 0;
        let mut j: usize = i;
        while j < end
            invariant
                i <= j <= end <= hi <= bits@.len(),
                end - i <= 8,
                acc as nat == pack_bits(bits@.subrange(i as int, j as int)),
            decreases end - j,
        {
            proof {
                lemma_pack_bits_bound(bits@.subrange(i as int, j as int));
                vstd::arithmetic::power2::lemma2_to64();
                if j - i < 7 {
                    vstd::arithmetic::power2::lemma_pow2_strictly_increases((j - i) as nat, 7);
                }
                assert(acc < 128);
            }
            let bit: u8 = if bits[j] {
                1
            } else {
                0
            };
            assert(acc < 128 ==> (acc << 1u8) | bit == 2 * acc + bit) by (bit_vector)
                requires
                    bit <= 1,
            ;
            assert(bits@.subrange(i as int, j + 1).drop_last() =~= bits@.subrange(
                i as int,
                j as int,
            ));
            acc = (acc << 1) | bit;
            j = j + 1;
        }
        proof {
            let k = (i - lo) / 8;
            assert((i - lo) % 8 == 0);
            assert(8 * k == i - lo) by (nonlinear_arith)
                requires
                    (i - lo) % 8 == 0,
                    k == (i - lo) / 8,
            ;
            assert(sub.subrange(8 * k, min_int(8 * k + 8, sub.len() as int)) =~= bits@.subrange(
                i as int,
                end as int,
            ));
        }
        out.push(acc);
        i = end;
    }
    assert(out@ =~= bits_to_bytes_spec(sub));
    out
}

} // verus!

verus! {

/// Appends `src[lo..hi]` to `out`.
pub fn push_range(out: &mut Vec<u8>, src: &[u8], lo: usize, hi: usize)
    requires
        lo <= hi <= src@.len(),
    ensures
        final(out)@ == old(out)@ + src@.subrange(lo as int, hi as int),
{
    let ghost start = out@;
    let mut i = lo;
    while i < hi
        invariant
            lo <= i <= hi <= src@.len(),
            out@ == start + src@.subrange(lo as int, i as int),
        decreases hi - i,
    {
        out.push(src[i]);
        assert(src@.subrange(lo as int, i + 1) =~= src@.subrange(lo as int, i as int).push(
            src@[i as int],
        ));
        i = i + 1;
    }
}

} // verus!
