//! End-to-end framing of what travels: a CRC-32 in front of the payload, and a
//! self-describing container that carries a file's name and MIME type.

use vstd::prelude::*;
use vstd::utf8::{
    decode_utf8, decode_utf8_encode_utf8, encode_utf8, encode_utf8_decode_utf8,
    encode_utf8_valid_utf8, valid_utf8,
};
use crate::bits::{
    be32, from_be32, from_le16, le16, lemma_be32_roundtrip, lemma_from_be32_roundtrip,
    lemma_from_le16_roundtrip, lemma_le16_roundtrip, push_range,
};
use crate::crc::{crc32, crc32_range, spec_crc32};

verus! {

/// A payload with its CRC-32 (big-endian) in front.
pub open spec fn wrapped_payload(data: Seq<u8>) -> Seq<u8> {
    be32(spec_crc32(data)) + data
}

/// What `unwrap_payload` gives back: the data after the first four bytes,
/// when those bytes are its CRC-32.
pub open spec fn unwrapped_payload(buf: Seq<u8>) -> Option<Seq<u8>> {
    if buf.len() < 4 {
        None
    } else if spec_crc32(buf.subrange(4, buf.len() as int)) == from_be32(buf.subrange(0, 4)) {
        Some(buf.subrange(4, buf.len() as int))
    } else {
        None
    }
}

/// Puts the CRC-32 of `data` in front of it, so that a receiver can tell a
/// correctly rebuilt payload from one spoiled by a bad packet.
pub fn wrap_payload(data: &[u8]) -> (v: Vec<u8>)
    requires
        data@.len() + 4 <= usize::MAX,
    ensures
        v@ == wrapped_payload(data@),
{
    let mut v: Vec<u8> = Vec::with_capacity(4 + data.len());
    let crc = crc32(data);
    v.push((crc >> 24) as u8);
    v.push((crc >> 16) as u8);
    v.push((crc >> 8) as u8);
    v.push(crc as u8);
    assert(v@ =~= be32(crc));
    push_range(&mut v, data, 0, data.len());
    assert(data@.subrange(0, data@.len() as int) =~= data@);
    v
}

/// Undoes `wrap_payload`; `None` when the CRC does not match (the rebuilt
/// payload is damaged).
pub fn unwrap_payload(buf: &[u8]) -> (r: Option<Vec<u8>>)
    ensures
        match r {
            Some(d) => unwrapped_payload(buf@) == Some(d@),
            None => unwrapped_payload(buf@) is None,
        },
{
    if buf.len() < 4 {
        return None;
    }
    let stored = ((buf[0] as u32) << 24) | ((buf[1] as u32) << 16) | ((buf[2] as u32) << 8) | (
    buf[3] as u32);
    assert(stored == from_be32(buf@.subrange(0, 4)));
    if crc32_range(buf, 4, buf.len()) == stored {
        let mut d: Vec<u8> = Vec::new();
        push_range(&mut d, buf, 4, buf.len());
        assert(d@ =~= buf@.subrange(4, buf@.len() as int));
        Some(d)
    } else {
        None
    }
}

/// Unwrapping a wrapped payload gives the payload back.
pub proof fn lemma_payload_roundtrip(data: Seq<u8>)
    ensures
        unwrapped_payload(wrapped_payload(data)) == Some(data),
{
    let w = wrapped_payload(data);
    lemma_be32_roundtrip(spec_crc32(data));
    assert(w.subrange(0, 4) =~= be32(spec_crc32(data)));
    assert(w.subrange(4, w.len() as int) =~= data);
}

/// Whatever unwraps is exactly the wrapping of what it gives back.
pub proof fn lemma_payload_unwrap_wrap(buf: Seq<u8>)
    requires
        unwrapped_payload(buf) is Some,
    ensures
        wrapped_payload(unwrapped_payload(buf).unwrap()) == buf,
{
    lemma_from_be32_roundtrip(buf.subrange(0, 4));
    assert(wrapped_payload(unwrapped_payload(buf).unwrap()) =~= buf);
}

/// Magic at the front of a file container. The leading NUL keeps it apart
/// from the start of any text, JPEG, PNG or ZIP file.
pub const FILE_MAGIC: [u8; 4] = [0x00, 0x56, 0x46, 0x31];

/// Container format version.
pub const FILE_VERSION: u8 = 1;

/// A file taken back out of its container: its name, MIME type and contents.
#[derive(Clone, Debug, PartialEq, Eq)]
pub struct FileMeta {
    pub name: String,
    pub mime: String,
    pub data: Vec<u8>,
}

pub struct FileMetaView {
    pub name: Seq<char>,
    pub mime: Seq<char>,
    pub data: Seq<u8>,
}

impl View for FileMeta {
    type V = FileMetaView;

    open spec fn view(&self) -> FileMetaView {
        FileMetaView { name: self.name@, mime: self.mime@, data: self.data@ }
    }
}

pub open spec fn file_magic() -> Seq<u8> {
    seq![0x00u8, 0x56u8, 0x46u8, 0x31u8]
}

/// The length a name or MIME type keeps in the container (a 16-bit field).
pub open spec fn field_len(n: int) -> int {
    if n <= 0xFFFF { n } else { 0xFFFF }
}

/// The container: magic, version, 16-bit little-endian name length, name
/// bytes, the same for the MIME type, then the data. Names and types longer
/// than the 16-bit field are cut to its size.
pub open spec fn file_container(name: Seq<u8>, mime: Seq<u8>, data: Seq<u8>) -> Seq<u8> {
    let nlen = field_len(name.len() as int);
    let mlen = field_len(mime.len() as int);
    file_magic() + seq![FILE_VERSION] + le16(nlen as u16) + name.subrange(0, nlen) + le16(
        mlen as u16,
    ) + mime.subrange(0, mlen) + data
}

/// The raw fields of a container: name bytes, MIME bytes, data.
pub open spec fn container_fields(s: Seq<u8>) -> Option<(Seq<u8>, Seq<u8>, Seq<u8>)> {
    if s.len() < 7 || s.subrange(0, 4) != file_magic() || s[4] != FILE_VERSION {
        None
    } else {
        let nlen = from_le16(s.subrange(5, 7)) as int;
        if s.len() < 7 + nlen + 2 {
            None
        } else {
            let mlen = from_le16(s.subrange(7 + nlen, 9 + nlen)) as int;
            if s.len() < 9 + nlen + mlen {
                None
            } else {
                Some(
                    (
                        s.subrange(7, 7 + nlen),
                        s.subrange(9 + nlen, 9 + nlen + mlen),
                        s.subrange(9 + nlen + mlen, s.len() as int),
                    ),
                )
            }
        }
    }
}

/// What `unwrap_file` reads: the fields of a container whose name and MIME
/// type are valid UTF-8.
pub open spec fn parse_file(s: Seq<u8>) -> Option<FileMetaView> {
    match container_fields(s) {
        Some((n, m, d)) => if valid_utf8(n) && valid_utf8(m) {
            Some(FileMetaView { name: decode_utf8(n), mime: decode_utf8(m), data: d })
        } else {
            None
        },
        None => None,
    }
}

/// `String::from_utf8`, which turns bytes into a string exactly when they are
/// valid UTF-8; the string is then the one those bytes encode.
#[verifier::external_body]
fn string_from_utf8(bytes: Vec<u8>) -> (r: Option<String>)
    ensures
        r is Some <==> valid_utf8(bytes@),
        r matches Some(s) ==> s@ == decode_utf8(bytes@),
{
    String::from_utf8(bytes).ok()
}

/// Puts a file's name and MIME type in front of its contents, so that the
/// receiver can restore both.
pub fn wrap_file(name: &str, mime: &str, data: &[u8]) -> (v: Vec<u8>)
    requires
        9 + field_len(encode_utf8(name@).len() as int) + field_len(encode_utf8(mime@).len() as int)
            + data@.len() <= usize::MAX,
    ensures
        v@ == file_container(encode_utf8(name@), encode_utf8(mime@), data@),
{
    let nb = name.as_bytes();
    let mb = mime.as_bytes();
    let nlen = if nb.len() <= 0xFFFF {
        nb.len()
    } else {
        0xFFFF
    };
    let mlen = if mb.len() <= 0xFFFF {
        mb.len()
    } else {
        0xFFFF
    };
    let mut v: Vec<u8> = Vec::with_capacity(4 + 1 + 2 + nlen + 2 + mlen + data.len());
    v.push(FILE_MAGIC[0]);
    v.push(FILE_MAGIC[1]);
    v.push(FILE_MAGIC[2]);
    v.push(FILE_MAGIC[3]);
    v.push(FILE_VERSION);
    v.push(nlen as u16 as u8);
    v.push(((nlen as u16) >> 8) as u8);
    push_range(&mut v, nb, 0, nlen);
    v.push(mlen as u16 as u8);
    v.push(((mlen as u16) >> 8) as u8);
    push_range(&mut v, mb, 0, mlen);
    push_range(&mut v, data, 0, data.len());
    assert(data@.subrange(0, data@.len() as int) =~= data@);
    assert(v@ =~= file_container(encode_utf8(name@), encode_utf8(mime@), data@));
    v
}

/// Undoes `wrap_file`. `None` when the container is absent or damaged, or its
/// name or MIME type is not UTF-8 (raw bytes of an older sender).
pub fn unwrap_file(buf: &[u8]) -> (r: Option<FileMeta>)
    ensures
        match r {
            Some(m) => parse_file(buf@) == Some(m@),
            None => parse_file(buf@) is None,
        },
{
    if buf.len() < 7 || buf[0] != FILE_MAGIC[0] || buf[1] != FILE_MAGIC[1] || buf[2]
        != FILE_MAGIC[2] || buf[3] != FILE_MAGIC[3] || buf[4] != FILE_VERSION {
        assert(buf@.len() >= 4 ==> (buf@.subrange(0, 4) == file_magic() ==> buf@[0] == 0x00u8
            && buf@[1] == 0x56u8 && buf@[2] == 0x46u8 && buf@[3] == 0x31u8));
        return None;
    }
    assert(buf@.subrange(0, 4) =~= file_magic());
    let mut off: usize = 5;
    let nlen = ((buf[off] as u16) | ((buf[off + 1] as u16) << 8)) as usize;
    assert(nlen == from_le16(buf@.subrange(5, 7)));
    off = off + 2;
    if buf.len() - off < nlen || buf.len() - off - nlen < 2 {
        return None;
    }
    let mut name_bytes: Vec<u8> = Vec::new();
    push_range(&mut name_bytes, buf, off, off + nlen);
    assert(name_bytes@ =~= buf@.subrange(7, 7 + nlen));
    let name = match string_from_utf8(name_bytes) {
        Some(s) => s,
        None => {
            return None;
        },
    };
    off = off + nlen;
    let mlen = ((buf[off] as u16) | ((buf[off + 1] as u16) << 8)) as usize;
    assert(mlen == from_le16(buf@.subrange(7 + nlen, 9 + nlen)));
    off = off + 2;
    if buf.len() - off < mlen {
        return None;
    }
    let mut mime_bytes: Vec<u8> = Vec::new();
    push_range(&mut mime_bytes, buf, off, off + mlen);
    assert(mime_bytes@ =~= buf@.subrange(9 + nlen, 9 + nlen + mlen));
    let mime = match string_from_utf8(mime_bytes) {
        Some(s) => s,
        None => {
            return None;
        },
    };
    off = off + mlen;
    let mut data: Vec<u8> = Vec::new();
    push_range(&mut data, buf, off, buf.len());
    Some(FileMeta { name, mime, data })
}

/// Unwrapping a wrapped file gives back its name, MIME type and contents,
/// whenever the name and the MIME type each fit the 16-bit length field.
pub proof fn lemma_file_roundtrip(name: Seq<char>, mime: Seq<char>, data: Seq<u8>)
    requires
        encode_utf8(name).len() <= 0xFFFF,
        encode_utf8(mime).len() <= 0xFFFF,
    ensures
        parse_file(file_container(encode_utf8(name), encode_utf8(mime), data)) == Some(
            FileMetaView { name, mime, data },
        ),
{
    let nb = encode_utf8(name);
    let mb = encode_utf8(mime);
    let s = file_container(nb, mb, data);
    let nlen = nb.len() as int;
    let mlen = mb.len() as int;
    lemma_le16_roundtrip(nlen as u16);
    lemma_le16_roundtrip(mlen as u16);
    assert(s.subrange(0, 4) =~= file_magic());
    assert(s.subrange(5, 7) =~= le16(nlen as u16));
    assert(nb.subrange(0, nlen) =~= nb);
    assert(mb.subrange(0, mlen) =~= mb);
    assert(s.subrange(7 + nlen, 9 + nlen) =~= le16(mlen as u16));
    assert(s.subrange(7, 7 + nlen) =~= nb);
    assert(s.subrange(9 + nlen, 9 + nlen + mlen) =~= mb);
    assert(s.subrange(9 + nlen + mlen, s.len() as int) =~= data);
    encode_utf8_valid_utf8(name);
    encode_utf8_valid_utf8(mime);
    encode_utf8_decode_utf8(name);
    encode_utf8_decode_utf8(mime);
}

/// A container that unwraps is exactly the wrapping of what it gives back.
pub proof fn lemma_file_unwrap_wrap(s: Seq<u8>)
    requires
        parse_file(s) is Some,
    ensures
        file_container(
            encode_utf8(parse_file(s).unwrap().name),
            encode_utf8(parse_file(s).unwrap().mime),
            parse_file(s).unwrap().data,
        ) == s,
{
    let (n, m, d) = container_fields(s).unwrap();
    decode_utf8_encode_utf8(n);
    decode_utf8_encode_utf8(m);
    lemma_from_le16_roundtrip(s.subrange(5, 7));
    let nlen = from_le16(s.subrange(5, 7)) as int;
    lemma_from_le16_roundtrip(s.subrange(7 + nlen, 9 + nlen));
    assert(n.len() == nlen);
    assert(n.subrange(0, nlen) =~= n);
    assert(m.subrange(0, m.len() as int) =~= m);
    assert(file_container(n, m, d) =~= s);
}

} // verus!

verus! {

/// A wrapped payload with any one byte changed (in its CRC or in its data)
/// is refused when unwrapped.
pub proof fn lemma_payload_detects_one_byte(data: Seq<u8>, k: int, v: u8)
    requires
        0 <= k < wrapped_payload(data).len(),
        wrapped_payload(data)[k] != v,
    ensures
        unwrapped_payload(wrapped_payload(data).update(k, v)) is None,
{
    let w = wrapped_payload(data);
    let w2 = w.update(k, v);
    lemma_be32_roundtrip(spec_crc32(data));
    assert(w.subrange(0, 4) =~= be32(spec_crc32(data)));
    assert(w.subrange(4, w.len() as int) =~= data);
    if k < 4 {
        assert(w2.subrange(4, w2.len() as int) =~= data);
        lemma_from_be32_roundtrip(w2.subrange(0, 4));
        if from_be32(w2.subrange(0, 4)) == spec_crc32(data) {
            assert(w2.subrange(0, 4) =~= be32(spec_crc32(data)));
            assert(w2[k] == w2.subrange(0, 4)[k]);
        }
    } else {
        assert(w2.subrange(0, 4) =~= w.subrange(0, 4));
        assert(w2.subrange(4, w2.len() as int) =~= data.update(k - 4, v));
        crate::crc::lemma_crc_detects_one_byte(data, k - 4, v);
    }
}

} // verus!
