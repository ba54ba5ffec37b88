use vstd::prelude::*;
use vstd::slice::{slice_subrange, slice_to_vec};
use vstd::utf8::{decode_utf8, valid_utf8};

use crate::chunk_type::ChunkType;
use crate::error::PngError;

verus! {

/// What `crc::crc32::checksum_ieee` returns for these bytes: their CRC-32 (IEEE polynomial).
pub uninterp spec fn crc32_ieee(b: Seq<u8>) -> u32;

/// Relies on `crc::crc32::checksum_ieee`, the CRC-32 with the IEEE polynomial.
#[verifier::external_body]
fn checksum_ieee(b: &[u8]) -> (r: u32)
    ensures
        r == crc32_ieee(b@),
{
    crc::crc32::checksum_ieee(b)
}

/// Relies on `String::from_utf8`: the bytes decoded, if they are valid UTF-8.
#[verifier::external_body]
fn utf8_string(b: Vec<u8>) -> (r: Option<String>)
    ensures
        r is Some <==> valid_utf8(b@),
        r matches Some(s) ==> s@ == decode_utf8(b@),
{
    String::from_utf8(b).ok()
}

/// A chunk seen as its type bytes and its payload.
pub type ChunkView = (Seq<u8>, Seq<u8>);

/// The checksum of a chunk: over the type bytes followed by the payload.
pub open spec fn crc_of(ty: Seq<u8>, data: Seq<u8>) -> u32 {
    crc32_ieee(ty + data)
}

/// A 32-bit unsigned integer, most significant byte first.
pub open spec fn be32(n: u32) -> Seq<u8> {
    seq![(n >> 24u32) as u8, (n >> 16u32) as u8, (n >> 8u32) as u8, n as u8]
}

/// The integer that the first four bytes encode, most significant byte first.
pub open spec fn read_be32(b: Seq<u8>) -> u32
    recommends
        b.len() >= 4,
{
    ((b[0] as u32) << 24u32) | ((b[1] as u32) << 16u32) | ((b[2] as u32) << 8u32) | (b[3] as u32)
}

/// The bytes of a chunk: length, type, payload, checksum.
pub open spec fn chunk_bytes(c: ChunkView) -> Seq<u8> {
    be32(c.1.len() as u32) + c.0 + c.1 + be32(crc_of(c.0, c.1))
}

/// Reads the chunk at the start of `s`, giving it and the number of bytes it takes.
#[verifier::opaque]
pub open spec fn parse_chunk_prefix(s: Seq<u8>) -> Result<(ChunkView, int), PngError> {
    if s.len() < 12 {
        Err(PngError::Truncated)
    } else {
        let n = read_be32(s) as int;
        if s.len() < 12 + n {
            Err(PngError::Truncated)
        } else {
            let ty = s.subrange(4, 8);
            let data = s.subrange(8, 8 + n);
            if read_be32(s.subrange(8 + n, 12 + n)) != crc_of(ty, data) {
                Err(PngError::ChecksumMismatch)
            } else {
                Ok(((ty, data), 12 + n))
            }
        }
    }
}

/// Reads `s` as exactly one chunk.
pub open spec fn parse_chunk(s: Seq<u8>) -> Result<ChunkView, PngError> {
    match parse_chunk_prefix(s) {
        Ok((c, n)) => if n == s.len() {
            Ok(c)
        } else {
            Err(PngError::TrailingBytes)
        },
        Err(e) => Err(e),
    }
}

/// The text that a payload holds: present when it is non-empty UTF-8.
pub open spec fn payload_text(data: Seq<u8>) -> Option<Seq<char>> {
    if data.len() > 0 && valid_utf8(data) {
        Some(decode_utf8(data))
    } else {
        None
    }
}

pub proof fn lemma_be32_read(n: u32)
    ensures
        be32(n).len() == 4,
        read_be32(be32(n)) == n,
{
    let b0 = (n >> 24u32) as u8;
    let b1 = (n >> 16u32) as u8;
    let b2 = (n >> 8u32) as u8;
    let b3 = n as u8;
    assert(((b0 as u32) << 24u32) | ((b1 as u32) << 16u32) | ((b2 as u32) << 8u32) | (b3 as u32)
        == n) by (bit_vector)
        requires
            b0 == (n >> 24u32) as u8,
            b1 == (n >> 16u32) as u8,
            b2 == (n >> 8u32) as u8,
            b3 == n as u8,
    ;
}

pub proof fn lemma_read_be32(s: Seq<u8>)
    requires
        s.len() >= 4,
    ensures
        be32(read_be32(s)) == s.take(4),
{
    let b0 = s[0];
    let b1 = s[1];
    let b2 = s[2];
    let b3 = s[3];
    let n = read_be32(s);
    assert((n >> 24u32) as u8 == b0 && (n >> 16u32) as u8 == b1 && (n >> 8u32) as u8 == b2
        && n as u8 == b3) by (bit_vector)
        requires
            n == ((b0 as u32) << 24u32) | ((b1 as u32) << 16u32) | ((b2 as u32) << 8u32) | (
            b3 as u32),
    ;
    assert(be32(n) =~= s.take(4));
}

/// A chunk built from a type and a payload reads back as that same chunk from its bytes.
pub proof fn lemma_chunk_round_trip(ty: Seq<u8>, data: Seq<u8>)
    requires
        ty.len() == 4,
        data.len() <= u32::MAX,
    ensures
        parse_chunk(chunk_bytes((ty, data))) == Ok::<ChunkView, PngError>((ty, data)),
{
    let n = data.len() as u32;
    let crc = crc_of(ty, data);
    let s = chunk_bytes((ty, data));
    let len = data.len() as int;
    reveal(parse_chunk_prefix);
    lemma_be32_read(n);
    lemma_be32_read(crc);
    assert(s.take(4) =~= be32(n));
    assert(read_be32(s) == read_be32(be32(n)));
    assert(s.subrange(4, 8) =~= ty);
    assert(s.subrange(8, 8 + len) =~= data);
    assert(s.subrange(8 + len, 12 + len) =~= be32(crc));
}

/// Bytes that end before a chunk's fixed part, or before the payload length that
/// they declare, are refused as truncated.
pub proof fn lemma_chunk_truncated(s: Seq<u8>)
    requires
        s.len() < 12 || s.len() < 12 + read_be32(s),
    ensures
        parse_chunk(s) == Err::<ChunkView, PngError>(PngError::Truncated),
{
    reveal(parse_chunk_prefix);
}

/// Type and payload bytes whose checksum differs from the one stored with them
/// are refused as a checksum mismatch.
pub proof fn lemma_checksum_gate(ty: Seq<u8>, data: Seq<u8>, stored: u32)
    requires
        ty.len() == 4,
        data.len() <= u32::MAX,
        crc_of(ty, data) != stored,
    ensures
        parse_chunk(be32(data.len() as u32) + ty + data + be32(stored)) == Err::<ChunkView, PngError>(
            PngError::ChecksumMismatch,
        ),
{
    reveal(parse_chunk_prefix);
    let n = data.len() as u32;
    let s = be32(n) + ty + data + be32(stored);
    let len = data.len() as int;
    lemma_be32_read(n);
    lemma_be32_read(stored);
    assert(s.take(4) =~= be32(n));
    assert(read_be32(s) == read_be32(be32(n)));
    assert(s.subrange(4, 8) =~= ty);
    assert(s.subrange(8, 8 + len) =~= data);
    assert(s.subrange(8 + len, 12 + len) =~= be32(stored));
}

/// Reads four bytes at `pos`, most significant first.
fn read_u32_be(b: &[u8], pos: usize) -> (r: u32)
    requires
        pos + 4 <= b@.len(),
    ensures
        r == read_be32(b@.subrange(pos as int, pos + 4)),
{
    ((b[pos] as u32) << 24u32) | ((b[pos + 1] as u32) << 16u32) | ((b[pos + 2] as u32) << 8u32)
        | (b[pos + 3] as u32)
}

/// Appends the bytes of `n`, most significant first.
fn push_u32_be(out: &mut Vec<u8>, n: u32)
    ensures
        final(out)@ == old(out)@ + be32(n),
{
    out.push((n >> 24u32) as u8);
    out.push((n >> 16u32) as u8);
    out.push((n >> 8u32) as u8);
    out.push(n as u8);
    assert(final(out)@ =~= old(out)@ + be32(n));
}

/// Appends every byte of `b`.
pub(crate) fn push_all(out: &mut Vec<u8>, b: &[u8])
    ensures
        final(out)@ == old(out)@ + b@,
{
    let mut i: usize = 0;
    while i < b.len()
        invariant
            i <= b@.len(),
            out@ == old(out)@ + b@.take(i as int),
        decreases b@.len() - i,
    {
        out.push(b[i]);
        i = i + 1;
        assert(out@ =~= old(out)@ + b@.take(i as int));
    }
    assert(b@.take(b@.len() as int) =~= b@);
}

/// The checksum of a chunk with this type and payload.
pub fn checksum(ty: &ChunkType, data: &[u8]) -> (r: u32)
    ensures
        r == crc_of(ty@, data@),
{
    let tb = ty.bytes();
    let mut buf: Vec<u8> = Vec::new();
    push_all(&mut buf, &tb);
    push_all(&mut buf, data);
    checksum_ieee(buf.as_slice())
}

/// One record of the chunk stream: a type code, a payload and its checksum.
#[derive(Debug)]
pub struct Chunk {
    length: u32,
    ctype: ChunkType,
    data: Vec<u8>,
    crc: u32,
}

impl View for Chunk {
    type V = ChunkView;

    closed spec fn view(&self) -> ChunkView {
        (self.ctype@, self.data@)
    }
}

impl Chunk {
    #[verifier::type_invariant]
    spec fn inv(self) -> bool {
        &&& self.length as int == self.data@.len()
        &&& self.crc == crc_of(self.ctype@, self.data@)
    }

    /// A chunk of this type and payload, with its checksum computed.
    pub fn new(ctype: ChunkType, data: Vec<u8>) -> (r: Chunk)
        requires
            data@.len() <= u32::MAX,
        ensures
            r@ == (ctype@, data@),
    {
        let length = data.len() as u32;
        let crc = checksum(&ctype, data.as_slice());
        Chunk { length, ctype, data, crc }
    }

    /// Reads the chunk that starts at `pos`, and how many bytes it takes.
    pub fn parse_at(bytes: &[u8], pos: usize) -> (r: Result<(Chunk, usize), PngError>)
        requires
            pos <= bytes@.len(),
        ensures
            match parse_chunk_prefix(bytes@.skip(pos as int)) {
                Ok((c, n)) => r matches Ok((ch, m)) && ch@ == c && m == n,
                Err(e) => r matches Err(e2) && e2 == e,
            },
            r matches Ok((_, m)) ==> 12 <= m <= bytes@.len() - pos,
    {
        let ghost s = bytes@.skip(pos as int);
        proof {
            reveal(parse_chunk_prefix);
        }
        let rem = bytes.len() - pos;
        if rem < 12 {
            return Err(PngError::Truncated);
        }
        let n32 = read_u32_be(bytes, pos);
        assert(bytes@.subrange(pos as int, pos + 4) =~= s.subrange(0, 4));
        assert(read_be32(s) == n32);
        if rem - 12 < n32 as usize {
            return Err(PngError::Truncated);
        }
        let n = n32 as usize;
        let ty = ChunkType::from_bytes([bytes[pos + 4], bytes[pos + 5], bytes[pos + 6], bytes[pos + 7]]);
        assert(ty@ =~= s.subrange(4, 8));
        let data = slice_to_vec(slice_subrange(bytes, pos + 8, pos + 8 + n));
        assert(data@ =~= s.subrange(8, 8 + n));
        let stored = read_u32_be(bytes, pos + 8 + n);
        assert(bytes@.subrange(pos + 8 + n, pos + 12 + n) =~= s.subrange(8 + n, 12 + n));
        let crc = checksum(&ty, data.as_slice());
        if crc != stored {
            return Err(PngError::ChecksumMismatch);
        }
        Ok((Chunk { length: n32, ctype: ty, data, crc }, 12 + n))
    }

    /// Reads `bytes` as exactly one chunk, checking its checksum.
    pub fn parse(bytes: &[u8]) -> (r: Result<Chunk, PngError>)
        ensures
            match parse_chunk(bytes@) {
                Ok(c) => r matches Ok(ch) && ch@ == c,
                Err(e) => r matches Err(e2) && e2 == e,
            },
    {
        assert(bytes@.skip(0) =~= bytes@);
        match Chunk::parse_at(bytes, 0) {
            Ok((c, n)) => if n == bytes.len() {
                Ok(c)
            } else {
                Err(PngError::TrailingBytes)
            },
            Err(e) => Err(e),
        }
    }

    /// Number of payload bytes.
    pub fn length(&self) -> (r: u32)
        ensures
            r as int == self@.1.len(),
    {
        proof {
            use_type_invariant(self);
        }
        self.length
    }

    pub fn chunk_type(&self) -> (r: &ChunkType)
        ensures
            r@ == self@.0,
    {
        &self.ctype
    }

    pub fn data(&self) -> (r: &[u8])
        ensures
            r@ == self@.1,
    {
        self.data.as_slice()
    }

    /// The stored checksum, which is always that of type and payload.
    pub fn crc(&self) -> (r: u32)
        ensures
            r == crc_of(self@.0, self@.1),
    {
        proof {
            use_type_invariant(self);
        }
        self.crc
    }

    /// The payload as text; `NotText` when it is empty or not UTF-8.
    pub fn data_as_string(&self) -> (r: Result<String, PngError>)
        ensures
            match payload_text(self@.1) {
                Some(t) => r matches Ok(s) && s@ == t,
                None => r == Err::<String, PngError>(PngError::NotText),
            },
    {
        if self.data.len() == 0 {
            return Err(PngError::NotText);
        }
        let copy = slice_to_vec(self.data.as_slice());
        match utf8_string(copy) {
            Some(s) => Ok(s),
            None => Err(PngError::NotText),
        }
    }

    /// The chunk's bytes: length and type, payload, checksum.
    pub fn as_bytes(&self) -> (r: Vec<u8>)
        ensures
            r@ == chunk_bytes(self@),
            r@.len() == 12 + self@.1.len(),
    {
        proof {
            use_type_invariant(self);
            self.ctype.lemma_len();
        }
        let mut out: Vec<u8> = Vec::new();
        push_u32_be(&mut out, self.length);
        let tb = self.ctype.bytes();
        push_all(&mut out, &tb);
        push_all(&mut out, self.data.as_slice());
        push_u32_be(&mut out, self.crc);
        out
    }
}

} // verus!
