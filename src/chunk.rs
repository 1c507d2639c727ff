//! One chunk of a PNG stream: its type, its data, and its wire form
//! (big-endian length, type, data, big-endian CRC-32 over type and data).
use vstd::prelude::*;
use vstd::slice::slice_subrange;
use vstd::utf8::{decode_utf8, valid_utf8};
use crate::chunk_type::ChunkType;
use crate::text::utf8_to_string;

verus! {

/// The CRC-32 (IEEE polynomial, as used by PNG and zlib) of `b`.
pub uninterp spec fn crc32_of(b: Seq<u8>) -> u32;

/// Relies on `crc32fast::hash`: the CRC-32 (IEEE) checksum of the bytes.
#[verifier::external_body]
fn crc32(b: &[u8]) -> (r: u32)
    ensures
        r == crc32_of(b@),
{
    crc32fast::hash(b)
}

/// The big-endian number made of four bytes.
pub open spec fn be_u32(b0: u8, b1: u8, b2: u8, b3: u8) -> u32 {
    ((b0 as u32) << 24u32) | ((b1 as u32) << 16u32) | ((b2 as u32) << 8u32) | (b3 as u32)
}

/// The big-endian number held by `b[i..i + 4]`.
pub open spec fn be_u32_at(b: Seq<u8>, i: int) -> u32 {
    be_u32(b[i], b[i + 1], b[i + 2], b[i + 3])
}

/// The four big-endian bytes of `x`.
pub open spec fn u32_be(x: u32) -> Seq<u8> {
    seq![
        ((x >> 24u32) & 0xffu32) as u8,
        ((x >> 16u32) & 0xffu32) as u8,
        ((x >> 8u32) & 0xffu32) as u8,
        (x & 0xffu32) as u8,
    ]
}

/// The wire form of a chunk of type `t` holding `d`.
#[verifier::opaque]
pub open spec fn chunk_bytes(t: Seq<u8>, d: Seq<u8>) -> Seq<u8> {
    u32_be(d.len() as u32) + t + d + u32_be(crc32_of(t + d))
}

/// The number of bytes that a chunk holding `d` takes on the wire.
pub open spec fn wire_len(d: Seq<u8>) -> int {
    12 + d.len() as int
}

/// The type, the data and the stored CRC of the chunk that stands at the start
/// of `b`, before any check of the CRC; or why the bytes do not frame a chunk.
pub open spec fn chunk_fields(b: Seq<u8>) -> Result<(Seq<u8>, Seq<u8>, u32), ChunkError> {
    if b.len() < 12 {
        Err(ChunkError::InvalidNumberOfBytes)
    } else {
        let n = be_u32_at(b, 0) as int;
        if b.len() < 12 + n {
            Err(ChunkError::InvalidNumberOfBytes)
        } else {
            Ok((b.subrange(4, 8), b.subrange(8, 8 + n), be_u32_at(b, 8 + n)))
        }
    }
}

/// The chunk, as (type, data), that stands at the start of `b`, or why there is none.
/// Bytes after the chunk are ignored.
#[verifier::opaque]
pub open spec fn parse_chunk(b: Seq<u8>) -> Result<(Seq<u8>, Seq<u8>), ChunkError> {
    match chunk_fields(b) {
        Err(e) => Err(e),
        Ok((t, d, crc)) => if crc == crc32_of(t + d) {
            Ok((t, d))
        } else {
            Err(ChunkError::CRCMismatch)
        },
    }
}

/// Reading four big-endian bytes back gives the number that wrote them.
pub proof fn lemma_be_u32_round_trip(x: u32)
    ensures
        be_u32_at(u32_be(x), 0) == x,
{
    let b = u32_be(x);
    assert(be_u32(
        ((x >> 24u32) & 0xffu32) as u8,
        ((x >> 16u32) & 0xffu32) as u8,
        ((x >> 8u32) & 0xffu32) as u8,
        (x & 0xffu32) as u8,
    ) == x) by (bit_vector);
}

/// Four bytes that differ give different big-endian numbers.
pub proof fn lemma_be_u32_injective(a0: u8, a1: u8, a2: u8, a3: u8, b0: u8, b1: u8, b2: u8, b3: u8)
    requires
        be_u32(a0, a1, a2, a3) == be_u32(b0, b1, b2, b3),
    ensures
        a0 == b0 && a1 == b1 && a2 == b2 && a3 == b3,
{
    assert(be_u32(a0, a1, a2, a3) == be_u32(b0, b1, b2, b3) ==> a0 == b0 && a1 == b1 && a2 == b2
        && a3 == b3) by (bit_vector);
}

/// A chunk: a type and a payload of bytes.
#[derive(Debug, Clone)]
pub struct Chunk {
    chunk_type: ChunkType,
    data: Vec<u8>,
}

/// Why bytes cannot be read as a chunk, or a chunk's data as text.
#[derive(Debug, Clone, Copy, PartialEq, Eq)]
pub enum ChunkError {
    /// The data is not valid UTF-8 text.
    StringConvertionFailure,
    /// The stored CRC differs from the CRC of the type and data.
    CRCMismatch,
    /// The buffer is shorter than the chunk that its length field declares.
    InvalidNumberOfBytes,
}

impl View for Chunk {
    type V = (Seq<u8>, Seq<u8>);

    /// The type's bytes and the data.
    closed spec fn view(&self) -> (Seq<u8>, Seq<u8>) {
        (self.chunk_type@, self.data@)
    }
}

/// The big-endian number made of four bytes.
fn be_u32_exec(b0: u8, b1: u8, b2: u8, b3: u8) -> (r: u32)
    ensures
        r == be_u32(b0, b1, b2, b3),
{
    ((b0 as u32) << 24u32) | ((b1 as u32) << 16u32) | ((b2 as u32) << 8u32) | (b3 as u32)
}

/// Appends the four big-endian bytes of `x` to `out`.
fn push_u32_be(out: &mut Vec<u8>, x: u32)
    ensures
        final(out)@ == old(out)@ + u32_be(x),
{
    out.push(((x >> 24u32) & 0xffu32) as u8);
    out.push(((x >> 16u32) & 0xffu32) as u8);
    out.push(((x >> 8u32) & 0xffu32) as u8);
    out.push((x & 0xffu32) as u8);
    assert(final(out)@ =~= old(out)@ + u32_be(x));
}

/// Appends the bytes of `b` to `out`.
fn push_all(out: &mut Vec<u8>, b: &[u8])
    ensures
        final(out)@ == old(out)@ + b@,
{
    let ghost start = out@;
    let mut i: usize = 0;
    while i < b.len()
        invariant
            0 <= i <= b@.len(),
            out@ == start + b@.subrange(0, i as int),
        decreases b@.len() - i,
    {
        out.push(b[i]);
        i = i + 1;
        assert(out@ =~= start + b@.subrange(0, i as int));
    }
    assert(b@.subrange(0, b@.len() as int) =~= b@);
}

impl Chunk {
    /// A chunk of the given type holding `data`.
    pub fn new(chunk_type: ChunkType, data: Vec<u8>) -> (r: Chunk)
        ensures
            r@ == (chunk_type@, data@),
    {
        Chunk { chunk_type, data }
    }

    /// The number of data bytes.
    pub fn length(&self) -> (r: u32)
        requires
            self@.1.len() <= u32::MAX,
        ensures
            r == self@.1.len(),
    {
        self.data.len() as u32
    }

    /// The chunk's type.
    pub fn chunk_type(&self) -> (r: &ChunkType)
        ensures
            r@ == self@.0,
    {
        &self.chunk_type
    }

    /// The chunk's data.
    pub fn data(&self) -> (r: &[u8])
        ensures
            r@ == self@.1,
    {
        self.data.as_slice()
    }

    /// The CRC-32 of the type bytes followed by the data.
    pub fn crc(&self) -> (r: u32)
        ensures
            r == crc32_of(self@.0 + self@.1),
    {
        let mut bytes: Vec<u8> = Vec::new();
        let t = self.chunk_type.bytes();
        push_all(&mut bytes, &t);
        push_all(&mut bytes, self.data.as_slice());
        assert(bytes@ =~= self@.0 + self@.1);
        crc32(bytes.as_slice())
    }

    /// The data as text; fails where it is not valid UTF-8.
    pub fn data_as_string(&self) -> (r: Result<String, ChunkError>)
        ensures
            valid_utf8(self@.1) <==> r is Ok,
            r is Ok ==> r->Ok_0@ == decode_utf8(self@.1),
            r is Err ==> r == Err::<String, ChunkError>(ChunkError::StringConvertionFailure),
    {
        match utf8_to_string(self.data.clone()) {
            Some(s) => Ok(s),
            None => Err(ChunkError::StringConvertionFailure),
        }
    }

    /// The wire form: big-endian length, type, data, big-endian CRC.
    pub fn as_bytes(&self) -> (r: Vec<u8>)
        requires
            self@.1.len() <= u32::MAX,
        ensures
            r@ == chunk_bytes(self@.0, self@.1),
    {
        let mut out: Vec<u8> = Vec::new();
        push_u32_be(&mut out, self.length());
        let t = self.chunk_type.bytes();
        push_all(&mut out, &t);
        push_all(&mut out, self.data.as_slice());
        push_u32_be(&mut out, self.crc());
        reveal(chunk_bytes);
        assert(out@ =~= chunk_bytes(self@.0, self@.1));
        out
    }

    /// Reads the length, type, data and stored CRC of the chunk at the start
    /// of `value`, without checking the CRC; bytes after it are ignored.
    pub fn read_fields(value: &[u8]) -> (r: Result<(Chunk, u32), ChunkError>)
        ensures
            chunk_fields(value@) == match r {
                Ok((c, crc)) => Ok((c@.0, c@.1, crc)),
                Err(e) => Err::<(Seq<u8>, Seq<u8>, u32), ChunkError>(e),
            },
    {
        let len = value.len();
        if len < 12 {
            return Err(ChunkError::InvalidNumberOfBytes);
        }
        let n32 = be_u32_exec(value[0], value[1], value[2], value[3]);
        if n32 as usize > len - 12 {
            return Err(ChunkError::InvalidNumberOfBytes);
        }
        let n = n32 as usize;
        let t: [u8; 4] = [value[4], value[5], value[6], value[7]];
        assert(t@ =~= value@.subrange(4, 8));
        let mut data: Vec<u8> = Vec::new();
        push_all(&mut data, slice_subrange(value, 8, 8 + n));
        let stored = be_u32_exec(value[8 + n], value[9 + n], value[10 + n], value[11 + n]);
        let chunk = Chunk::new(ChunkType::from_bytes(t), data);
        assert(chunk@.1 =~= value@.subrange(8, 8 + n as int));
        Ok((chunk, stored))
    }

    /// Reads the chunk at the start of `value`; bytes after it are ignored.
    pub fn try_from(value: &[u8]) -> (r: Result<Chunk, ChunkError>)
        ensures
            parse_chunk(value@) == match r {
                Ok(c) => Ok(c@),
                Err(e) => Err::<(Seq<u8>, Seq<u8>), ChunkError>(e),
            },
    {
        reveal(parse_chunk);
        let (chunk, stored) = match Chunk::read_fields(value) {
            Ok(f) => f,
            Err(e) => return Err(e),
        };
        if chunk.crc() == stored {
            Ok(chunk)
        } else {
            Err(ChunkError::CRCMismatch)
        }
    }
}

/// A chunk that is read has a four-byte type and takes at least twelve bytes,
/// and no more than there are.
pub proof fn lemma_parse_chunk_ok(b: Seq<u8>)
    ensures
        parse_chunk(b) is Ok ==> parse_chunk(b)->Ok_0.0.len() == 4
            && parse_chunk(b)->Ok_0.1.len() <= u32::MAX
            && 12 <= wire_len(parse_chunk(b)->Ok_0.1) <= b.len(),
{
    reveal(parse_chunk);
}

/// A chunk's wire form followed by any bytes reads as that chunk.
pub proof fn lemma_parse_chunk_prefix(t: Seq<u8>, d: Seq<u8>, rest: Seq<u8>)
    requires
        t.len() == 4,
        d.len() <= u32::MAX,
    ensures
        parse_chunk(chunk_bytes(t, d) + rest) == Ok::<(Seq<u8>, Seq<u8>), ChunkError>((t, d)),
        chunk_bytes(t, d).len() == wire_len(d),
{
    reveal(chunk_bytes);
    reveal(parse_chunk);
    let b = chunk_bytes(t, d) + rest;
    let n = d.len() as int;
    let c = crc32_of(t + d);
    lemma_be_u32_round_trip(d.len() as u32);
    lemma_be_u32_round_trip(c);
    assert(chunk_bytes(t, d).len() == 12 + n);
    assert(be_u32_at(b, 0) == be_u32_at(u32_be(d.len() as u32), 0));
    assert(b.subrange(4, 8) =~= t);
    assert(b.subrange(8, 8 + n) =~= d);
    assert(be_u32_at(b, 8 + n) == be_u32_at(u32_be(c), 0));
}

/// Reading the wire form of a chunk gives the chunk back.
pub proof fn lemma_chunk_round_trip(t: Seq<u8>, d: Seq<u8>)
    requires
        t.len() == 4,
        d.len() <= u32::MAX,
    ensures
        parse_chunk(chunk_bytes(t, d)) == Ok::<(Seq<u8>, Seq<u8>), ChunkError>((t, d)),
{
    lemma_parse_chunk_prefix(t, d, Seq::empty());
    assert(chunk_bytes(t, d) + Seq::<u8>::empty() =~= chunk_bytes(t, d));
}

/// Flipping one bit of the stored CRC of a chunk's wire form makes reading it
/// fail with a CRC mismatch.
pub proof fn lemma_crc_bit_flip_detected(t: Seq<u8>, d: Seq<u8>, i: int, k: u8)
    requires
        t.len() == 4,
        d.len() <= u32::MAX,
        8 + d.len() <= i < 12 + d.len(),
        k < 8,
    ensures
        parse_chunk(chunk_bytes(t, d).update(i, chunk_bytes(t, d)[i] ^ (1u8 << k)))
            == Err::<(Seq<u8>, Seq<u8>), ChunkError>(ChunkError::CRCMismatch),
{
    reveal(chunk_bytes);
    reveal(parse_chunk);
    let b = chunk_bytes(t, d);
    let v = b[i];
    let f = b.update(i, v ^ (1u8 << k));
    let n = d.len() as int;
    lemma_be_u32_round_trip(d.len() as u32);
    lemma_be_u32_round_trip(crc32_of(t + d));
    assert(b.len() == 12 + n);
    assert(be_u32_at(b, 0) == be_u32_at(u32_be(d.len() as u32), 0));
    assert(be_u32_at(b, 8 + n) == be_u32_at(u32_be(crc32_of(t + d)), 0));
    assert(v ^ (1u8 << k) != v) by (bit_vector)
        requires
            k < 8,
    ;
    assert(f.len() == b.len());
    assert(be_u32_at(f, 0) == be_u32_at(b, 0));
    assert(f.subrange(4, 8) =~= t);
    assert(f.subrange(8, 8 + n) =~= d);
    if be_u32_at(f, 8 + n) == be_u32_at(b, 8 + n) {
        lemma_be_u32_injective(
            f[8 + n],
            f[9 + n],
            f[10 + n],
            f[11 + n],
            b[8 + n],
            b[9 + n],
            b[10 + n],
            b[11 + n],
        );
        assert(f[i] == b[i]);
    }
}

} // verus!
