//! One chunk of a PNG file.
//!
//! On the wire a chunk is, big-endian throughout:
//! `[length: 4][type code: 4][payload: length][crc: 4]`,
//! where the CRC-32 covers the type code and the payload, not the length.
use vstd::prelude::*;
use vstd::slice::{slice_subrange, slice_to_vec};
use vstd::string::StringSliceAdditionalSpecFns;
use vstd::utf8::*;

use crate::chunk_type::{valid_type_code, ChunkType};
use crate::error::Error;
use crate::utils::{
    be_bytes, be_value, checksum_32, crc32_of, lemma_be_bytes_of_value, lemma_be_value_of_bytes,
    u32_from_be, u32_to_be, u8_4_from_slice, utf8_string,
};
use crate::CHUNK_SIZE;

verus! {

/// A type code and payload that a chunk can hold: four ASCII letters, and a
/// payload whose length fits the four-byte length field.
#[verifier::opaque]
pub open spec fn valid_chunk(t: Seq<u8>, d: Seq<u8>) -> bool {
    valid_type_code(t) && d.len() <= u32::MAX
}

/// The CRC of a chunk: over its type code followed by its payload.
pub open spec fn chunk_crc(t: Seq<u8>, d: Seq<u8>) -> u32 {
    crc32_of(t + d)
}

/// The wire form of the chunk with type code `t` and payload `d`.
pub open spec fn chunk_bytes(t: Seq<u8>, d: Seq<u8>) -> Seq<u8> {
    be_bytes(d.len() as u32) + t + d + be_bytes(chunk_crc(t, d))
}

/// Decodes one chunk that fills `b` exactly: its type code and payload, or
/// the first check that fails.
#[verifier::opaque]
pub open spec fn decode_chunk(b: Seq<u8>) -> Result<(Seq<u8>, Seq<u8>), Error> {
    if b.len() < 4 || b.len() != be_value(b) + 12 {
        Err(Error::MalformedChunk)
    } else if !valid_type_code(b.subrange(4, 8)) {
        Err(Error::InvalidTypeCode)
    } else if crc32_of(b.subrange(4, b.len() - 4)) != be_value(b.subrange(b.len() - 4, b.len() as int)) {
        Err(Error::ChecksumMismatch)
    } else {
        Ok((b.subrange(4, 8), b.subrange(8, b.len() - 4)))
    }
}

/// Decoding the wire form of a chunk gives back its type code and payload.
pub proof fn lemma_chunk_round_trip(t: Seq<u8>, d: Seq<u8>)
    requires
        valid_chunk(t, d),
    ensures
        decode_chunk(chunk_bytes(t, d)) == Ok::<(Seq<u8>, Seq<u8>), Error>((t, d)),
{
    reveal(decode_chunk);
    reveal(valid_chunk);
    let n = d.len() as u32;
    let c = chunk_crc(t, d);
    let b = chunk_bytes(t, d);
    lemma_be_value_of_bytes(n);
    lemma_be_value_of_bytes(c);
    assert(b.len() == d.len() + 12);
    assert(b.subrange(0, 4) =~= be_bytes(n));
    assert(be_value(b) == be_value(be_bytes(n)));
    assert(b.subrange(4, 8) =~= t);
    assert(b.subrange(4, b.len() - 4) =~= t + d);
    assert(b.subrange(8, b.len() - 4) =~= d);
    assert(b.subrange(b.len() - 4, b.len() as int) =~= be_bytes(c));
}

/// The wire form of a valid chunk decodes to it; an undecodable buffer is
/// the wire form of no chunk, and a decoded buffer is the wire form of what
/// it decodes to.
pub proof fn lemma_decode_chunk_bytes(b: Seq<u8>)
    ensures
        decode_chunk(b) matches Ok((t, d)) ==> valid_chunk(t, d) && chunk_bytes(t, d) == b,
{
    reveal(decode_chunk);
    reveal(valid_chunk);
    if let Ok((t, d)) = decode_chunk(b) {
        let len = b.len();
        assert(b.subrange(4, len - 4) =~= t + d);
        lemma_be_bytes_of_value(b.subrange(0, 4));
        lemma_be_bytes_of_value(b.subrange(len - 4, len as int));
        assert(be_value(b.subrange(0, 4)) == be_value(b));
        assert(d.len() as u32 == be_value(b));
        assert(b =~= b.subrange(0, 4) + t + d + b.subrange(len - 4, len as int));
    }
}

/// A buffer whose length field disagrees with the number of bytes after
/// the length, type code and CRC is rejected as malformed.
pub proof fn lemma_length_mismatch_malformed(b: Seq<u8>)
    requires
        b.len() < 4 || b.len() != be_value(b) + 12,
    ensures
        decode_chunk(b) == Err::<(Seq<u8>, Seq<u8>), Error>(Error::MalformedChunk),
{
    reveal(decode_chunk);
}

/// A chunk whose stored CRC is not the CRC of its type code and payload is
/// rejected with a checksum mismatch.
pub proof fn lemma_crc_mismatch_rejected(t: Seq<u8>, d: Seq<u8>, stored: u32)
    requires
        valid_chunk(t, d),
        stored != chunk_crc(t, d),
    ensures
        decode_chunk(be_bytes(d.len() as u32) + t + d + be_bytes(stored)) == Err::<
            (Seq<u8>, Seq<u8>),
            Error,
        >(Error::ChecksumMismatch),
{
    reveal(decode_chunk);
    reveal(valid_chunk);
    let n = d.len() as u32;
    let b = be_bytes(n) + t + d + be_bytes(stored);
    lemma_be_value_of_bytes(n);
    lemma_be_value_of_bytes(stored);
    assert(b.len() == d.len() + 12);
    assert(b.subrange(0, 4) =~= be_bytes(n));
    assert(be_value(b) == be_value(be_bytes(n)));
    assert(b.subrange(4, 8) =~= t);
    assert(b.subrange(4, b.len() - 4) =~= t + d);
    assert(b.subrange(b.len() - 4, b.len() as int) =~= be_bytes(stored));
}

/// The type code followed by the payload.
fn type_and_data(t: &ChunkType, d: &[u8]) -> (r: Vec<u8>)
    ensures
        r@ == t@ + d@,
        valid_type_code(t@),
{
    let tb = t.bytes();
    let mut r: Vec<u8> = vec![tb[0], tb[1], tb[2], tb[3]];
    r.extend_from_slice(d);
    assert(r@ =~= t@ + d@);
    r
}

/// A chunk of a PNG file: a type code and a payload, with the payload's
/// length and the CRC over both.
#[derive(Debug)]
pub struct Chunk {
    length: u32,
    chunk_type: ChunkType,
    chunk_data: Vec<u8>,
    crc: u32,
}

impl View for Chunk {
    /// The type code and the payload; the length and CRC follow from them.
    type V = (Seq<u8>, Seq<u8>);

    closed spec fn view(&self) -> (Seq<u8>, Seq<u8>) {
        (self.chunk_type@, self.chunk_data@)
    }
}

impl Chunk {
    #[verifier::type_invariant]
    spec fn inv(self) -> bool {
        &&& self.length as int == self.chunk_data@.len()
        &&& self.crc == chunk_crc(self.chunk_type@, self.chunk_data@)
        &&& valid_type_code(self.chunk_type@)
    }

    /// The chunk with this type code and payload.
    pub fn new(chunk_type: ChunkType, chunk_data: Vec<u8>) -> (r: Chunk)
        requires
            chunk_data@.len() <= u32::MAX,
        ensures
            r@ == (chunk_type@, chunk_data@),
    {
        let to_check = type_and_data(&chunk_type, chunk_data.as_slice());
        let crc = checksum_32(to_check.as_slice());
        Chunk { length: chunk_data.len() as u32, chunk_type, chunk_data, crc }
    }

    /// The chunk with the type code spelled by `chunk_type` and the UTF-8
    /// bytes of `data` as payload.
    pub fn from_strings(chunk_type: &str, data: &str) -> (r: Result<Chunk, Error>)
        requires
            data.spec_bytes().len() <= u32::MAX,
        ensures
            r is Ok <==> valid_type_code(chunk_type.spec_bytes()),
            r matches Ok(c) ==> c@ == (chunk_type.spec_bytes(), data.spec_bytes()),
            r matches Err(e) ==> e == Error::InvalidTypeCode,
    {
        match ChunkType::from_str(chunk_type) {
            Ok(t) => Ok(Chunk::new(t, slice_to_vec(data.as_bytes()))),
            Err(e) => Err(e),
        }
    }

    /// The number of payload bytes.
    pub fn length(&self) -> (r: u32)
        ensures
            r as int == self@.1.len(),
    {
        proof {
            use_type_invariant(self);
        }
        self.length
    }

    /// The type code.
    pub fn chunk_type(&self) -> (r: &ChunkType)
        ensures
            r@ == self@.0,
    {
        &self.chunk_type
    }

    /// The payload.
    pub fn data(&self) -> (r: &[u8])
        ensures
            r@ == self@.1,
    {
        self.chunk_data.as_slice()
    }

    /// The CRC over the type code and the payload.
    pub fn crc(&self) -> (r: u32)
        ensures
            r == chunk_crc(self@.0, self@.1),
    {
        proof {
            use_type_invariant(self);
        }
        self.crc
    }

    /// The payload as text, if it is valid UTF-8.
    pub fn data_as_string(&self) -> (r: Result<String, Error>)
        ensures
            r is Ok <==> valid_utf8(self@.1),
            r matches Ok(s) ==> s@ == decode_utf8(self@.1),
            r matches Err(e) ==> e == Error::TextDecode,
    {
        match utf8_string(slice_to_vec(self.data())) {
            Some(s) => Ok(s),
            None => Err(Error::TextDecode),
        }
    }

    /// The wire form of the chunk, which decodes back to the chunk.
    pub fn as_bytes(&self) -> (r: Vec<u8>)
        ensures
            valid_chunk(self@.0, self@.1),
            r@ == chunk_bytes(self@.0, self@.1),
            decode_chunk(r@) == Ok::<(Seq<u8>, Seq<u8>), Error>(self@),
    {
        proof {
            use_type_invariant(self);
            reveal(valid_chunk);
            lemma_chunk_round_trip(self@.0, self@.1);
        }
        let len = u32_to_be(self.length);
        let tb = self.chunk_type.bytes();
        let crc = u32_to_be(self.crc);
        let mut r: Vec<u8> = vec![len[0], len[1], len[2], len[3], tb[0], tb[1], tb[2], tb[3]];
        r.extend_from_slice(self.chunk_data.as_slice());
        r.extend_from_slice(&crc);
        assert(r@ =~= chunk_bytes(self@.0, self@.1));
        r
    }

    /// Parses a chunk that fills `bytes` exactly.
    pub fn try_from(bytes: &[u8]) -> (r: Result<Chunk, Error>)
        ensures
            r matches Ok(c) ==> decode_chunk(bytes@) == Ok::<(Seq<u8>, Seq<u8>), Error>(c@),
            r matches Err(e) ==> decode_chunk(bytes@) == Err::<(Seq<u8>, Seq<u8>), Error>(e),
    {
        proof {
            reveal(decode_chunk);
        }
        let n = bytes.len();
        if n < CHUNK_SIZE {
            return Err(Error::MalformedChunk);
        }
        let length = u32_from_be(u8_4_from_slice(slice_subrange(bytes, 0, CHUNK_SIZE)));
        assert(be_value(bytes@.subrange(0, 4)) == be_value(bytes@));
        if n < 3 * CHUNK_SIZE || length as usize != n - 3 * CHUNK_SIZE {
            return Err(Error::MalformedChunk);
        }
        let chunk_type = match ChunkType::try_from(
            u8_4_from_slice(slice_subrange(bytes, CHUNK_SIZE, 2 * CHUNK_SIZE)),
        ) {
            Ok(t) => t,
            Err(e) => {
                return Err(e);
            },
        };
        let chunk_data = slice_to_vec(slice_subrange(bytes, 2 * CHUNK_SIZE, n - CHUNK_SIZE));
        let crc = u32_from_be(u8_4_from_slice(slice_subrange(bytes, n - CHUNK_SIZE, n)));
        let to_check = type_and_data(&chunk_type, chunk_data.as_slice());
        assert(to_check@ =~= bytes@.subrange(4, n - 4));
        if checksum_32(to_check.as_slice()) != crc {
            Err(Error::ChecksumMismatch)
        } else {
                Ok(Chunk { length, chunk_type, chunk_data, crc })
        }
    }
}

impl<'a> TryFrom<&'a [u8]> for Chunk {
    type Error = Error;

    fn try_from(bytes: &'a [u8]) -> Result<Chunk, Error> {
        Chunk::try_from(bytes)
    }
}

impl<'a> vstd::std_specs::convert::TryFromSpecImpl<&'a [u8]> for Chunk {
    open spec fn obeys_try_from_spec() -> bool {
        false
    }

    closed spec fn try_from_spec(bytes: &'a [u8]) -> Result<Chunk, Error> {
        Err(Error::MalformedChunk)
    }
}

} // verus!
