//! The four-letter type code of a chunk.
//!
//! A type code is four ASCII letters, compared as bytes. The case of each
//! letter carries one property of the chunk.
use vstd::prelude::*;
use vstd::string::StringSliceAdditionalSpecFns;
use vstd::utf8::*;

use crate::error::Error;
use crate::utils::{lemma_ascii_valid_utf8, u8_4_from_slice, utf8_string};
use crate::CHUNK_SIZE;

verus! {

/// An ASCII letter, upper or lower case.
pub open spec fn is_alpha(b: u8) -> bool {
    (65 <= b <= 90) || (97 <= b <= 122)
}

/// An upper-case ASCII letter.
pub open spec fn is_upper(b: u8) -> bool {
    65 <= b <= 90
}

/// A lower-case ASCII letter.
pub open spec fn is_lower(b: u8) -> bool {
    97 <= b <= 122
}

/// Four ASCII letters.
pub open spec fn valid_type_code(t: Seq<u8>) -> bool {
    &&& t.len() == CHUNK_SIZE
    &&& forall|i: int| 0 <= i < t.len() ==> is_alpha(#[trigger] t[i])
}

/// Byte 0 is upper case: readers must understand the chunk.
pub open spec fn critical(t: Seq<u8>) -> bool {
    is_upper(t[0])
}

/// Byte 1 is upper case: a public specification defines the type.
pub open spec fn public(t: Seq<u8>) -> bool {
    is_upper(t[1])
}

/// Byte 2 is upper case: the reserved bit follows the convention.
pub open spec fn reserved_bit_valid(t: Seq<u8>) -> bool {
    is_upper(t[2])
}

/// Byte 3 is lower case: editors may copy the chunk unchanged.
pub open spec fn safe_to_copy(t: Seq<u8>) -> bool {
    is_lower(t[3])
}

/// A privately defined type code that follows the reserved-bit convention.
pub open spec fn type_code_valid(t: Seq<u8>) -> bool {
    !public(t) && reserved_bit_valid(t)
}

/// A chunk type code: four ASCII letters, case kept.
#[derive(Debug, Clone, Copy, Eq, Hash)]
pub struct ChunkType([u8; CHUNK_SIZE]);

impl View for ChunkType {
    type V = Seq<u8>;

    closed spec fn view(&self) -> Seq<u8> {
        self.0@
    }
}

impl PartialEq for ChunkType {
    fn eq(&self, other: &ChunkType) -> (r: bool) {
        let (a, b) = (self.0, other.0);
        let r = a[0] == b[0] && a[1] == b[1] && a[2] == b[2] && a[3] == b[3];
        proof {
            if r {
                assert(a@ =~= b@);
            }
        }
        r
    }
}

impl vstd::std_specs::cmp::PartialEqSpecImpl for ChunkType {
    open spec fn obeys_eq_spec() -> bool {
        true
    }

    open spec fn eq_spec(&self, other: &ChunkType) -> bool {
        self@ == other@
    }
}

/// Every byte of `b` is an ASCII letter.
fn all_alpha(b: &[u8]) -> (r: bool)
    ensures
        r == forall|i: int| 0 <= i < b@.len() ==> is_alpha(#[trigger] b@[i]),
{
    let mut i: usize = 0;
    while i < b.len()
        invariant
            i <= b@.len(),
            forall|j: int| 0 <= j < i ==> is_alpha(#[trigger] b@[j]),
        decreases b@.len() - i,
    {
        let c = b[i];
        if !((65 <= c && c <= 90) || (97 <= c && c <= 122)) {
            return false;
        }
        i += 1;
    }
    true
}

impl ChunkType {
    #[verifier::type_invariant]
    spec fn inv(self) -> bool {
        valid_type_code(self.0@)
    }

    /// The four bytes of the type code, which are ASCII letters.
    pub fn bytes(&self) -> (r: [u8; CHUNK_SIZE])
        ensures
            r@ == self@,
            valid_type_code(self@),
    {
        proof {
            use_type_invariant(self);
        }
        self.0
    }

    /// The byte at `index`, as a character.
    fn at_char(&self, index: usize) -> (r: char)
        requires
            index < CHUNK_SIZE,
        ensures
            r as u32 == self@[index as int] as u32,
    {
        (self.0)[index] as char
    }

    /// The type code made of `bytes`, if they are four ASCII letters.
    pub fn try_from(bytes: [u8; CHUNK_SIZE]) -> (r: Result<ChunkType, Error>)
        ensures
            valid_type_code(bytes@) ==> r is Ok && r->Ok_0@ == bytes@,
            !valid_type_code(bytes@) ==> r == Err::<ChunkType, Error>(Error::InvalidTypeCode),
    {
        if all_alpha(&bytes) {
            Ok(ChunkType(bytes))
        } else {
            Err(Error::InvalidTypeCode)
        }
    }

    /// Parses a type code from text: four ASCII letters, case kept.
    pub fn from_str(s: &str) -> (r: Result<ChunkType, Error>)
        ensures
            r is Ok <==> valid_type_code(s.spec_bytes()),
            r matches Ok(t) ==> t@ == s.spec_bytes(),
            r matches Err(e) ==> e == Error::InvalidTypeCode,
    {
        let b = s.as_bytes();
        if b.len() != CHUNK_SIZE {
            Err(Error::InvalidTypeCode)
        } else if !all_alpha(b) {
            Err(Error::InvalidTypeCode)
        } else {
            Ok(ChunkType(u8_4_from_slice(b)))
        }
    }

    /// True if the chunk is critical: byte 0 is upper case.
    pub fn is_critical(&self) -> (r: bool)
        ensures
            r == critical(self@),
    {
        let c = self.at_char(0);
        'A' <= c && c <= 'Z'
    }

    /// True if the chunk type is public: byte 1 is upper case.
    pub fn is_public(&self) -> (r: bool)
        ensures
            r == public(self@),
    {
        let c = self.at_char(1);
        'A' <= c && c <= 'Z'
    }

    /// True if the reserved bit follows the convention: byte 2 is upper case.
    pub fn is_reserved_bit_valid(&self) -> (r: bool)
        ensures
            r == reserved_bit_valid(self@),
    {
        let c = self.at_char(2);
        'A' <= c && c <= 'Z'
    }

    /// True if the chunk is safe to copy: byte 3 is lower case.
    pub fn is_safe_to_copy(&self) -> (r: bool)
        ensures
            r == safe_to_copy(self@),
    {
        let c = self.at_char(3);
        'a' <= c && c <= 'z'
    }

    /// True if the type code is private and its reserved bit is valid.
    pub fn is_valid(&self) -> (r: bool)
        ensures
            r == type_code_valid(self@),
    {
        !self.is_public() && self.is_reserved_bit_valid()
    }

    /// The type code as text: its four letters.
    pub fn to_string(&self) -> (r: String)
        ensures
            valid_utf8(self@),
            r@ == decode_utf8(self@),
    {
        let b = self.bytes();
        proof {
            lemma_ascii_valid_utf8(b@);
        }
        let v = vec![b[0], b[1], b[2], b[3]];
        assert(v@ =~= self@);
        match utf8_string(v) {
            Some(s) => s,
            None => String::new(),
        }
    }
}

impl TryFrom<[u8; CHUNK_SIZE]> for ChunkType {
    type Error = Error;

    fn try_from(bytes: [u8; CHUNK_SIZE]) -> Result<ChunkType, Error> {
        ChunkType::try_from(bytes)
    }
}

impl vstd::std_specs::convert::TryFromSpecImpl<[u8; CHUNK_SIZE]> for ChunkType {
    open spec fn obeys_try_from_spec() -> bool {
        false
    }

    closed spec fn try_from_spec(bytes: [u8; CHUNK_SIZE]) -> Result<ChunkType, Error> {
        Err(Error::InvalidTypeCode)
    }
}

impl std::str::FromStr for ChunkType {
    type Err = Error;

    fn from_str(s: &str) -> Result<ChunkType, Error> {
        ChunkType::from_str(s)
    }
}

} // verus!
