//! A PNG file as a sequence of chunks.
//!
//! A file is the eight-byte PNG signature followed by chunks back to back,
//! up to the end of the buffer.
use vstd::prelude::*;
use vstd::slice::slice_subrange;
use vstd::string::StringSliceAdditionalSpecFns;

use crate::chunk::{chunk_bytes, decode_chunk, lemma_chunk_round_trip, lemma_decode_chunk_bytes, valid_chunk, Chunk};
use crate::chunk_type::ChunkType;
use crate::error::Error;
use crate::utils::{be_value, u32_from_be, u8_4_from_slice};
use crate::CHUNK_SIZE;

verus! {

/// The signature that starts every PNG file.
pub const STANDARD_HEADER: [u8; 8] = [137, 80, 78, 71, 13, 10, 26, 10];

/// The signature as a sequence.
pub open spec fn signature() -> Seq<u8> {
    seq![137u8, 80u8, 78u8, 71u8, 13u8, 10u8, 26u8, 10u8]
}

/// The wire form of chunks given as (type code, payload) pairs, in order.
#[verifier::opaque]
pub open spec fn chunks_bytes(v: Seq<(Seq<u8>, Seq<u8>)>) -> Seq<u8>
    decreases v.len(),
{
    if v.len() == 0 {
        Seq::empty()
    } else {
        chunk_bytes(v[0].0, v[0].1) + chunks_bytes(v.drop_first())
    }
}

/// The bytes of a file that holds these chunks.
pub open spec fn png_bytes(v: Seq<(Seq<u8>, Seq<u8>)>) -> Seq<u8> {
    signature() + chunks_bytes(v)
}

/// Decodes chunks back to back until `b` ends: the (type code, payload)
/// pairs, or the error of the first chunk that fails.
#[verifier::opaque]
pub open spec fn decode_chunks(b: Seq<u8>) -> Result<Seq<(Seq<u8>, Seq<u8>)>, Error>
    decreases b.len(),
{
    if b.len() == 0 {
        Ok(Seq::empty())
    } else if b.len() < 4 || b.len() < be_value(b) + 12 {
        Err(Error::MalformedChunk)
    } else {
        let end = be_value(b) + 12;
        match decode_chunk(b.subrange(0, end)) {
            Err(e) => Err(e),
            Ok(c) => match decode_chunks(b.subrange(end, b.len() as int)) {
                Ok(rest) => Ok(seq![c] + rest),
                Err(e) => Err(e),
            },
        }
    }
}

/// Decodes a whole file: the signature, then the chunks.
pub open spec fn decode_png(b: Seq<u8>) -> Result<Seq<(Seq<u8>, Seq<u8>)>, Error> {
    if b.len() < 8 || b.subrange(0, 8) != signature() {
        Err(Error::BadSignature)
    } else {
        decode_chunks(b.subrange(8, b.len() as int))
    }
}

/// `r` with the chunks `p` put before what it holds.
pub open spec fn prepend(
    p: Seq<(Seq<u8>, Seq<u8>)>,
    r: Result<Seq<(Seq<u8>, Seq<u8>)>, Error>,
) -> Result<Seq<(Seq<u8>, Seq<u8>)>, Error> {
    match r {
        Ok(s) => Ok(p + s),
        Err(e) => Err(e),
    }
}

/// `i` is the position of the first chunk in `v` whose type code is `t`.
pub open spec fn is_first_of_type(v: Seq<(Seq<u8>, Seq<u8>)>, t: Seq<u8>, i: int) -> bool {
    &&& 0 <= i < v.len()
    &&& v[i].0 == t
    &&& forall|j: int| 0 <= j < i ==> #[trigger] v[j].0 != t
}

/// Some chunk in `v` has type code `t`.
pub open spec fn has_type(v: Seq<(Seq<u8>, Seq<u8>)>, t: Seq<u8>) -> bool {
    exists|i: int| 0 <= i < v.len() && #[trigger] v[i].0 == t
}

/// Appending a chunk appends its wire form.
pub proof fn lemma_chunks_bytes_push(v: Seq<(Seq<u8>, Seq<u8>)>, c: (Seq<u8>, Seq<u8>))
    ensures
        chunks_bytes(v.push(c)) == chunks_bytes(v) + chunk_bytes(c.0, c.1),
    decreases v.len(),
{
    reveal(chunks_bytes);
    if v.len() == 0 {
        assert(v.push(c).drop_first() =~= Seq::<(Seq<u8>, Seq<u8>)>::empty());
        assert(v.push(c)[0] == c);
        assert(chunks_bytes(Seq::<(Seq<u8>, Seq<u8>)>::empty()) == Seq::<u8>::empty());
        assert(chunks_bytes(v) == Seq::<u8>::empty());
        assert(chunks_bytes(v.push(c)) =~= chunk_bytes(c.0, c.1));
    } else {
        assert(v.push(c).drop_first() =~= v.drop_first().push(c));
        lemma_chunks_bytes_push(v.drop_first(), c);
        assert(chunks_bytes(v.push(c)) =~= chunks_bytes(v) + chunk_bytes(c.0, c.1));
    }
}

/// A buffer that starts with a decodable chunk decodes to that chunk
/// followed by what the rest decodes to.
proof fn lemma_decode_chunks_step(first: Seq<u8>, rest: Seq<u8>, c: (Seq<u8>, Seq<u8>))
    requires
        decode_chunk(first) == Ok::<(Seq<u8>, Seq<u8>), Error>(c),
    ensures
        decode_chunks(first + rest) == prepend(seq![c], decode_chunks(rest)),
{
    reveal(decode_chunks);
    reveal(decode_chunk);
    let b = first + rest;
    assert(first.len() == be_value(first) + 12);
    assert(be_value(b) == be_value(first)) by {
        assert(b[0] == first[0] && b[1] == first[1] && b[2] == first[2] && b[3] == first[3]);
    }
    let end = be_value(b) + 12;
    assert(b.subrange(0, end) =~= first);
    assert(b.subrange(end, b.len() as int) =~= rest);
}

/// Chunks written back to back decode to themselves.
pub proof fn lemma_chunks_round_trip(v: Seq<(Seq<u8>, Seq<u8>)>)
    requires
        forall|i: int| 0 <= i < v.len() ==> valid_chunk(#[trigger] v[i].0, v[i].1),
    ensures
        decode_chunks(chunks_bytes(v)) == Ok::<Seq<(Seq<u8>, Seq<u8>)>, Error>(v),
    decreases v.len(),
{
    if v.len() == 0 {
        reveal(decode_chunks);
        reveal(chunks_bytes);
        assert(v =~= Seq::<(Seq<u8>, Seq<u8>)>::empty());
    } else {
        let c = v[0];
        assert(valid_chunk(v[0].0, v[0].1));
        lemma_chunk_round_trip(c.0, c.1);
        let tail = v.drop_first();
        assert forall|i: int| 0 <= i < tail.len() implies valid_chunk(
            #[trigger] tail[i].0,
            tail[i].1,
        ) by {
            assert(valid_chunk(v[i + 1].0, v[i + 1].1));
        }
        lemma_chunks_round_trip(tail);
        assert(chunks_bytes(v) == chunk_bytes(c.0, c.1) + chunks_bytes(tail)) by {
            reveal(chunks_bytes);
        }
        lemma_decode_chunks_step(chunk_bytes(c.0, c.1), chunks_bytes(tail), c);
        assert(seq![c] + tail =~= v);
    }
}

/// A file written from valid chunks parses back to the same chunks.
pub proof fn lemma_png_round_trip(v: Seq<(Seq<u8>, Seq<u8>)>)
    requires
        forall|i: int| 0 <= i < v.len() ==> valid_chunk(#[trigger] v[i].0, v[i].1),
    ensures
        decode_png(png_bytes(v)) == Ok::<Seq<(Seq<u8>, Seq<u8>)>, Error>(v),
{
    let b = png_bytes(v);
    assert(b.subrange(0, 8) =~= signature());
    assert(b.subrange(8, b.len() as int) =~= chunks_bytes(v));
    lemma_chunks_round_trip(v);
}

/// The bytes of the first `i + 1` chunks extend those of the first `i`.
proof fn lemma_png_bytes_take(v: Seq<(Seq<u8>, Seq<u8>)>, i: int)
    requires
        0 <= i < v.len(),
    ensures
        png_bytes(v.take(i + 1)) == png_bytes(v.take(i)) + chunk_bytes(v[i].0, v[i].1),
{
    assert(v.take(i + 1) =~= v.take(i).push(v[i]));
    lemma_chunks_bytes_push(v.take(i), v[i]);
    assert(png_bytes(v.take(i + 1)) =~= png_bytes(v.take(i)) + chunk_bytes(v[i].0, v[i].1));
}

/// The wire form of a chunk, which holds a valid type code and payload.
fn wire_form(c: &Chunk) -> (r: Vec<u8>)
    ensures
        valid_chunk(c@.0, c@.1),
        r@ == chunk_bytes(c@.0, c@.1),
{
    c.as_bytes()
}

/// Appends the bytes `b` to `r`.
fn append_bytes(r: &mut Vec<u8>, b: &[u8])
    ensures
        final(r)@ == old(r)@ + b@,
{
    r.extend_from_slice(b);
    assert(final(r)@ =~= old(r)@ + b@);
}

/// A buffer that does not start with the signature is rejected.
pub proof fn lemma_bad_signature(b: Seq<u8>)
    requires
        b.len() < 8 || b.subrange(0, 8) != signature(),
    ensures
        decode_png(b) == Err::<Seq<(Seq<u8>, Seq<u8>)>, Error>(Error::BadSignature),
{
}

/// After the signature, a first chunk whose length field claims more bytes
/// than the buffer holds is rejected as malformed.
pub proof fn lemma_declared_length_too_long(b: Seq<u8>)
    requires
        b.len() >= 8,
        b.subrange(0, 8) == signature(),
        ({
            let rest = b.subrange(8, b.len() as int);
            0 < rest.len() && (rest.len() < 4 || rest.len() < be_value(rest) + 12)
        }),
    ensures
        decode_png(b) == Err::<Seq<(Seq<u8>, Seq<u8>)>, Error>(Error::MalformedChunk),
{
    reveal(decode_chunks);
}

/// Two first positions of one type code are the same position.
pub proof fn lemma_first_of_type_unique(v: Seq<(Seq<u8>, Seq<u8>)>, t: Seq<u8>, i: int, j: int)
    requires
        is_first_of_type(v, t, i),
        is_first_of_type(v, t, j),
    ensures
        i == j,
{
    if i < j {
        assert(v[i].0 != t);
    } else if j < i {
        assert(v[j].0 != t);
    }
}

/// After appending a chunk whose type code no chunk had, looking that type
/// code up finds the appended chunk, and only it.
pub proof fn lemma_append_then_find(v: Seq<(Seq<u8>, Seq<u8>)>, c: (Seq<u8>, Seq<u8>))
    requires
        !has_type(v, c.0),
    ensures
        has_type(v.push(c), c.0),
        is_first_of_type(v.push(c), c.0, v.len() as int),
        forall|i: int| is_first_of_type(v.push(c), c.0, i) ==> i == v.len() && v.push(c)[i] == c,
{
    let w = v.push(c);
    assert(w[v.len() as int] == c);
    assert forall|j: int| 0 <= j < v.len() implies #[trigger] w[j].0 != c.0 by {
        assert(w[j] == v[j]);
        if v[j].0 == c.0 {
            assert(has_type(v, c.0));
        }
    }
    assert(is_first_of_type(w, c.0, v.len() as int));
    assert forall|i: int| is_first_of_type(w, c.0, i) implies i == v.len() && w[i] == c by {
        lemma_first_of_type_unique(w, c.0, i, v.len() as int);
    }
}

/// Removing the first chunk of a type code keeps every other chunk, in
/// order, later chunks of the same type code included.
pub proof fn lemma_remove_first_keeps_others(v: Seq<(Seq<u8>, Seq<u8>)>, t: Seq<u8>, i: int)
    requires
        is_first_of_type(v, t, i),
    ensures
        v.remove(i).len() == v.len() - 1,
        forall|j: int| 0 <= j < i ==> #[trigger] v.remove(i)[j] == v[j],
        forall|j: int| i <= j < v.len() - 1 ==> #[trigger] v.remove(i)[j] == v[j + 1],
{
}

/// True if `ct` is spelled by the bytes `s`.
fn type_is(ct: &ChunkType, s: &[u8]) -> (r: bool)
    ensures
        r == (ct@ == s@),
{
    let b = ct.bytes();
    if s.len() != CHUNK_SIZE {
        return false;
    }
    let r = b[0] == s[0] && b[1] == s[1] && b[2] == s[2] && b[3] == s[3];
    proof {
        if r {
            assert(ct@ =~= s@);
        }
    }
    r
}

/// True if `b` starts with the PNG signature.
fn has_signature(b: &[u8]) -> (r: bool)
    ensures
        r == (b@.len() >= 8 && b@.subrange(0, 8) == signature()),
{
    if b.len() < 8 {
        return false;
    }
    let h = STANDARD_HEADER;
    let r = b[0] == h[0] && b[1] == h[1] && b[2] == h[2] && b[3] == h[3] && b[4] == h[4] && b[5]
        == h[5] && b[6] == h[6] && b[7] == h[7];
    proof {
        if r {
            assert(b@.subrange(0, 8) =~= signature());
        } else {
            assert(b@.subrange(0, 8) != signature()) by {
                if b@.subrange(0, 8) == signature() {
                    assert(b@.subrange(0, 8)[0] == b@[0]);
                }
            }
        }
    }
    r
}

/// A PNG file: the signature and an ordered sequence of chunks.
#[derive(Debug)]
pub struct Png {
    chunks: Vec<Chunk>,
}

impl View for Png {
    /// The (type code, payload) pair of each chunk, in file order.
    type V = Seq<(Seq<u8>, Seq<u8>)>;

    closed spec fn view(&self) -> Seq<(Seq<u8>, Seq<u8>)> {
        self.chunks@.map_values(|c: Chunk| c@)
    }
}

impl Png {
    /// A file that holds these chunks, in this order.
    pub fn from_chunks(chunks: Vec<Chunk>) -> (r: Png)
        ensures
            r@ == chunks@.map_values(|c: Chunk| c@),
    {
        Png { chunks }
    }

    /// Adds a chunk at the end.
    pub fn append_chunk(&mut self, chunk: Chunk)
        ensures
            final(self)@ == old(self)@.push(chunk@),
    {
        self.chunks.push(chunk);
        assert(final(self)@ =~= old(self)@.push(chunk@));
    }

    /// The position of the first chunk whose type code is spelled by `t`,
    /// or the number of chunks if there is none.
    fn position_of(&self, t: &[u8]) -> (r: usize)
        ensures
            r <= self@.len(),
            r < self@.len() ==> is_first_of_type(self@, t@, r as int),
            r == self@.len() ==> !has_type(self@, t@),
    {
        let mut i: usize = 0;
        while i < self.chunks.len()
            invariant
                i <= self@.len(),
                self@.len() == self.chunks@.len(),
                forall|j: int| 0 <= j < i ==> #[trigger] self@[j].0 != t@,
            decreases self.chunks@.len() - i,
        {
            if type_is(self.chunks[i].chunk_type(), t) {
                return i;
            }
            i += 1;
        }
        i
    }

    /// Removes the first chunk whose type code is `chunk_type`, and returns
    /// it; fails, leaving the file as it was, if there is none.
    pub fn remove_chunk(&mut self, chunk_type: &str) -> (r: Result<Chunk, Error>)
        ensures
            r is Ok <==> has_type(old(self)@, chunk_type.spec_bytes()),
            r matches Err(e) ==> e == Error::ChunkNotFound && final(self)@ == old(self)@,
            r matches Ok(c) ==> exists|i: int|
                is_first_of_type(old(self)@, chunk_type.spec_bytes(), i) && c@ == old(self)@[i]
                    && final(self)@ == old(self)@.remove(i),
    {
        let i = self.position_of(chunk_type.as_bytes());
        if i == self.chunks.len() {
            return Err(Error::ChunkNotFound);
        }
        let c = self.chunks.remove(i);
        assert(final(self)@ =~= old(self)@.remove(i as int));
        Ok(c)
    }

    /// The signature.
    pub fn header(&self) -> (r: [u8; 8])
        ensures
            r@ == signature(),
    {
        let r = STANDARD_HEADER;
        assert(r@ =~= signature());
        r
    }

    /// The chunks, in file order.
    pub fn chunks(&self) -> (r: &[Chunk])
        ensures
            r@.map_values(|c: Chunk| c@) == self@,
    {
        self.chunks.as_slice()
    }

    /// The first chunk whose type code is `chunk_type`, if any.
    pub fn chunk_by_type(&self, chunk_type: &str) -> (r: Option<&Chunk>)
        ensures
            r is Some <==> has_type(self@, chunk_type.spec_bytes()),
            r matches Some(c) ==> exists|i: int|
                is_first_of_type(self@, chunk_type.spec_bytes(), i) && c@ == self@[i],
    {
        let i = self.position_of(chunk_type.as_bytes());
        if i == self.chunks.len() {
            None
        } else {
            Some(&self.chunks[i])
        }
    }

    /// The bytes of the file: the signature, then each chunk's wire form.
    /// They parse back to the same chunks.
    pub fn as_bytes(&self) -> (r: Vec<u8>)
        ensures
            r@ == png_bytes(self@),
            decode_png(r@) == Ok::<Seq<(Seq<u8>, Seq<u8>)>, Error>(self@),
    {
        let h = STANDARD_HEADER;
        let mut r: Vec<u8> = vec![h[0], h[1], h[2], h[3], h[4], h[5], h[6], h[7]];
        proof {
            reveal(chunks_bytes);
            assert(self@.take(0) =~= Seq::<(Seq<u8>, Seq<u8>)>::empty());
            assert(r@ =~= png_bytes(self@.take(0)));
        }
        let mut i: usize = 0;
        while i < self.chunks.len()
            invariant
                i <= self@.len(),
                self@.len() == self.chunks@.len(),
                r@ == png_bytes(self@.take(i as int)),
                forall|j: int| 0 <= j < i ==> valid_chunk((#[trigger] self@[j]).0, self@[j].1),
            decreases self.chunks@.len() - i,
        {
            let b = wire_form(&self.chunks[i]);
            proof {
                assert(self.chunks@[i as int]@ == self@[i as int]);
                lemma_png_bytes_take(self@, i as int);
            }
            append_bytes(&mut r, b.as_slice());
            i += 1;
        }
        proof {
            assert(self@.take(i as int) =~= self@);
            lemma_png_round_trip(self@);
        }
        r
    }

    /// Parses a whole file: the signature, then chunks up to the end.
    pub fn try_from(bytes: &[u8]) -> (r: Result<Png, Error>)
        ensures
            r matches Ok(p) ==> decode_png(bytes@) == Ok::<Seq<(Seq<u8>, Seq<u8>)>, Error>(p@),
            r matches Err(e) ==> decode_png(bytes@) == Err::<Seq<(Seq<u8>, Seq<u8>)>, Error>(e),
    {
        if !has_signature(bytes) {
            return Err(Error::BadSignature);
        }
        let n = bytes.len();
        let mut chunks: Vec<Chunk> = Vec::new();
        let mut i: usize = 8;
        assert(prepend(chunks@.map_values(|c: Chunk| c@), decode_chunks(bytes@.subrange(8, n as int)))
            == decode_chunks(bytes@.subrange(8, n as int))) by {
            assert(chunks@.map_values(|c: Chunk| c@) =~= Seq::<(Seq<u8>, Seq<u8>)>::empty());
            if let Ok(s) = decode_chunks(bytes@.subrange(8, n as int)) {
                assert(Seq::<(Seq<u8>, Seq<u8>)>::empty() + s =~= s);
            }
        }
        while i < n
            invariant
                8 <= i <= n,
                n == bytes@.len(),
                decode_png(bytes@) == prepend(
                    chunks@.map_values(|c: Chunk| c@),
                    decode_chunks(bytes@.subrange(i as int, n as int)),
                ),
            decreases n - i,
        {
            proof {
                reveal(decode_chunks);
            }
            let ghost rest = bytes@.subrange(i as int, n as int);
            let ghost done = chunks@.map_values(|c: Chunk| c@);
            let remaining = n - i;
            if remaining < 3 * CHUNK_SIZE {
                return Err(Error::MalformedChunk);
            }
            let length = u32_from_be(u8_4_from_slice(slice_subrange(bytes, i, i + CHUNK_SIZE)));
            assert(length == be_value(rest));
            if length as usize > remaining - 3 * CHUNK_SIZE {
                return Err(Error::MalformedChunk);
            }
            let end = i + 3 * CHUNK_SIZE + length as usize;
            let ghost len = end - i;
            assert(rest.subrange(0, len as int) =~= bytes@.subrange(i as int, end as int));
            assert(rest.subrange(len as int, rest.len() as int) =~= bytes@.subrange(end as int, n as int));
            match Chunk::try_from(slice_subrange(bytes, i, end)) {
                Ok(c) => {
                    chunks.push(c);
                    proof {
                        assert(chunks@.map_values(|c: Chunk| c@) =~= done.push(c@));
                        if let Ok(s) = decode_chunks(bytes@.subrange(end as int, n as int)) {
                            assert(done + (seq![c@] + s) =~= done.push(c@) + s);
                        }
                    }
                },
                Err(e) => {
                    return Err(e);
                },
            }
            i = end;
        }
        proof {
            reveal(decode_chunks);
            assert(bytes@.subrange(i as int, n as int) =~= Seq::<u8>::empty());
            assert(chunks@.map_values(|c: Chunk| c@) + Seq::<(Seq<u8>, Seq<u8>)>::empty()
                =~= chunks@.map_values(|c: Chunk| c@));
        }
        Ok(Png { chunks })
    }
}

impl<'a> TryFrom<&'a [u8]> for Png {
    type Error = Error;

    fn try_from(bytes: &'a [u8]) -> Result<Png, Error> {
        Png::try_from(bytes)
    }
}

impl<'a> vstd::std_specs::convert::TryFromSpecImpl<&'a [u8]> for Png {
    open spec fn obeys_try_from_spec() -> bool {
        false
    }

    closed spec fn try_from_spec(bytes: &'a [u8]) -> Result<Png, Error> {
        Err(Error::BadSignature)
    }
}

} // verus!
