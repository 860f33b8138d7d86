//! Whole-file edits: hide a message, read it back, remove it.
//!
//! Each takes the bytes of a PNG file and returns the bytes to write back or
//! the message found; reading and writing the file is left to the caller.
use vstd::prelude::*;
use vstd::string::StringSliceAdditionalSpecFns;
use vstd::utf8::*;

use crate::chunk::Chunk;
use crate::chunk_type::valid_type_code;
use crate::error::Error;
use crate::png::{decode_png, has_type, is_first_of_type, png_bytes, Png};

verus! {

/// Appends a chunk of type `chunk_type` holding `message` to the file
/// `png`, and returns the bytes of the new file.
pub fn encode(png: &[u8], chunk_type: &str, message: &str) -> (r: Result<Vec<u8>, Error>)
    requires
        message.spec_bytes().len() <= u32::MAX,
    ensures
        r is Ok <==> decode_png(png@) is Ok && valid_type_code(chunk_type.spec_bytes()),
        decode_png(png@) matches Err(e) ==> r == Err::<Vec<u8>, Error>(e),
        decode_png(png@) is Ok && !valid_type_code(chunk_type.spec_bytes()) ==> r
            == Err::<Vec<u8>, Error>(Error::InvalidTypeCode),
        r matches Ok(out) ==> out@ == png_bytes(
            decode_png(png@)->Ok_0.push((chunk_type.spec_bytes(), message.spec_bytes())),
        ),
{
    let mut file = match Png::try_from(png) {
        Ok(p) => p,
        Err(e) => {
            return Err(e);
        },
    };
    let chunk = match Chunk::from_strings(chunk_type, message) {
        Ok(c) => c,
        Err(e) => {
            return Err(e);
        },
    };
    file.append_chunk(chunk);
    Ok(file.as_bytes())
}

/// The message in the first chunk of type `chunk_type` of the file `png`.
pub fn decode(png: &[u8], chunk_type: &str) -> (r: Result<String, Error>)
    ensures
        r is Ok <==> decode_png(png@) is Ok && has_type(decode_png(png@)->Ok_0, chunk_type.spec_bytes())
            && forall|i: int|
            is_first_of_type(decode_png(png@)->Ok_0, chunk_type.spec_bytes(), i) ==> valid_utf8(
                #[trigger] decode_png(png@)->Ok_0[i].1,
            ),
        decode_png(png@) matches Err(e) ==> r == Err::<String, Error>(e),
        decode_png(png@) matches Ok(v) ==> (!has_type(v, chunk_type.spec_bytes()) <==> r
            == Err::<String, Error>(Error::ChunkNotFound)),
        r matches Err(e) ==> e == Error::TextDecode || decode_png(png@) == Err::<
            Seq<(Seq<u8>, Seq<u8>)>,
            Error,
        >(e) || e == Error::ChunkNotFound,
        r matches Ok(s) ==> exists|i: int|
            is_first_of_type(decode_png(png@)->Ok_0, chunk_type.spec_bytes(), i) && s@
                == decode_utf8(decode_png(png@)->Ok_0[i].1),
{
    let file = match Png::try_from(png) {
        Ok(p) => p,
        Err(e) => {
            return Err(e);
        },
    };
    match file.chunk_by_type(chunk_type) {
        Some(c) => c.data_as_string(),
        None => Err(Error::ChunkNotFound),
    }
}

/// Removes the first chunk of type `chunk_type` from the file `png`, and
/// returns the bytes of the new file.
pub fn remove(png: &[u8], chunk_type: &str) -> (r: Result<Vec<u8>, Error>)
    ensures
        r is Ok <==> decode_png(png@) is Ok && has_type(decode_png(png@)->Ok_0, chunk_type.spec_bytes()),
        decode_png(png@) matches Err(e) ==> r == Err::<Vec<u8>, Error>(e),
        decode_png(png@) matches Ok(v) && !has_type(v, chunk_type.spec_bytes()) ==> r
            == Err::<Vec<u8>, Error>(Error::ChunkNotFound),
        r matches Ok(out) ==> exists|i: int|
            is_first_of_type(decode_png(png@)->Ok_0, chunk_type.spec_bytes(), i) && out@
                == png_bytes(decode_png(png@)->Ok_0.remove(i)),
{
    let mut file = match Png::try_from(png) {
        Ok(p) => p,
        Err(e) => {
            return Err(e);
        },
    };
    match file.remove_chunk(chunk_type) {
        Ok(_) => Ok(file.as_bytes()),
        Err(e) => Err(e),
    }
}

} // verus!
