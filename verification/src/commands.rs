//! The four operations on a file, from the bytes read to the bytes to write
//! or the text to show.

use crate::bytes::push_all;
use crate::chunk::{built, Chunk};
use crate::chunk_type::{tag_of_text, ChunkType};
use crate::error::PngError;
use crate::png::{first_index, has_type, parse_png, render_chunks, wire_png, Png};
use crate::text::text_of_bytes;
use vstd::prelude::*;
use vstd::string::StringSliceAdditionalSpecFns;
use vstd::utf8::*;

verus! {

/// The file with a new chunk of the given type and message at its end.
pub open spec fn encode_spec(bytes: Seq<u8>, chunk: Seq<u8>, message: Seq<u8>) -> Result<
    Seq<u8>,
    PngError,
> {
    match parse_png(bytes) {
        Err(e) => Err(e),
        Ok(cs) => match tag_of_text(chunk) {
            Err(e) => Err(e),
            Ok(tag) => Ok(wire_png(cs.push(built(tag, message)))),
        },
    }
}

/// The message in the first chunk of the given type, if there is such a
/// chunk.
pub open spec fn decode_spec(bytes: Seq<u8>, chunk_type: Seq<u8>) -> Result<
    Option<Seq<char>>,
    PngError,
> {
    match parse_png(bytes) {
        Err(e) => Err(e),
        Ok(cs) => match tag_of_text(chunk_type) {
            Err(e) => Err(e),
            Ok(tag) => if !has_type(cs, tag) {
                Ok(None)
            } else if valid_utf8(cs[first_index(cs, tag)].data) {
                Ok(Some(decode_utf8(cs[first_index(cs, tag)].data)))
            } else {
                Err(PngError::NotUtf8)
            },
        },
    }
}

/// The file without the first chunk of the given type.
pub open spec fn remove_spec(bytes: Seq<u8>, chunk_type: Seq<u8>) -> Result<Seq<u8>, PngError> {
    match parse_png(bytes) {
        Err(e) => Err(e),
        Ok(cs) => match tag_of_text(chunk_type) {
            Err(e) => Err(e),
            Ok(tag) => if has_type(cs, tag) {
                Ok(wire_png(cs.remove(first_index(cs, tag))))
            } else {
                Err(PngError::ChunkNotFound)
            },
        },
    }
}

/// The listing of the chunks of the file.
pub open spec fn print_spec(bytes: Seq<u8>) -> Result<Seq<char>, PngError> {
    match parse_png(bytes) {
        Err(e) => Err(e),
        Ok(cs) => Ok(text_of_bytes(render_chunks(cs))),
    }
}

/// Appends a chunk of type `chunk` that carries `message` to the file in
/// `bytes`, and gives the bytes of the new file.
pub fn encode(bytes: &[u8], chunk: &str, message: &str) -> (r: Result<Vec<u8>, PngError>)
    requires
        message.spec_bytes().len() <= u32::MAX,
    ensures
        match encode_spec(bytes@, chunk.spec_bytes(), message.spec_bytes()) {
            Ok(b) => r is Ok && r.unwrap()@ == b,
            Err(e) => r == Err::<Vec<u8>, PngError>(e),
        },
{
    let mut tmp_png = match Png::try_from(bytes) {
        Ok(p) => p,
        Err(e) => {
            return Err(e);
        },
    };
    let tmp_type = match ChunkType::from_str(chunk) {
        Ok(t) => t,
        Err(e) => {
            return Err(e);
        },
    };
    let mut data: Vec<u8> = Vec::new();
    push_all(&mut data, message.as_bytes());
    let tmp_chunk = Chunk::new(tmp_type, data);
    tmp_png.append_chunk(tmp_chunk);
    Ok(tmp_png.as_bytes())
}

/// Reads the message that the first chunk of type `chunk_type` carries in
/// the file in `bytes`. That there is no such chunk is no error.
pub fn decode(bytes: &[u8], chunk_type: &str) -> (r: Result<Option<String>, PngError>)
    ensures
        match decode_spec(bytes@, chunk_type.spec_bytes()) {
            Ok(Some(t)) => r matches Ok(Some(s)) && s@ == t,
            Ok(None) => r matches Ok(None),
            Err(e) => r matches Err(x) && x == e,
        },
{
    let tmp_png = match Png::try_from(bytes) {
        Ok(p) => p,
        Err(e) => {
            return Err(e);
        },
    };
    let found = match tmp_png.chunk_by_type(chunk_type) {
        Ok(f) => f,
        Err(e) => {
            return Err(e);
        },
    };
    match found {
        Some(chunk) => match chunk.data_as_string() {
            Ok(s) => Ok(Some(s)),
            Err(e) => Err(e),
        },
        None => Ok(None),
    }
}

/// Removes the first chunk of type `chunk_type` from the file in `bytes`,
/// and gives the bytes of the new file.
pub fn remove(bytes: &[u8], chunk_type: &str) -> (r: Result<Vec<u8>, PngError>)
    ensures
        match remove_spec(bytes@, chunk_type.spec_bytes()) {
            Ok(b) => r is Ok && r.unwrap()@ == b,
            Err(e) => r == Err::<Vec<u8>, PngError>(e),
        },
{
    let mut tmp_png = match Png::try_from(bytes) {
        Ok(p) => p,
        Err(e) => {
            return Err(e);
        },
    };
    match tmp_png.remove_chunk(chunk_type) {
        Ok(_) => Ok(tmp_png.as_bytes()),
        Err(e) => Err(e),
    }
}

/// Lists the chunks of the file in `bytes`, one to a line.
pub fn print(bytes: &[u8]) -> (r: Result<String, PngError>)
    ensures
        match print_spec(bytes@) {
            Ok(t) => r is Ok && r.unwrap()@ == t,
            Err(e) => r matches Err(x) && x == e,
        },
{
    let tmp_png = match Png::try_from(bytes) {
        Ok(p) => p,
        Err(e) => {
            return Err(e);
        },
    };
    Ok(tmp_png.to_string())
}

} // verus!
