//! The three operations on a file's bytes: hide a message, read it, remove it.
//!
//! Each takes the bytes of a PNG file and gives back plain values. Reading
//! and writing files is left to the caller.

use vstd::prelude::*;
use vstd::string::{StrSliceExecFns, StringSliceAdditionalSpecFns};
use crate::chunk::{chunk_fits, Chunk, ChunkView};
use crate::chunk_type::{lemma_name_is_valid_tag, parse_name, ChunkType};
use crate::error::PngError;
use crate::png::{
    has_type, is_first_of_type, lemma_png_round_trip, lemma_png_wire_of_parsed,
    lemma_wire_of_parsed_chunks, parse_png, png_wire, Png,
};
use crate::text::bytes_text;

verus! {

/// The file that `encode` writes, or why it writes none.
pub open spec fn encoded(file: Seq<u8>, name: Seq<char>, payload: Seq<u8>) -> Result<
    Seq<u8>,
    PngError,
> {
    match parse_png(file) {
        Err(e) => Err(e),
        Ok(chunks) => match parse_name(name) {
            Err(e) => Err(e),
            Ok(tag) => if payload.len() > u32::MAX {
                Err(PngError::UnrepresentableSize)
            } else {
                Ok(png_wire(chunks.push(ChunkView { chunk_type: tag, data: payload })))
            },
        },
    }
}

/// Hides `message` in the file `png`: the result is the file with one more
/// chunk at its end, of the named type, whose payload is the message's bytes.
///
/// The file must parse, the name must be a valid chunk type, and the
/// message must fit a chunk; the first of these that fails is reported.
pub fn encode(png: &[u8], chunk_type: &str, message: &str) -> (r: Result<Vec<u8>, PngError>)
    ensures
        match encoded(png@, chunk_type@, message.spec_bytes()) {
            Ok(file) => r.is_ok() && r.unwrap()@ == file,
            Err(e) => r == Err::<Vec<u8>, PngError>(e),
        },
{
    let mut image = match Png::try_from(png) {
        Ok(image) => image,
        Err(e) => {
            return Err(e);
        },
    };
    let chunk_type = match ChunkType::from_str(chunk_type) {
        Ok(t) => t,
        Err(e) => {
            return Err(e);
        },
    };
    let secret = match Chunk::new(chunk_type, message.as_bytes_vec()) {
        Ok(chunk) => chunk,
        Err(e) => {
            return Err(e);
        },
    };
    image.append_chunk(secret);
    Ok(image.as_bytes())
}

/// Reads the message hidden in the file `png` under the named type: the
/// payload of the first chunk of that type, as text. `None` says that the
/// file holds no chunk of that type.
pub fn decode(png: &[u8], chunk_type: &str) -> (r: Result<Option<String>, PngError>)
    ensures
        match parse_png(png@) {
            Err(e) => r == Err::<Option<String>, PngError>(e),
            Ok(chunks) => match parse_name(chunk_type@) {
                Err(_) => r == Err::<Option<String>, PngError>(PngError::InvalidChunkType),
                Ok(tag) => match r {
                    Ok(Some(text)) => exists|i: int|
                        is_first_of_type(chunks, tag, i) && text@ == bytes_text(chunks[i].data),
                    Ok(None) => !has_type(chunks, tag),
                    Err(_) => false,
                },
            },
        },
{
    let image = match Png::try_from(png) {
        Ok(image) => image,
        Err(e) => {
            return Err(e);
        },
    };
    match image.chunk_by_type(chunk_type) {
        Err(e) => Err(e),
        Ok(None) => Ok(None),
        Ok(Some(chunk)) => Ok(Some(chunk.to_string())),
    }
}

/// Removes the first chunk of the named type from the file `png` and gives
/// the file without it.
pub fn remove(png: &[u8], chunk_type: &str) -> (r: Result<Vec<u8>, PngError>)
    ensures
        match parse_png(png@) {
            Err(e) => r == Err::<Vec<u8>, PngError>(e),
            Ok(chunks) => match parse_name(chunk_type@) {
                Err(_) => r == Err::<Vec<u8>, PngError>(PngError::InvalidChunkType),
                Ok(tag) => if has_type(chunks, tag) {
                    r.is_ok() && exists|i: int|
                        is_first_of_type(chunks, tag, i) && r.unwrap()@ == png_wire(
                            chunks.remove(i),
                        )
                } else {
                    r == Err::<Vec<u8>, PngError>(PngError::ChunkNotFound)
                },
            },
        },
{
    let mut image = match Png::try_from(png) {
        Ok(image) => image,
        Err(e) => {
            return Err(e);
        },
    };
    match image.remove_chunk(chunk_type) {
        Err(e) => Err(e),
        Ok(_) => Ok(image.as_bytes()),
    }
}

/// A message hidden in a file that held no chunk of the chosen type is what
/// a lookup of that type then finds, and removing it gives the file as it
/// was, byte for byte.
pub proof fn lemma_hidden_message_round_trip(file: Seq<u8>, name: Seq<char>, payload: Seq<u8>)
    requires
        parse_png(file).is_ok(),
        parse_name(name).is_ok(),
        payload.len() <= u32::MAX,
        !has_type(parse_png(file).unwrap(), parse_name(name).unwrap()),
    ensures
        ({
            let chunks = parse_png(file).unwrap();
            let tag = parse_name(name).unwrap();
            let hidden = ChunkView { chunk_type: tag, data: payload };
            let all = chunks.push(hidden);
            &&& encoded(file, name, payload) == Ok::<Seq<u8>, PngError>(png_wire(all))
            &&& parse_png(png_wire(all)) == Ok::<Seq<ChunkView>, PngError>(all)
            &&& is_first_of_type(all, tag, chunks.len() as int)
            &&& all[chunks.len() as int] == hidden
            &&& png_wire(all.remove(chunks.len() as int)) == file
            &&& !has_type(all.remove(chunks.len() as int), tag)
        }),
{
    let chunks = parse_png(file).unwrap();
    let tag = parse_name(name).unwrap();
    let hidden = ChunkView { chunk_type: tag, data: payload };
    let all = chunks.push(hidden);
    lemma_name_is_valid_tag(name);
    lemma_wire_of_parsed_chunks(file.subrange(8, file.len() as int));
    lemma_png_wire_of_parsed(file);
    assert forall|i: int| 0 <= i < all.len() implies chunk_fits(#[trigger] all[i]) by {
        if i < chunks.len() {
            assert(all[i] == chunks[i]);
        }
    }
    lemma_png_round_trip(all);
    assert forall|j: int| 0 <= j < chunks.len() implies (#[trigger] all[j]).chunk_type != tag by {
        assert(all[j] == chunks[j]);
    }
    assert(all.remove(chunks.len() as int) =~= chunks);
}

} // verus!
