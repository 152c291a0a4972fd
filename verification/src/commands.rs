//! The four commands on the bytes of a PNG file: what each of them gives
//! back for the bytes read, before anything is written or shown.

use vstd::prelude::*;
use vstd::slice::*;
use vstd::utf8::*;
use crate::chunk::{Chunk, ChunkView};
use crate::chunk_type::{four_letters, ChunkType};
use crate::png::{listing, lookup, parse, position, serialize, text_types, without, Png};
use crate::{same_outcome, Error};
use std::str::FromStr;

verus! {

/// The file that `encode` is asked to leave with `message` in a new chunk of
/// the type `chunk_type` at its end, for the file `png_bytes`.
pub open spec fn encoded(png_bytes: Seq<u8>, chunk_type: Seq<char>, message: Seq<char>) -> Result<
    Seq<u8>,
    Error,
> {
    match parse(png_bytes) {
        Err(e) => Err(e),
        Ok(chunks) => if four_letters(chunk_type) {
            Ok(serialize(chunks.push(ChunkView::of_texts(chunk_type, message))))
        } else {
            Err(Error::FormatError)
        },
    }
}

/// The message that the first chunk of the type `chunk_type` holds in the file `png_bytes`.
pub open spec fn decoded(png_bytes: Seq<u8>, chunk_type: Seq<char>) -> Result<Seq<char>, Error> {
    match parse(png_bytes) {
        Err(e) => Err(e),
        Ok(chunks) => match lookup(chunks, chunk_type) {
            None => Err(Error::NotFound),
            Some(chunk) => if valid_utf8(chunk.data) {
                Ok(decode_utf8(chunk.data))
            } else {
                Err(Error::EncodingError)
            },
        },
    }
}

/// The file `png_bytes` without its first chunk of the type `chunk_type`.
pub open spec fn removed(png_bytes: Seq<u8>, chunk_type: Seq<char>) -> Result<Seq<u8>, Error> {
    match parse(png_bytes) {
        Err(e) => Err(e),
        Ok(chunks) => if position(chunks, chunk_type) < chunks.len() {
            Ok(serialize(without(chunks, chunk_type)))
        } else {
            Err(Error::NotFound)
        },
    }
}

/// The listing of the chunks of the file `png_bytes`.
pub open spec fn printed(png_bytes: Seq<u8>) -> Result<Seq<char>, Error> {
    match parse(png_bytes) {
        Err(e) => Err(e),
        Ok(chunks) => Ok(listing(chunks)),
    }
}

/// True unless `png_bytes` is a container with a chunk whose type code is no text.
pub open spec fn printable(png_bytes: Seq<u8>) -> bool {
    parse(png_bytes) matches Ok(chunks) ==> text_types(chunks)
}

/// Where `encode` writes the file: to `output_file` if one is named, else
/// back to `file_path`, the file that was read.
pub fn destination<'a, P>(file_path: &'a P, output_file: &'a Option<P>) -> (to: &'a P)
    ensures
        *to == match *output_file {
            Some(path) => path,
            None => *file_path,
        },
{
    match output_file {
        Some(path) => path,
        None => file_path,
    }
}

/// Puts `message` into the file `png_bytes`, in a new chunk of the type
/// `chunk_type` behind the chunks that are there, and gives the new file.
pub fn encode(png_bytes: &[u8], chunk_type: &str, message: &str) -> (r: Result<Vec<u8>, Error>)
    requires
        message.len() <= u32::MAX,
    ensures
        same_outcome(r, encoded(png_bytes@, chunk_type@, message@)),
        r matches Ok(file) ==> parse(file@) == Ok::<Seq<ChunkView>, Error>(
            parse(png_bytes@).unwrap().push(ChunkView::of_texts(chunk_type@, message@)),
        ),
{
    let mut png = match Png::try_from(png_bytes) {
        Ok(png) => png,
        Err(e) => {
            return Err(e);
        },
    };
    let chunk_type = match ChunkType::from_str(chunk_type) {
        Ok(chunk_type) => chunk_type,
        Err(e) => {
            return Err(e);
        },
    };
    let chunk = Chunk::new(chunk_type, slice_to_vec(message.as_bytes()));
    png.append_chunk(chunk);
    Ok(png.as_bytes())
}

/// Reads the message that the first chunk of the type `chunk_type` holds in
/// the file `png_bytes`.
pub fn decode(png_bytes: &[u8], chunk_type: &str) -> (r: Result<String, Error>)
    ensures
        same_outcome(r, decoded(png_bytes@, chunk_type@)),
{
    let png = match Png::try_from(png_bytes) {
        Ok(png) => png,
        Err(e) => {
            return Err(e);
        },
    };
    match png.chunk_by_type(chunk_type) {
        Some(chunk) => chunk.data_as_string(),
        None => Err(Error::NotFound),
    }
}

/// Takes the first chunk of the type `chunk_type` out of the file
/// `png_bytes`, and gives the new file.
pub fn remove(png_bytes: &[u8], chunk_type: &str) -> (r: Result<Vec<u8>, Error>)
    ensures
        same_outcome(r, removed(png_bytes@, chunk_type@)),
        r matches Ok(file) ==> parse(file@) == Ok::<Seq<ChunkView>, Error>(
            without(parse(png_bytes@).unwrap(), chunk_type@),
        ),
{
    let mut png = match Png::try_from(png_bytes) {
        Ok(png) => png,
        Err(e) => {
            return Err(e);
        },
    };
    match png.remove_chunk(chunk_type) {
        Ok(_) => Ok(png.as_bytes()),
        Err(e) => Err(e),
    }
}

/// Lists the chunks of the file `png_bytes`.
pub fn print(png_bytes: &[u8]) -> (r: Result<String, Error>)
    requires
        printable(png_bytes@),
    ensures
        same_outcome(r, printed(png_bytes@)),
{
    match Png::try_from(png_bytes) {
        Ok(png) => Ok(png.to_string()),
        Err(e) => Err(e),
    }
}

} // verus!
