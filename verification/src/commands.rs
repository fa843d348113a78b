//! The four operations on a file: hide a message in it, read the message
//! back, take the message out, and list the bytes.
//!
//! Each takes the bytes of a file and gives back bytes or text; reading and
//! writing the file itself is the caller's part.

use crate::chunk::{Chunk, ChunkView};
use crate::chunk_type::{is_code_text, lemma_code_text_bytes, text_bytes, ChunkType};
use crate::error::PngError;
use crate::png::{
    all_wf, first_of_type, has_type, lemma_first_of_type_after_push, lemma_parse_png_of_wire,
    lemma_wire_of_parsed_png, parse_png, png_wire, Png,
};
use chrono::Local;
use std::str::FromStr;
use vstd::prelude::*;
use vstd::slice::slice_to_vec;
use vstd::string::StringExecFns;
use vstd::utf8::{
    decode_utf8, encode_utf8, encode_utf8_decode_utf8, encode_utf8_valid_utf8, valid_utf8,
};

verus! {

/// The file that `encode` writes: the chunks of `file`, then one more chunk
/// with the given type and the message as its data.
pub open spec fn encoded(file: Seq<u8>, chunk_type: Seq<char>, message: Seq<char>) -> Result<
    Seq<u8>,
    PngError,
> {
    match parse_png(file) {
        Err(e) => Err(e),
        Ok(chunks) => if !is_code_text(chunk_type) {
            Err(PngError::InvalidChunkType)
        } else {
            let chunk = ChunkView {
                chunk_type: text_bytes(chunk_type),
                data: encode_utf8(message),
            };
            Ok(png_wire(chunks.push(chunk)))
        },
    }
}

/// The message that `decode` reads: the data of the first chunk of the given
/// type, as text.
pub open spec fn decoded(file: Seq<u8>, chunk_type: Seq<char>) -> Result<Seq<char>, PngError> {
    match parse_png(file) {
        Err(e) => Err(e),
        Ok(chunks) => match first_of_type(chunks, chunk_type) {
            None => Err(PngError::NotFound),
            Some(i) => if valid_utf8(chunks[i].data) {
                Ok(decode_utf8(chunks[i].data))
            } else {
                Err(PngError::EncodingError)
            },
        },
    }
}

/// The file that `remove` writes: the chunks of `file` without the first
/// chunk of the given type.
pub open spec fn removed(file: Seq<u8>, chunk_type: Seq<char>) -> Result<Seq<u8>, PngError> {
    match parse_png(file) {
        Err(e) => Err(e),
        Ok(chunks) => match first_of_type(chunks, chunk_type) {
            None => Err(PngError::NotFound),
            Some(i) => Ok(png_wire(chunks.remove(i))),
        },
    }
}

/// A message hidden in a file that holds no chunk of the type is the message
/// that is read back, and taking it out again gives the bytes of the file as
/// it was.
pub proof fn lemma_encode_round_trip(
    file: Seq<u8>,
    chunk_type: Seq<char>,
    message: Seq<char>,
)
    requires
        parse_png(file) is Ok,
        is_code_text(chunk_type),
        encode_utf8(message).len() <= u32::MAX,
        first_of_type(parse_png(file).unwrap(), chunk_type) is None,
    ensures
        encoded(file, chunk_type, message) is Ok,
        decoded(encoded(file, chunk_type, message).unwrap(), chunk_type) == Ok::<
            Seq<char>,
            PngError,
        >(message),
        removed(encoded(file, chunk_type, message).unwrap(), chunk_type) == Ok::<
            Seq<u8>,
            PngError,
        >(file),
{
    let chunks = parse_png(file).unwrap();
    let chunk = ChunkView { chunk_type: text_bytes(chunk_type), data: encode_utf8(message) };
    let longer = chunks.push(chunk);
    let written = png_wire(longer);
    assert(all_wf(chunks) && png_wire(chunks) == file) by {
        lemma_wire_of_parsed_png(file);
    }
    assert(chunk.wf() && has_type(chunk, chunk_type)) by {
        lemma_code_text_bytes(chunk_type);
    }
    assert(all_wf(longer));
    assert(parse_png(written) == Ok::<Seq<ChunkView>, PngError>(longer)) by {
        lemma_parse_png_of_wire(longer);
    }
    assert(first_of_type(longer, chunk_type) == Some(chunks.len() as int)) by {
        lemma_first_of_type_after_push(chunks, chunk, chunk_type);
    }
    assert(valid_utf8(chunk.data) && decode_utf8(chunk.data) == message) by {
        encode_utf8_valid_utf8(message);
        encode_utf8_decode_utf8(message);
    }
    assert(longer.remove(chunks.len() as int) == chunks);
}

/// Adds a chunk of type `chunk_type` that holds `message` to the end of the
/// file, and returns the bytes of the new file.
pub fn encode(file: &[u8], chunk_type: &str, message: &str) -> (r: Result<Vec<u8>, PngError>)
    requires
        encode_utf8(message@).len() <= u32::MAX,
    ensures
        match r {
            Ok(bytes) => encoded(file@, chunk_type@, message@) == Ok::<Seq<u8>, PngError>(bytes@),
            Err(e) => encoded(file@, chunk_type@, message@) == Err::<Seq<u8>, PngError>(e),
        },
{
    let mut png = match Png::try_from(file) {
        Ok(png) => png,
        Err(e) => {
            return Err(e);
        },
    };
    let new_chunk_type = match ChunkType::from_str(chunk_type) {
        Ok(new_chunk_type) => new_chunk_type,
        Err(e) => {
            return Err(e);
        },
    };
    let new_chunk = Chunk::new(new_chunk_type, slice_to_vec(message.as_bytes()));
    png.append_chunk(new_chunk);
    Ok(png.as_bytes())
}

/// Reads the message that the first chunk of type `chunk_type` holds.
pub fn decode(file: &[u8], chunk_type: &str) -> (r: Result<String, PngError>)
    ensures
        match r {
            Ok(message) => decoded(file@, chunk_type@) == Ok::<Seq<char>, PngError>(message@),
            Err(e) => decoded(file@, chunk_type@) == Err::<Seq<char>, PngError>(e),
        },
{
    let png = match Png::try_from(file) {
        Ok(png) => png,
        Err(e) => {
            return Err(e);
        },
    };
    match png.chunk_by_type(chunk_type) {
        Some(chunk) => chunk.data_as_string(),
        None => Err(PngError::NotFound),
    }
}

/// Takes the first chunk of type `chunk_type` out of the file, and returns
/// the bytes of the new file.
pub fn remove(file: &[u8], chunk_type: &str) -> (r: Result<Vec<u8>, PngError>)
    ensures
        match r {
            Ok(bytes) => removed(file@, chunk_type@) == Ok::<Seq<u8>, PngError>(bytes@),
            Err(e) => removed(file@, chunk_type@) == Err::<Seq<u8>, PngError>(e),
        },
{
    let mut png = match Png::try_from(file) {
        Ok(png) => png,
        Err(e) => {
            return Err(e);
        },
    };
    match png.remove_chunk(chunk_type) {
        Ok(_) => Ok(png.as_bytes()),
        Err(e) => Err(e),
    }
}

/// The bytes of the file as it is written again after reading: the bytes that
/// were read.
pub fn print(file: &[u8]) -> (r: Result<Vec<u8>, PngError>)
    ensures
        match r {
            Ok(bytes) => parse_png(file@) is Ok && bytes@ == file@,
            Err(e) => parse_png(file@) == Err::<Seq<ChunkView>, PngError>(e),
        },
{
    let png = match Png::try_from(file) {
        Ok(png) => png,
        Err(e) => {
            return Err(e);
        },
    };
    Ok(png.as_bytes())
}

/// What a time stamp in a file name looks like: it starts and ends with an
/// underscore.
pub open spec fn is_time_stamp(stamp: Seq<char>) -> bool {
    stamp.len() >= 2 && stamp.first() == '_' && stamp.last() == '_'
}

/// The name `prefix`, `stamp`, `stem`, a dot and `extension` make.
pub open spec fn stamped_name(
    prefix: Seq<char>,
    stamp: Seq<char>,
    stem: Seq<char>,
    extension: Seq<char>,
) -> Seq<char> {
    prefix + stamp + stem + seq!['.'] + extension
}

/// Calls `chrono::Local::now` and renders the time with `DateTime::format`.
/// The format is hours, minutes, seconds, day, month and year between two
/// underscores; the text that comes back starts and ends with the underscores
/// of the format, and nothing is claimed of what stands between them. Where
/// the system clock is set before 1970, or the local time zone cannot be
/// found, `Local::now` panics.
#[verifier::external_body]
fn local_time(format: &str) -> (r: String)
    requires
        format@ == "_%H%M%S%d%m%Y_"@,
    ensures
        is_time_stamp(r@),
{
    format!("{}", Local::now().format(format))
}

/// The file name made of a prefix, a time stamp, and the stem and extension
/// of another file name.
pub fn stamped_file_name(prefix: &str, stamp: &str, stem: &str, extension: &str) -> (r: String)
    ensures
        r@ == stamped_name(prefix@, stamp@, stem@, extension@),
{
    proof {
        reveal_strlit(".");
    }
    let mut name = prefix.to_owned();
    name.append(stamp);
    name.append(stem);
    name.append(".");
    name.append(extension);
    name
}

/// A new name for a file with the given stem and extension: the prefix, the
/// local time, the stem, a dot and the extension. The new name is never the
/// name it was made from.
pub fn set_new_file_name(prefix: &str, stem: &str, extension: &str) -> (r: String)
    ensures
        exists|stamp: Seq<char>|
            is_time_stamp(stamp) && r@ == #[trigger] stamped_name(
                prefix@,
                stamp,
                stem@,
                extension@,
            ),
        r@ != stem@ + seq!['.'] + extension@,
{
    let now = local_time("_%H%M%S%d%m%Y_");
    let name = stamped_file_name(prefix, now.as_str(), stem, extension);
    assert(name@.len() > (stem@ + seq!['.'] + extension@).len());
    name
}

} // verus!
