//! The commands, as functions from the bytes of a file to what is written
//! back or shown. Reading and writing the file is left to the caller.

use vstd::prelude::*;
use vstd::string::*;
use vstd::utf8::*;
use crate::args::{DecodeArgs, EncodeArgs, Opt, RemoveArgs};
use crate::chunk::{chunk_of, Chunk};
use crate::chunk_type::{parse_code, ChunkType};
use crate::error::Error;
use crate::png::{find_type, lemma_parse_serializes, parse_png, serialize, Png};
use crate::text::decoded;

verus! {

/// The file after `encode`: the container that was read, with one more chunk
/// at its end, of the given type and with the message's UTF-8 bytes as its
/// payload. A buffer that is no container is reported before a text that is
/// no type code.
pub open spec fn encoded(input: Seq<u8>, chunk_type: Seq<char>, message: Seq<char>) -> Result<
    Seq<u8>,
    Error,
> {
    match parse_png(input) {
        Err(e) => Err(e),
        Ok(chunks) => match parse_code(chunk_type) {
            Err(e) => Err(e),
            Ok(code) => Ok(serialize(chunks.push(chunk_of(code, encode_utf8(message))))),
        },
    }
}

/// The file after `remove`: the container that was read without its first
/// chunk of the given type.
pub open spec fn removed(input: Seq<u8>, chunk_type: Seq<char>) -> Result<Seq<u8>, Error> {
    match parse_png(input) {
        Err(e) => Err(e),
        Ok(chunks) => match find_type(chunks, chunk_type) {
            None => Err(Error::ChunkNotFound),
            Some(i) => Ok(serialize(chunks.remove(i))),
        },
    }
}

/// Appends a chunk that holds `args.message` under `args.chunk_type` to the
/// container in `input`, and returns the new contents of the file.
pub fn encode(input: &[u8], args: EncodeArgs) -> (r: Result<Vec<u8>, Error>)
    ensures
        match encoded(input@, args.chunk_type@, args.message@) {
            Ok(bytes) => r is Ok && r->Ok_0@ == bytes,
            Err(e) => r == Err::<Vec<u8>, Error>(e),
        },
{
    let mut png = match Png::try_from(input) {
        Ok(png) => png,
        Err(e) => {
            return Err(e);
        },
    };
    let chunk_type = match ChunkType::from_str(args.chunk_type.as_str()) {
        Ok(chunk_type) => chunk_type,
        Err(e) => {
            return Err(e);
        },
    };
    png.append_chunk(Chunk::new(chunk_type, args.message.as_str().as_bytes_vec()));
    Ok(png.as_bytes())
}

/// The message hidden in the first chunk of type `args.chunk_type` of the
/// container in `input`.
pub fn decode(input: &[u8], args: DecodeArgs) -> (r: Result<String, Error>)
    ensures
        match parse_png(input@) {
            Err(e) => r == Err::<String, Error>(e),
            Ok(chunks) => match find_type(chunks, args.chunk_type@) {
                None => r == Err::<String, Error>(Error::ChunkNotFound),
                Some(i) => match r {
                    Ok(text) => decoded(chunks[i].data, Ok(text@)),
                    Err(Error::EncodingError { position }) => decoded(
                        chunks[i].data,
                        Err(position as int),
                    ),
                    Err(_) => false,
                },
            },
        },
{
    let png = match Png::try_from(input) {
        Ok(png) => png,
        Err(e) => {
            return Err(e);
        },
    };
    match png.chunk_by_type(args.chunk_type.as_str()) {
        Some(chunk) => chunk.data_as_string(),
        None => Err(Error::ChunkNotFound),
    }
}

/// Takes the first chunk of type `args.chunk_type` out of the container in
/// `input`, and returns the new contents of the file.
pub fn remove(input: &[u8], args: RemoveArgs) -> (r: Result<Vec<u8>, Error>)
    ensures
        match removed(input@, args.chunk_type@) {
            Ok(bytes) => r is Ok && r->Ok_0@ == bytes,
            Err(e) => r == Err::<Vec<u8>, Error>(e),
        },
{
    let mut png = match Png::try_from(input) {
        Ok(png) => png,
        Err(e) => {
            return Err(e);
        },
    };
    match png.remove_chunk(args.chunk_type.as_str()) {
        Ok(_) => Ok(png.as_bytes()),
        Err(e) => Err(e),
    }
}

/// What `print` shows of the container in `input`: the number of bytes it is
/// written as, and its chunks in order.
pub fn print(input: &[u8]) -> (r: Result<(usize, Png), Error>)
    ensures
        match parse_png(input@) {
            Ok(chunks) => r is Ok && r->Ok_0.0 == input@.len() && r->Ok_0.1@ == chunks,
            Err(e) => r == Err::<(usize, Png), Error>(e),
        },
{
    let png = match Png::try_from(input) {
        Ok(png) => png,
        Err(e) => {
            return Err(e);
        },
    };
    proof {
        lemma_parse_serializes(input@);
    }
    let size = png.as_bytes().len();
    Ok((size, png))
}

/// What is left to do once a command has been worked out on the bytes of its
/// file.
#[derive(Debug)]
pub enum Action {
    /// Write these bytes to the file.
    Write(Vec<u8>),
    /// Show this message, which was hidden in the file.
    Show(String),
    /// Show the size of the file and these chunks.
    List(usize, Png),
}

/// Works out a command on the bytes of its file: which of the four it is
/// decides what is computed and what is then to be done with the result.
pub fn run(opt: Opt, input: &[u8]) -> (r: Result<Action, Error>)
    ensures
        match opt {
            Opt::Encode(args) => match encoded(input@, args.chunk_type@, args.message@) {
                Ok(bytes) => r matches Ok(Action::Write(out)) && out@ == bytes,
                Err(e) => r matches Err(err) && err == e,
            },
            Opt::Decode(args) => match parse_png(input@) {
                Err(e) => r matches Err(err) && err == e,
                Ok(chunks) => match find_type(chunks, args.chunk_type@) {
                    None => r matches Err(Error::ChunkNotFound),
                    Some(i) => match r {
                        Ok(Action::Show(text)) => decoded(chunks[i].data, Ok(text@)),
                        Err(Error::EncodingError { position }) => decoded(
                            chunks[i].data,
                            Err(position as int),
                        ),
                        _ => false,
                    },
                },
            },
            Opt::Remove(args) => match removed(input@, args.chunk_type@) {
                Ok(bytes) => r matches Ok(Action::Write(out)) && out@ == bytes,
                Err(e) => r matches Err(err) && err == e,
            },
            Opt::Print(_) => match parse_png(input@) {
                Ok(chunks) => r matches Ok(Action::List(size, png)) && size == input@.len()
                    && png@ == chunks,
                Err(e) => r matches Err(err) && err == e,
            },
        },
{
    match opt {
        Opt::Encode(args) => match encode(input, args) {
            Ok(bytes) => Ok(Action::Write(bytes)),
            Err(e) => Err(e),
        },
        Opt::Decode(args) => match decode(input, args) {
            Ok(text) => Ok(Action::Show(text)),
            Err(e) => Err(e),
        },
        Opt::Remove(args) => match remove(input, args) {
            Ok(bytes) => Ok(Action::Write(bytes)),
            Err(e) => Err(e),
        },
        Opt::Print(_) => match print(input) {
            Ok((size, png)) => Ok(Action::List(size, png)),
            Err(e) => Err(e),
        },
    }
}

} // verus!
