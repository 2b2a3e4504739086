//! What each command is told to do.

use std::path::PathBuf;
use vstd::prelude::*;

verus! {

/// A path of the file system. The library carries it and never looks inside.
#[verifier::external_type_specification]
#[verifier::external_body]
pub struct ExPathBuf(std::path::PathBuf);

/// Hide a message in a container, in a chunk of the given type.
#[derive(Debug)]
pub struct EncodeArgs {
    /// Path to file
    pub input: PathBuf,
    /// Chunk type
    pub chunk_type: String,
    /// Secret message
    pub message: String,
}

/// Find the message hidden in the first chunk of the given type.
#[derive(Debug)]
pub struct DecodeArgs {
    /// Path to file
    pub input: PathBuf,
    /// Chunk type
    pub chunk_type: String,
}

/// Take the first chunk of the given type out of a container.
#[derive(Debug)]
pub struct RemoveArgs {
    /// Path to file
    pub input: PathBuf,
    /// Chunk type
    pub chunk_type: String,
}

/// Show the chunks of a container.
#[derive(Debug)]
pub struct PrintArgs {
    /// Path to file
    pub input: PathBuf,
}

/// A command, with what it was told.
#[derive(Debug)]
pub enum Opt {
    /// Encodes a message into a PNG file and saves the result
    Encode(EncodeArgs),
    /// Searches for a message hidden in a PNG file and prints the message if one is found
    Decode(DecodeArgs),
    /// Removes a chunk from a PNG file and saves the result
    Remove(RemoveArgs),
    /// Prints all of the chunks in a PNG file
    Print(PrintArgs),
}

impl Opt {
    /// The file that the command works on.
    pub fn input(&self) -> (r: &PathBuf)
        ensures
            *r == match *self {
                Opt::Encode(args) => args.input,
                Opt::Decode(args) => args.input,
                Opt::Remove(args) => args.input,
                Opt::Print(args) => args.input,
            },
    {
        match self {
            Opt::Encode(args) => &args.input,
            Opt::Decode(args) => &args.input,
            Opt::Remove(args) => &args.input,
            Opt::Print(args) => &args.input,
        }
    }
}

} // verus!
