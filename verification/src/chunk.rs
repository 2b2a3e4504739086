//! One record of the container: a length, a type code, a payload and the
//! checksum of type code and payload.

use vstd::prelude::*;
use vstd::slice::*;
use crate::checksum::{checksum_ieee, crc32_ieee};
use crate::chunk_type::{valid_code, ChunkType};
use crate::error::Error;
use crate::text::{decode_text, decoded};

verus! {

/// What a chunk holds, as mathematical values. The length is not a part of
/// it: it is the length of `data`.
pub struct ChunkView {
    pub chunk_type: Seq<u8>,
    pub data: Seq<u8>,
    pub crc: u32,
}

/// The four bytes of `x`, most significant first.
pub open spec fn be_bytes(x: u32) -> Seq<u8> {
    seq![
        (x / 0x100_0000) as u8,
        (x / 0x1_0000 % 0x100) as u8,
        (x / 0x100 % 0x100) as u8,
        (x % 0x100) as u8,
    ]
}

/// The number that four bytes spell, most significant first.
pub open spec fn be_value(b: Seq<u8>) -> int {
    b[0] * 0x100_0000 + b[1] * 0x1_0000 + b[2] * 0x100 + b[3]
}

/// The length field written for a payload of `n` bytes. The field has 32
/// bits, so a length that does not fit is cut down to its low 32 bits.
pub open spec fn length_field(n: nat) -> u32 {
    (n % 0x1_0000_0000) as u32
}

/// The chunk made from a type code and a payload: its checksum covers the
/// type code followed by the payload.
pub open spec fn chunk_of(code: Seq<u8>, data: Seq<u8>) -> ChunkView {
    ChunkView { chunk_type: code, data, crc: crc32_ieee(code + data) }
}

/// `c` has a well-formed type code and carries the checksum of its contents.
pub open spec fn valid_chunk(c: ChunkView) -> bool {
    valid_code(c.chunk_type) && c.crc == crc32_ieee(c.chunk_type + c.data)
}

/// The bytes of a record with the given parts, whether or not `crc` is the
/// checksum of the others: length, type code, payload, checksum.
pub open spec fn raw_frame(code: Seq<u8>, data: Seq<u8>, crc: u32) -> Seq<u8> {
    be_bytes(length_field(data.len())) + code + data + be_bytes(crc)
}

/// The bytes that a chunk is written as.
pub open spec fn frame(c: ChunkView) -> Seq<u8> {
    raw_frame(c.chunk_type, c.data, c.crc)
}

/// The parts that `bytes`, taken as one whole record, fall into: type code,
/// payload and stored checksum. The declared length is held against the
/// bytes that are there, then the type code is checked. Whether the stored
/// checksum is that of the contents is not asked here.
#[verifier::opaque]
pub open spec fn split_frame(bytes: Seq<u8>) -> Result<ChunkView, Error> {
    if bytes.len() < 4 || bytes.len() != be_value(bytes.subrange(0, 4)) + 12 {
        Err(Error::TruncatedOrOversizedChunk)
    } else {
        let code = bytes.subrange(4, 8);
        let data = bytes.subrange(8, bytes.len() - 4);
        let stored = be_value(bytes.subrange(bytes.len() - 4, bytes.len() as int)) as u32;
        if !valid_code(code) {
            Err(Error::InvalidChunkTypeBytes)
        } else {
            Ok(ChunkView { chunk_type: code, data, crc: stored })
        }
    }
}

/// What holding a computed checksum against a stored one gives.
pub open spec fn crc_checked(computed: u32, stored: u32) -> Result<(), Error> {
    if computed == stored {
        Ok(())
    } else {
        Err(Error::CrcMismatch)
    }
}

/// What reading `bytes` as one whole record gives: its parts, where the
/// stored checksum is the checksum of type code and payload.
pub open spec fn parse_frame(bytes: Seq<u8>) -> Result<ChunkView, Error> {
    match split_frame(bytes) {
        Err(e) => Err(e),
        Ok(c) => match crc_checked(crc32_ieee(c.chunk_type + c.data), c.crc) {
            Err(e) => Err(e),
            Ok(_) => Ok(c),
        },
    }
}

/// Spelling a number as four bytes and reading them back gives the number.
pub proof fn lemma_be_value_of_bytes(x: u32)
    ensures
        be_bytes(x).len() == 4,
        be_value(be_bytes(x)) == x,
{
}

/// Reading four bytes as a number and spelling it gives the bytes.
pub proof fn lemma_be_bytes_of_value(b: Seq<u8>)
    requires
        b.len() == 4,
    ensures
        0 <= be_value(b) <= u32::MAX,
        be_bytes(be_value(b) as u32) == b,
{
    lemma_digits(b[0] as int, b[1] as int, b[2] as int, b[3] as int);
    assert(be_bytes(be_value(b) as u32) =~= b);
}

/// The four base-256 digits of a number are found again by division.
proof fn lemma_digits(b0: int, b1: int, b2: int, b3: int)
    requires
        0 <= b0 < 256,
        0 <= b1 < 256,
        0 <= b2 < 256,
        0 <= b3 < 256,
    ensures
        ({
            let v = b0 * 0x100_0000 + b1 * 0x1_0000 + b2 * 0x100 + b3;
            &&& 0 <= v <= 0xffff_ffff
            &&& v / 0x100_0000 == b0
            &&& v / 0x1_0000 % 0x100 == b1
            &&& v / 0x100 % 0x100 == b2
            &&& v % 0x100 == b3
        }),
{
    let v = b0 * 0x100_0000 + b1 * 0x1_0000 + b2 * 0x100 + b3;
    assert(v / 0x100 == b0 * 0x1_0000 + b1 * 0x100 + b2);
    assert(v / 0x1_0000 == b0 * 0x100 + b1);
    assert(v / 0x100_0000 == b0);
}

/// Writes `x` as four bytes, most significant first.
pub(crate) fn be_encode(x: u32) -> (r: [u8; 4])
    ensures
        r@ == be_bytes(x),
{
    let r: [u8; 4] = [
        (x / 0x100_0000) as u8,
        (x / 0x1_0000 % 0x100) as u8,
        (x / 0x100 % 0x100) as u8,
        (x % 0x100) as u8,
    ];
    assert(r@ =~= be_bytes(x));
    r
}

/// Reads the four bytes of `bytes` that start at `at` as a number, most
/// significant first.
pub(crate) fn be_decode(bytes: &[u8], at: usize) -> (r: u32)
    requires
        at + 4 <= bytes@.len(),
    ensures
        r == be_value(bytes@.subrange(at as int, at + 4)),
{
    let b0: u32 = bytes[at] as u32;
    let b1: u32 = bytes[at + 1] as u32;
    let b2: u32 = bytes[at + 2] as u32;
    let b3: u32 = bytes[at + 3] as u32;
    b0 * 0x100_0000 + b1 * 0x1_0000 + b2 * 0x100 + b3
}

/// Appends `bytes` to `out`.
pub(crate) fn append_bytes(out: &mut Vec<u8>, bytes: &[u8])
    ensures
        final(out)@ == old(out)@ + bytes@,
{
    let mut i: usize = 0;
    while i < bytes.len()
        invariant
            i <= bytes@.len(),
            out@ == old(out)@ + bytes@.subrange(0, i as int),
        decreases bytes@.len() - i,
    {
        out.push(bytes[i]);
        i += 1;
        assert(out@ =~= old(out)@ + bytes@.subrange(0, i as int));
    }
    assert(bytes@.subrange(0, i as int) =~= bytes@);
}

/// The checksum of a type code followed by a payload.
fn checksum_of(chunk_type: &ChunkType, data: &[u8]) -> (crc: u32)
    ensures
        crc == crc32_ieee(chunk_type@ + data@),
        valid_code(chunk_type@),
{
    let mut hashing_data: Vec<u8> = Vec::new();
    append_bytes(&mut hashing_data, chunk_type.bytes().as_slice());
    append_bytes(&mut hashing_data, data);
    assert(hashing_data@ =~= chunk_type@ + data@);
    checksum_ieee(hashing_data.as_slice())
}

/// Takes a byte slice that holds exactly one record apart: checks its length
/// field against its size and its type code, and returns type code, payload
/// and the checksum that is stored with them, which it does not judge.
pub fn read_frame(value: &[u8]) -> (r: Result<(ChunkType, Vec<u8>, u32), Error>)
    ensures
        match split_frame(value@) {
            Ok(c) => r is Ok && r->Ok_0.0@ == c.chunk_type && r->Ok_0.1@ == c.data && r->Ok_0.2
                == c.crc,
            Err(e) => r == Err::<(ChunkType, Vec<u8>, u32), Error>(e),
        },
{
    proof {
        reveal(split_frame);
    }
    let n = value.len();
    if n < 12 {
        return Err(Error::TruncatedOrOversizedChunk);
    }
    let length = be_decode(value, 0);
    if n - 12 != length as usize {
        return Err(Error::TruncatedOrOversizedChunk);
    }
    let code: [u8; 4] = [value[4], value[5], value[6], value[7]];
    assert(code@ =~= value@.subrange(4, 8));
    let chunk_type = match ChunkType::try_from(code) {
        Ok(chunk_type) => chunk_type,
        Err(e) => {
            return Err(e);
        },
    };
    let chunk_data = slice_to_vec(slice_subrange(value, 8, n - 4));
    let stored = be_decode(value, n - 4);
    Ok((chunk_type, chunk_data, stored))
}

/// Holds the checksum that was computed over a record's contents against the
/// one that was stored with them.
pub fn check_crc(computed: u32, stored: u32) -> (r: Result<(), Error>)
    ensures
        r == crc_checked(computed, stored),
{
    if computed != stored {
        return Err(Error::CrcMismatch);
    }
    Ok(())
}

/// A chunk: a type code, a payload, and the CRC-32 of the two. The checksum
/// always belongs to the contents: it is computed when a chunk is made and
/// checked when one is read.
#[derive(Debug)]
pub struct Chunk {
    chunk_type: ChunkType,
    chunk_data: Vec<u8>,
    crc: u32,
}

impl View for Chunk {
    type V = ChunkView;

    closed spec fn view(&self) -> ChunkView {
        ChunkView { chunk_type: self.chunk_type@, data: self.chunk_data@, crc: self.crc }
    }
}

impl Chunk {
    /// Holds of every chunk: its type code is well-formed and its checksum
    /// is that of its contents.
    #[verifier::type_invariant]
    pub open spec fn well_formed(&self) -> bool {
        valid_chunk(self@)
    }

    /// Makes a chunk from a type code and a payload, and computes its
    /// checksum.
    pub fn new(chunk_type: ChunkType, data: Vec<u8>) -> (c: Chunk)
        ensures
            c@ == chunk_of(chunk_type@, data@),
            valid_chunk(c@),
    {
        let crc = checksum_of(&chunk_type, data.as_slice());
        Chunk { chunk_type, chunk_data: data, crc }
    }

    /// Reads a byte slice that holds exactly one record.
    pub fn try_from(value: &[u8]) -> (r: Result<Chunk, Error>)
        ensures
            match parse_frame(value@) {
                Ok(c) => r is Ok && r->Ok_0@ == c,
                Err(e) => r == Err::<Chunk, Error>(e),
            },
    {
        let (chunk_type, chunk_data, stored) = match read_frame(value) {
            Ok(parts) => parts,
            Err(e) => {
                return Err(e);
            },
        };
        let crc = checksum_of(&chunk_type, chunk_data.as_slice());
        match check_crc(crc, stored) {
            Ok(_) => Ok(Chunk { chunk_type, chunk_data, crc }),
            Err(e) => Err(e),
        }
    }

    /// The type code.
    pub fn chunk_type(&self) -> (r: &ChunkType)
        ensures
            r@ == self@.chunk_type,
            valid_chunk(self@),
    {
        proof {
            use_type_invariant(self);
        }
        &self.chunk_type
    }

    /// The number of bytes in the payload.
    pub fn length(&self) -> (r: usize)
        ensures
            r == self@.data.len(),
    {
        self.chunk_data.len()
    }

    /// The payload.
    pub fn data(&self) -> (r: &[u8])
        ensures
            r@ == self@.data,
    {
        self.chunk_data.as_slice()
    }

    /// The payload as text, where it is valid UTF-8; else where it stops
    /// being so.
    pub fn data_as_string(&self) -> (r: Result<String, Error>)
        ensures
            match r {
                Ok(text) => decoded(self@.data, Ok(text@)),
                Err(Error::EncodingError { position }) => decoded(
                    self@.data,
                    Err(position as int),
                ),
                Err(_) => false,
            },
    {
        match decode_text(slice_to_vec(self.chunk_data.as_slice())) {
            Ok(text) => Ok(text),
            Err(position) => Err(Error::EncodingError { position }),
        }
    }

    /// The checksum of type code and payload.
    pub fn crc(&self) -> (r: u32)
        ensures
            r == self@.crc,
            r == crc32_ieee(self@.chunk_type + self@.data),
    {
        proof {
            use_type_invariant(self);
        }
        self.crc
    }

    /// The record as bytes: length, type code, payload, checksum.
    pub fn as_bytes(&self) -> (r: Vec<u8>)
        ensures
            r@ == frame(self@),
            valid_chunk(self@),
    {
        proof {
            use_type_invariant(self);
        }
        let length = (self.chunk_data.len() as u64 % 0x1_0000_0000) as u32;
        let mut out: Vec<u8> = Vec::new();
        append_bytes(&mut out, be_encode(length).as_slice());
        append_bytes(&mut out, self.chunk_type.bytes().as_slice());
        append_bytes(&mut out, self.chunk_data.as_slice());
        append_bytes(&mut out, be_encode(self.crc).as_slice());
        out
    }
}

/// What reading a record gives whose length field is right: first the type
/// code is judged, then the last field is held against the checksum of type
/// code and payload. So a record is read back as its parts exactly when its
/// type code is four letters and its last field is their checksum; altered
/// contents under an old checksum, and an altered checksum, are both a
/// `CrcMismatch`, unless the type code has stopped being one.
pub proof fn lemma_parse_raw_frame(code: Seq<u8>, data: Seq<u8>, crc: u32)
    requires
        code.len() == 4,
        data.len() <= u32::MAX,
    ensures
        parse_frame(raw_frame(code, data, crc)) == if !valid_code(code) {
            Err::<ChunkView, Error>(Error::InvalidChunkTypeBytes)
        } else if crc != crc32_ieee(code + data) {
            Err::<ChunkView, Error>(Error::CrcMismatch)
        } else {
            Ok::<ChunkView, Error>(ChunkView { chunk_type: code, data, crc })
        },
{
    reveal(split_frame);
    let bytes = raw_frame(code, data, crc);
    let n = bytes.len() as int;
    lemma_be_value_of_bytes(length_field(data.len()));
    lemma_be_value_of_bytes(crc);
    assert(n == data.len() + 12);
    assert(bytes.subrange(0, 4) =~= be_bytes(length_field(data.len())));
    assert(bytes.subrange(4, 8) =~= code);
    assert(bytes.subrange(8, n - 4) =~= data);
    assert(bytes.subrange(n - 4, n) =~= be_bytes(crc));
}

/// A chunk made from a type code and a payload, written and read back, is
/// the same chunk: the same type code, payload and checksum, and with the
/// payload the same length. The payload must be one that the 32-bit length
/// field can count.
pub proof fn lemma_new_chunk_round_trip(code: Seq<u8>, data: Seq<u8>)
    requires
        valid_code(code),
        data.len() <= u32::MAX,
    ensures
        parse_frame(frame(chunk_of(code, data))) == Ok::<ChunkView, Error>(chunk_of(code, data)),
{
    lemma_frame_round_trip(chunk_of(code, data));
}

/// Writing any valid chunk and reading the bytes back gives the chunk again,
/// where its payload is one that the 32-bit length field can count.
pub proof fn lemma_frame_round_trip(c: ChunkView)
    requires
        valid_chunk(c),
        c.data.len() <= u32::MAX,
    ensures
        parse_frame(frame(c)) == Ok::<ChunkView, Error>(c),
{
    lemma_parse_raw_frame(c.chunk_type, c.data, c.crc);
}

/// A stored checksum that was altered is always noticed: a chunk's record
/// with any other number in its last field is refused with `CrcMismatch`.
pub proof fn lemma_altered_checksum_rejected(c: ChunkView, stored: u32)
    requires
        valid_chunk(c),
        c.data.len() <= u32::MAX,
        stored != c.crc,
    ensures
        parse_frame(raw_frame(c.chunk_type, c.data, stored)) == Err::<ChunkView, Error>(
            Error::CrcMismatch,
        ),
{
    lemma_parse_raw_frame(c.chunk_type, c.data, stored);
}

/// Bytes that are read as a chunk are the bytes that the chunk is written
/// as, and the chunk is valid and short enough for its length field.
pub proof fn lemma_parsed_frame(bytes: Seq<u8>)
    requires
        parse_frame(bytes) is Ok,
    ensures
        frame(parse_frame(bytes)->Ok_0) == bytes,
        valid_chunk(parse_frame(bytes)->Ok_0),
        parse_frame(bytes)->Ok_0.data.len() + 12 == bytes.len(),
        parse_frame(bytes)->Ok_0.data.len() <= u32::MAX,
{
    reveal(split_frame);
    let c = parse_frame(bytes)->Ok_0;
    let n = bytes.len() as int;
    lemma_be_bytes_of_value(bytes.subrange(0, 4));
    lemma_be_bytes_of_value(bytes.subrange(n - 4, n));
    assert(length_field(c.data.len()) == be_value(bytes.subrange(0, 4)));
    assert(frame(c) =~= bytes);
}

} // verus!
