//! The container: a fixed signature followed by chunks, in an order that
//! matters.

use vstd::prelude::*;
use vstd::slice::*;
use crate::chunk::{
    append_bytes, be_bytes, be_decode, be_value, frame, lemma_be_value_of_bytes,
    lemma_frame_round_trip, lemma_parsed_frame, length_field, parse_frame, valid_chunk, Chunk,
    ChunkView,
};
use crate::chunk_type::{
    code_text, lemma_code_text_parses, lemma_parsed_code, parse_code, ChunkType,
};
use crate::error::Error;

verus! {

/// The eight bytes that every container starts with.
pub const STANDARD_HEADER: [u8; 8] = [137, 80, 78, 71, 13, 10, 26, 10];

/// The signature as a sequence.
pub open spec fn signature() -> Seq<u8> {
    seq![137u8, 80u8, 78u8, 71u8, 13u8, 10u8, 26u8, 10u8]
}

/// The records of `chunks`, one after the other.
pub open spec fn frames(chunks: Seq<ChunkView>) -> Seq<u8>
    decreases chunks.len(),
{
    if chunks.len() == 0 {
        Seq::empty()
    } else {
        frame(chunks[0]) + frames(chunks.drop_first())
    }
}

/// The bytes that a container with these chunks is written as.
pub open spec fn serialize(chunks: Seq<ChunkView>) -> Seq<u8> {
    signature() + frames(chunks)
}

/// What reading `bytes` as records laid end to end gives. Each record's own
/// length field says where the next one starts; the first record that cannot
/// be read decides the error.
pub open spec fn parse_frames(bytes: Seq<u8>) -> Result<Seq<ChunkView>, Error>
    decreases bytes.len(),
{
    if bytes.len() == 0 {
        Ok(Seq::empty())
    } else if bytes.len() < 4 || bytes.len() < be_value(bytes.subrange(0, 4)) + 12 {
        Err(Error::TruncatedOrOversizedChunk)
    } else {
        let n = be_value(bytes.subrange(0, 4)) + 12;
        match parse_frame(bytes.subrange(0, n)) {
            Err(e) => Err(e),
            Ok(c) => match parse_frames(bytes.subrange(n, bytes.len() as int)) {
                Err(e) => Err(e),
                Ok(rest) => Ok(seq![c] + rest),
            },
        }
    }
}

/// What reading `bytes` as a container gives.
pub open spec fn parse_png(bytes: Seq<u8>) -> Result<Seq<ChunkView>, Error> {
    if bytes.len() < 8 || bytes.subrange(0, 8) != signature() {
        Err(Error::BadSignature)
    } else {
        parse_frames(bytes.subrange(8, bytes.len() as int))
    }
}

/// A reading of the rest of the bytes, behind the chunks that were read
/// before it.
pub open spec fn prepend(head: Seq<ChunkView>, rest: Result<Seq<ChunkView>, Error>) -> Result<
    Seq<ChunkView>,
    Error,
> {
    match rest {
        Ok(tail) => Ok(head + tail),
        Err(e) => Err(e),
    }
}

/// Every chunk of `chunks` is valid.
pub open spec fn valid_chunks(chunks: Seq<ChunkView>) -> bool {
    forall|i: int| 0 <= i < chunks.len() ==> valid_chunk(#[trigger] chunks[i])
}

/// Every payload of `chunks` has a length that the 32-bit length field can
/// count.
pub open spec fn framable(chunks: Seq<ChunkView>) -> bool {
    forall|i: int| 0 <= i < chunks.len() ==> (#[trigger] chunks[i]).data.len() <= u32::MAX
}

/// The chunk at `i` has the type code that `text` spells: `text`, read as a
/// type code, gives the chunk's own. A text that spells no type code matches
/// no chunk.
pub open spec fn type_at(chunks: Seq<ChunkView>, text: Seq<char>, i: int) -> bool {
    0 <= i < chunks.len() && parse_code(text) == Ok::<Seq<u8>, Error>(chunks[i].chunk_type)
}

/// Some chunk has the type code that `text` spells.
pub open spec fn has_type(chunks: Seq<ChunkView>, text: Seq<char>) -> bool {
    exists|i: int| type_at(chunks, text, i)
}

/// The chunk at `i` is the first one with the type code that `text` spells.
pub open spec fn first_of_type(chunks: Seq<ChunkView>, text: Seq<char>, i: int) -> bool {
    type_at(chunks, text, i) && forall|j: int| 0 <= j < i ==> !type_at(chunks, text, j)
}

/// The index of the first chunk with the type code that `text` spells, if
/// there is one.
pub open spec fn find_type(chunks: Seq<ChunkView>, text: Seq<char>) -> Option<int> {
    if exists|i: int| first_of_type(chunks, text, i) {
        Some(choose|i: int| first_of_type(chunks, text, i))
    } else {
        None
    }
}

/// `find_type` gives the one index that is first of its type, and gives
/// nothing exactly when no chunk has the type.
pub proof fn lemma_find_type(chunks: Seq<ChunkView>, text: Seq<char>)
    ensures
        forall|i: int|
            first_of_type(chunks, text, i) ==> find_type(chunks, text) == Some(i),
        find_type(chunks, text) is None <==> !has_type(chunks, text),
{
    assert forall|i: int| first_of_type(chunks, text, i) implies find_type(chunks, text)
        == Some(i) by {
        let k = choose|k: int| first_of_type(chunks, text, k);
        assert(first_of_type(chunks, text, k));
        assert(!(k < i));
        assert(!(i < k));
    }
    if has_type(chunks, text) {
        let i = choose|i: int| type_at(chunks, text, i);
        lemma_first_exists(chunks, text, i);
    }
}

/// Where some chunk up to `i` has the type, one of them is the first.
proof fn lemma_first_exists(chunks: Seq<ChunkView>, text: Seq<char>, i: int)
    requires
        type_at(chunks, text, i),
    ensures
        exists|k: int| first_of_type(chunks, text, k),
    decreases i,
{
    if exists|j: int| 0 <= j < i && type_at(chunks, text, j) {
        let j = choose|j: int| 0 <= j < i && type_at(chunks, text, j);
        lemma_first_exists(chunks, text, j);
    } else {
        assert(first_of_type(chunks, text, i));
    }
}

/// What each of `chunks` holds, in the same order.
pub open spec fn views(chunks: Seq<Chunk>) -> Seq<ChunkView> {
    chunks.map_values(|c: Chunk| c@)
}

/// A container: its chunks, in order. The signature is the same for all.
#[derive(Debug)]
pub struct Png {
    chunks: Vec<Chunk>,
}

impl View for Png {
    type V = Seq<ChunkView>;

    closed spec fn view(&self) -> Seq<ChunkView> {
        views(self.chunks@)
    }
}

impl Png {
    /// The container that holds the given chunks, in their order.
    pub fn from_chunks(chunks: Vec<Chunk>) -> (png: Png)
        ensures
            png@ == views(chunks@),
    {
        Png { chunks }
    }

    /// Puts `chunk` behind the chunks that are there.
    pub fn append_chunk(&mut self, chunk: Chunk)
        ensures
            final(self)@ == old(self)@.push(chunk@),
    {
        self.chunks.push(chunk);
        assert(self@ =~= old(self)@.push(chunk@));
    }

    /// The index of the first chunk with the type code that `chunk_type`
    /// spells.
    fn position(&self, chunk_type: &str) -> (r: Option<usize>)
        ensures
            match r {
                Some(i) => first_of_type(self@, chunk_type@, i as int),
                None => !has_type(self@, chunk_type@),
            },
    {
        let wanted = match ChunkType::from_str(chunk_type) {
            Ok(wanted) => wanted,
            Err(_) => {
                return None;
            },
        };
        let mut i: usize = 0;
        while i < self.chunks.len()
            invariant
                i <= self.chunks.len(),
                self@.len() == self.chunks.len(),
                parse_code(chunk_type@) == Ok::<Seq<u8>, Error>(wanted@),
                forall|j: int| 0 <= j < i ==> !type_at(self@, chunk_type@, j),
            decreases self.chunks.len() - i,
        {
            if *self.chunks[i].chunk_type() == wanted {
                return Some(i);
            }
            i += 1;
        }
        None
    }

    /// The first chunk with the type code that `chunk_type` spells, if there
    /// is one. A text that spells no type code finds nothing.
    pub fn chunk_by_type(&self, chunk_type: &str) -> (r: Option<&Chunk>)
        ensures
            match find_type(self@, chunk_type@) {
                Some(i) => r is Some && r->Some_0@ == self@[i],
                None => r is None,
            },
    {
        proof {
            lemma_find_type(self@, chunk_type@);
        }
        match self.position(chunk_type) {
            Some(i) => Some(&self.chunks[i]),
            None => None,
        }
    }

    /// Takes out the first chunk with the type code that `chunk_type` spells
    /// and returns it. Where there is none, nothing changes.
    pub fn remove_chunk(&mut self, chunk_type: &str) -> (r: Result<Chunk, Error>)
        ensures
            match find_type(old(self)@, chunk_type@) {
                Some(i) => r is Ok && r->Ok_0@ == old(self)@[i] && final(self)@ == old(
                    self,
                )@.remove(i),
                None => r == Err::<Chunk, Error>(Error::ChunkNotFound) && final(self)@ == old(
                    self,
                )@,
            },
    {
        proof {
            lemma_find_type(self@, chunk_type@);
        }
        match self.position(chunk_type) {
            Some(i) => {
                let chunk = self.chunks.remove(i);
                assert(self@ =~= old(self)@.remove(i as int));
                Ok(chunk)
            },
            None => Err(Error::ChunkNotFound),
        }
    }

    /// Reads a whole buffer as a container: the signature, then records
    /// until the buffer ends. The first record that cannot be read fails the
    /// whole reading with its own error.
    pub fn try_from(bytes: &[u8]) -> (r: Result<Png, Error>)
        ensures
            match parse_png(bytes@) {
                Ok(chunks) => r is Ok && r->Ok_0@ == chunks,
                Err(e) => r == Err::<Png, Error>(e),
            },
    {
        let n = bytes.len();
        if n < 8 {
            return Err(Error::BadSignature);
        }
        let mut k: usize = 0;
        while k < 8
            invariant
                k <= 8 <= n,
                n == bytes@.len(),
                forall|j: int| 0 <= j < k ==> bytes@[j] == signature()[j],
            decreases 8 - k,
        {
            if bytes[k] != STANDARD_HEADER[k] {
                assert(bytes@.subrange(0, 8)[k as int] != signature()[k as int]);
                return Err(Error::BadSignature);
            }
            k += 1;
        }
        assert(bytes@.subrange(0, 8) =~= signature());
        let ghost body = bytes@.subrange(8, n as int);
        let mut chunks: Vec<Chunk> = Vec::new();
        let mut cursor: usize = 8;
        assert(bytes@.subrange(cursor as int, n as int) =~= body);
        assert(views(chunks@) =~= Seq::<ChunkView>::empty());
        assert(Seq::<ChunkView>::empty() + parse_frames(body)->Ok_0 =~= parse_frames(body)->Ok_0);
        while cursor < n
            invariant
                8 <= cursor <= n,
                n == bytes@.len(),
                parse_png(bytes@) == parse_frames(body),
                parse_frames(body) == prepend(
                    views(chunks@),
                    parse_frames(bytes@.subrange(cursor as int, n as int)),
                ),
            decreases n - cursor,
        {
            let ghost rest = bytes@.subrange(cursor as int, n as int);
            let ghost read = views(chunks@);
            if n - cursor < 12 {
                return Err(Error::TruncatedOrOversizedChunk);
            }
            let length = be_decode(bytes, cursor) as usize;
            assert(rest.subrange(0, 4) =~= bytes@.subrange(cursor as int, cursor + 4));
            if n - cursor - 12 < length {
                return Err(Error::TruncatedOrOversizedChunk);
            }
            let end = cursor + 12 + length;
            assert(rest.subrange(0, length + 12) =~= bytes@.subrange(cursor as int, end as int));
            assert(rest.subrange(length + 12, rest.len() as int) =~= bytes@.subrange(
                end as int,
                n as int,
            ));
            let chunk = match Chunk::try_from(slice_subrange(bytes, cursor, end)) {
                Ok(chunk) => chunk,
                Err(e) => {
                    return Err(e);
                },
            };
            proof {
                let next = parse_frames(bytes@.subrange(end as int, n as int));
                if next is Ok {
                    assert(read + (seq![chunk@] + next->Ok_0) =~= read.push(chunk@) + next->Ok_0);
                }
            }
            chunks.push(chunk);
            assert(views(chunks@) =~= read.push(chunk@));
            cursor = end;
        }
        assert(views(chunks@) + Seq::<ChunkView>::empty() =~= views(chunks@));
        Ok(Png { chunks })
    }

    /// The container as bytes: the signature, then each chunk's record, in
    /// order.
    pub fn as_bytes(&self) -> (r: Vec<u8>)
        ensures
            r@ == serialize(self@),
            valid_chunks(self@),
    {
        let mut out: Vec<u8> = Vec::new();
        assert(STANDARD_HEADER@ =~= signature());
        append_bytes(&mut out, STANDARD_HEADER.as_slice());
        let mut i: usize = 0;
        assert(self@.subrange(0, 0) =~= Seq::<ChunkView>::empty());
        while i < self.chunks.len()
            invariant
                i <= self.chunks.len(),
                self@.len() == self.chunks.len(),
                out@ == signature() + frames(self@.subrange(0, i as int)),
                forall|j: int| 0 <= j < i ==> valid_chunk(#[trigger] self@[j]),
            decreases self.chunks.len() - i,
        {
            let record = self.chunks[i].as_bytes();
            append_bytes(&mut out, record.as_slice());
            proof {
                lemma_frames_push(self@.subrange(0, i as int), self@[i as int]);
                assert(self@.subrange(0, i + 1) =~= self@.subrange(0, i as int).push(
                    self@[i as int],
                ));
            }
            i += 1;
        }
        assert(self@.subrange(0, i as int) =~= self@);
        out
    }

    /// The signature.
    pub fn header(&self) -> (r: &[u8; 8])
        ensures
            r@ == signature(),
    {
        assert(STANDARD_HEADER@ =~= signature());
        &STANDARD_HEADER
    }

    /// The chunks, in order.
    pub fn chunks(&self) -> (r: &[Chunk])
        ensures
            views(r@) == self@,
    {
        self.chunks.as_slice()
    }
}

/// The records of a sequence with one more chunk at its end are the records
/// of the sequence, then that chunk's.
pub proof fn lemma_frames_push(chunks: Seq<ChunkView>, c: ChunkView)
    ensures
        frames(chunks.push(c)) == frames(chunks) + frame(c),
    decreases chunks.len(),
{
    if chunks.len() == 0 {
        assert(chunks.push(c).drop_first() =~= chunks);
        assert(frames(chunks) =~= Seq::<u8>::empty());
        assert(frames(chunks.push(c)) =~= frames(chunks) + frame(c));
    } else {
        assert(chunks.push(c).drop_first() =~= chunks.drop_first().push(c));
        lemma_frames_push(chunks.drop_first(), c);
        assert(frames(chunks.push(c)) =~= frames(chunks) + frame(c));
    }
}

/// Records laid end to end are read back as the chunks they were written
/// from, where each chunk is valid and has a payload that its length field
/// can count.
pub proof fn lemma_frames_parse(chunks: Seq<ChunkView>)
    requires
        valid_chunks(chunks),
        framable(chunks),
    ensures
        parse_frames(frames(chunks)) == Ok::<Seq<ChunkView>, Error>(chunks),
    decreases chunks.len(),
{
    if chunks.len() == 0 {
        assert(chunks =~= Seq::<ChunkView>::empty());
    } else {
        let first = chunks[0];
        let rest = chunks.drop_first();
        let bytes = frames(chunks);
        let n = frame(first).len() as int;
        assert(valid_chunk(first) && first.data.len() <= u32::MAX);
        assert forall|i: int| 0 <= i < rest.len() implies valid_chunk(#[trigger] rest[i])
            && rest[i].data.len() <= u32::MAX by {
            assert(rest[i] == chunks[i + 1]);
        }
        lemma_be_value_of_bytes(length_field(first.data.len()));
        lemma_be_value_of_bytes(first.crc);
        assert(n == first.data.len() + 12);
        assert(bytes.subrange(0, 4) =~= be_bytes(length_field(first.data.len())));
        assert(bytes.subrange(0, n) =~= frame(first));
        assert(bytes.subrange(n, bytes.len() as int) =~= frames(rest));
        lemma_frame_round_trip(first);
        lemma_frames_parse(rest);
        assert(seq![first] + rest =~= chunks);
    }
}

/// Bytes that are read as records laid end to end are the records of the
/// chunks that were read, and those chunks are valid and have payloads that
/// their length fields can count.
pub proof fn lemma_parsed_frames(bytes: Seq<u8>)
    requires
        parse_frames(bytes) is Ok,
    ensures
        frames(parse_frames(bytes)->Ok_0) == bytes,
        valid_chunks(parse_frames(bytes)->Ok_0),
        framable(parse_frames(bytes)->Ok_0),
    decreases bytes.len(),
{
    lemma_parsed_frames_bytes(bytes);
    lemma_parsed_frames_valid(bytes);
}

/// Bytes that are read as records are the records of the chunks read.
proof fn lemma_parsed_frames_bytes(bytes: Seq<u8>)
    requires
        parse_frames(bytes) is Ok,
    ensures
        frames(parse_frames(bytes)->Ok_0) == bytes,
    decreases bytes.len(),
{
    let chunks = parse_frames(bytes)->Ok_0;
    if bytes.len() == 0 {
        assert(frames(chunks) =~= bytes);
    } else {
        let n = be_value(bytes.subrange(0, 4)) + 12;
        let head = bytes.subrange(0, n);
        let tail = bytes.subrange(n, bytes.len() as int);
        let first = parse_frame(head)->Ok_0;
        let rest = parse_frames(tail)->Ok_0;
        lemma_parse_frames_step(bytes);
        lemma_parsed_frame(head);
        lemma_parsed_frames_bytes(tail);
        lemma_cons(first, rest);
        assert(frames(chunks) == frame(first) + frames(rest));
        assert(head + tail =~= bytes);
    }
}

/// Chunks that are read from records are valid and can be written.
proof fn lemma_parsed_frames_valid(bytes: Seq<u8>)
    requires
        parse_frames(bytes) is Ok,
    ensures
        valid_chunks(parse_frames(bytes)->Ok_0),
        framable(parse_frames(bytes)->Ok_0),
    decreases bytes.len(),
{
    if bytes.len() != 0 {
        let n = be_value(bytes.subrange(0, 4)) + 12;
        let head = bytes.subrange(0, n);
        let tail = bytes.subrange(n, bytes.len() as int);
        lemma_parse_frames_step(bytes);
        lemma_parsed_frame(head);
        lemma_parsed_frames_valid(tail);
        lemma_cons(parse_frame(head)->Ok_0, parse_frames(tail)->Ok_0);
    }
}

/// How a successful reading of records starts: with one whole record, and
/// then a successful reading of what follows it.
proof fn lemma_parse_frames_step(bytes: Seq<u8>)
    requires
        parse_frames(bytes) is Ok,
        bytes.len() > 0,
    ensures
        ({
            let n = be_value(bytes.subrange(0, 4)) + 12;
            let head = parse_frame(bytes.subrange(0, n));
            let tail = parse_frames(bytes.subrange(n, bytes.len() as int));
            &&& 12 <= n <= bytes.len()
            &&& head is Ok
            &&& tail is Ok
            &&& parse_frames(bytes)->Ok_0 == seq![head->Ok_0] + tail->Ok_0
        }),
{
}

/// A sequence with one more chunk at its front: its parts, and what holds of
/// all its chunks.
proof fn lemma_cons(first: ChunkView, rest: Seq<ChunkView>)
    ensures
        (seq![first] + rest).len() > 0,
        (seq![first] + rest)[0] == first,
        (seq![first] + rest).drop_first() == rest,
        valid_chunks(seq![first] + rest) <==> valid_chunk(first) && valid_chunks(rest),
        framable(seq![first] + rest) <==> first.data.len() <= u32::MAX && framable(rest),
{
    let all = seq![first] + rest;
    assert(all.drop_first() =~= rest);
    assert(all[0] == first);
    if valid_chunk(first) && valid_chunks(rest) {
        assert forall|i: int| 0 <= i < all.len() implies valid_chunk(#[trigger] all[i]) by {
            if 0 < i {
                assert(all[i] == rest[i - 1]);
            }
        }
    }
    if valid_chunks(all) {
        assert forall|i: int| 0 <= i < rest.len() implies valid_chunk(#[trigger] rest[i]) by {
            assert(rest[i] == all[i + 1]);
        }
    }
    if first.data.len() <= u32::MAX && framable(rest) {
        assert forall|i: int| 0 <= i < all.len() implies (#[trigger] all[i]).data.len()
            <= u32::MAX by {
            if 0 < i {
                assert(all[i] == rest[i - 1]);
            }
        }
    }
    if framable(all) {
        assert forall|i: int| 0 <= i < rest.len() implies (#[trigger] rest[i]).data.len()
            <= u32::MAX by {
            assert(rest[i] == all[i + 1]);
        }
    }
}

/// A container that is written and read back is the same container: the
/// same chunks in the same order. Each chunk must be valid and have a payload
/// that its length field can count.
pub proof fn lemma_serialize_parses(chunks: Seq<ChunkView>)
    requires
        valid_chunks(chunks),
        framable(chunks),
    ensures
        parse_png(serialize(chunks)) == Ok::<Seq<ChunkView>, Error>(chunks),
{
    let bytes = serialize(chunks);
    assert(bytes.subrange(0, 8) =~= signature());
    assert(bytes.subrange(8, bytes.len() as int) =~= frames(chunks));
    lemma_frames_parse(chunks);
}

/// A buffer that is read as a container is, byte for byte, what that
/// container is written as; its chunks are valid and can be written.
pub proof fn lemma_parse_serializes(bytes: Seq<u8>)
    requires
        parse_png(bytes) is Ok,
    ensures
        serialize(parse_png(bytes)->Ok_0) == bytes,
        valid_chunks(parse_png(bytes)->Ok_0),
        framable(parse_png(bytes)->Ok_0),
{
    let body = bytes.subrange(8, bytes.len() as int);
    assert(parse_png(bytes) == parse_frames(body));
    lemma_parsed_frames(body);
    assert(bytes.subrange(0, 8) + body =~= bytes);
}

/// Reading what a container that was read is written as gives that
/// container again, chunk for chunk.
pub proof fn lemma_reparse(bytes: Seq<u8>)
    requires
        parse_png(bytes) is Ok,
    ensures
        parse_png(serialize(parse_png(bytes)->Ok_0)) == parse_png(bytes),
{
    lemma_parse_serializes(bytes);
}

/// Appending a chunk whose type no chunk of the container has, and then
/// removing by that type, takes out the appended chunk itself and leaves
/// the container as it was.
pub proof fn lemma_append_then_remove(chunks: Seq<ChunkView>, k: ChunkView)
    requires
        valid_chunk(k),
        !has_type(chunks, code_text(k.chunk_type)),
    ensures
        find_type(chunks.push(k), code_text(k.chunk_type)) == Some(chunks.len() as int),
        chunks.push(k)[chunks.len() as int] == k,
        chunks.push(k).remove(chunks.len() as int) == chunks,
{
    let text = code_text(k.chunk_type);
    let longer = chunks.push(k);
    let last = chunks.len() as int;
    lemma_code_text_parses(k.chunk_type);
    assert forall|j: int| 0 <= j < last implies !type_at(longer, text, j) by {
        assert(!type_at(chunks, text, j));
        assert(longer[j] == chunks[j]);
    }
    assert(first_of_type(longer, text, last));
    lemma_find_type(longer, text);
    assert(longer.remove(last) =~= chunks);
}

/// For a valid chunk, having the type that a text spells is the same as
/// having a type code that reads as that text.
pub proof fn lemma_type_at_text(chunks: Seq<ChunkView>, text: Seq<char>, i: int)
    requires
        0 <= i < chunks.len(),
        valid_chunk(chunks[i]),
    ensures
        type_at(chunks, text, i) <==> code_text(chunks[i].chunk_type) == text,
{
    lemma_code_text_parses(chunks[i].chunk_type);
    if parse_code(text) is Ok {
        lemma_parsed_code(text);
    }
}

} // verus!
