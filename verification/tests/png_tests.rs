use pngme::png::STANDARD_HEADER;
use pngme::{Chunk, ChunkType, Error, Png};

fn chunk_from_strings(chunk_type: &str, data: &str) -> Chunk {
    Chunk::new(
        ChunkType::from_str(chunk_type).unwrap(),
        data.bytes().collect(),
    )
}

fn sample_chunks() -> Vec<Chunk> {
    vec![
        chunk_from_strings("FrSt", "I am the first chunk"),
        chunk_from_strings("miDl", "I am another chunk"),
        chunk_from_strings("LASt", "I am the last chunk"),
    ]
}

fn sample_png() -> Png {
    Png::from_chunks(sample_chunks())
}

fn minimal_png() -> Png {
    Png::from_chunks(vec![chunk_from_strings("IEND", "")])
}

fn types_of(png: &Png) -> Vec<String> {
    png.chunks()
        .iter()
        .map(|chunk| chunk.chunk_type().to_string().unwrap())
        .collect()
}

fn records_of(png: &Png) -> Vec<Vec<u8>> {
    png.chunks().iter().map(|chunk| chunk.as_bytes()).collect()
}

#[test]
fn the_signature() {
    assert_eq!(STANDARD_HEADER, [137, 80, 78, 71, 13, 10, 26, 10]);
    assert_eq!(sample_png().header(), &[137, 80, 78, 71, 13, 10, 26, 10]);
    assert_eq!(&sample_png().as_bytes()[..8], &STANDARD_HEADER);
}

#[test]
fn an_empty_container_is_its_signature() {
    let png = Png::from_chunks(Vec::new());
    assert_eq!(png.as_bytes(), STANDARD_HEADER.to_vec());
    let read = Png::try_from(&STANDARD_HEADER).unwrap();
    assert_eq!(read.chunks().len(), 0);
}

#[test]
fn a_container_byte_for_byte() {
    let expected: Vec<u8> = vec![
        137, 80, 78, 71, 13, 10, 26, 10, 0, 0, 0, 0, b'I', b'E', b'N', b'D', 0xae, 0x42, 0x60,
        0x82,
    ];
    assert_eq!(minimal_png().as_bytes(), expected);
    let read = Png::try_from(expected.as_ref()).unwrap();
    assert_eq!(types_of(&read), vec!["IEND"]);
    assert_eq!(read.chunks()[0].length(), 0);
    assert_eq!(read.chunks()[0].crc(), 0xae42_6082);
}

#[test]
fn serialized_chunks_follow_the_signature_in_order() {
    let png = sample_png();
    let mut expected = STANDARD_HEADER.to_vec();
    for chunk in sample_chunks() {
        expected.extend(chunk.as_bytes());
    }
    assert_eq!(png.as_bytes(), expected);
    assert_eq!(png.as_bytes().len(), 8 + (12 + 20) + (12 + 18) + (12 + 19));
}

#[test]
fn parsing_keeps_the_chunks_and_their_order() {
    let bytes = sample_png().as_bytes();
    let read = Png::try_from(bytes.as_ref()).unwrap();
    assert_eq!(types_of(&read), vec!["FrSt", "miDl", "LASt"]);
    assert_eq!(records_of(&read), records_of(&sample_png()));
    assert_eq!(
        read.chunks()[1].data_as_string(),
        Ok(String::from("I am another chunk"))
    );
}

#[test]
fn write_read_write_gives_the_same_bytes() {
    let bytes = sample_png().as_bytes();
    let read = Png::try_from(bytes.as_ref()).unwrap();
    assert_eq!(read.as_bytes(), bytes);
    let again = Png::try_from(read.as_bytes().as_ref()).unwrap();
    assert_eq!(records_of(&again), records_of(&read));
}

#[test]
fn a_bad_signature_is_refused() {
    let good = sample_png().as_bytes();
    for at in 0..8 {
        let mut bytes = good.clone();
        bytes[at] ^= 1;
        assert_eq!(Png::try_from(bytes.as_ref()).unwrap_err(), Error::BadSignature);
    }
    for keep in 0..8 {
        assert_eq!(Png::try_from(&good[..keep]).unwrap_err(), Error::BadSignature);
    }
    // The signature is looked at before any chunk.
    let mut bytes = good.clone();
    bytes[0] = 0;
    bytes[20] ^= 0xff;
    assert_eq!(Png::try_from(bytes.as_ref()).unwrap_err(), Error::BadSignature);
}

#[test]
fn a_buffer_that_ends_inside_a_chunk_is_refused() {
    let good = sample_png().as_bytes();
    let ends = [8, 8 + 32, 8 + 32 + 30, 8 + 32 + 30 + 31];
    for keep in 8..=good.len() {
        let read = Png::try_from(&good[..keep]);
        if ends.contains(&keep) {
            assert!(read.is_ok());
        } else {
            assert_eq!(read.unwrap_err(), Error::TruncatedOrOversizedChunk);
        }
    }
    let mut longer = good.clone();
    longer.extend([0, 0, 0]);
    assert_eq!(
        Png::try_from(longer.as_ref()).unwrap_err(),
        Error::TruncatedOrOversizedChunk
    );
}

#[test]
fn the_first_bad_chunk_decides_the_error() {
    let good = sample_png().as_bytes();
    // A damaged payload in the second chunk.
    let mut bytes = good.clone();
    bytes[8 + 32 + 9] ^= 0x10;
    assert_eq!(Png::try_from(bytes.as_ref()).unwrap_err(), Error::CrcMismatch);
    // And a digit in the type of the third: the second is still reported.
    bytes[8 + 32 + 30 + 5] = b'7';
    assert_eq!(Png::try_from(bytes.as_ref()).unwrap_err(), Error::CrcMismatch);
    // A digit in the type of the first comes before both.
    bytes[8 + 4] = b'7';
    assert_eq!(
        Png::try_from(bytes.as_ref()).unwrap_err(),
        Error::InvalidChunkTypeBytes
    );
}

#[test]
fn lookup_finds_the_first_chunk_of_a_type() {
    let mut png = sample_png();
    png.append_chunk(chunk_from_strings("miDl", "I am a later chunk"));
    let found = png.chunk_by_type("miDl").unwrap();
    assert_eq!(found.data_as_string(), Ok(String::from("I am another chunk")));
    let found = png.chunk_by_type("LASt").unwrap();
    assert_eq!(found.data_as_string(), Ok(String::from("I am the last chunk")));
}

#[test]
fn lookup_of_a_missing_type_finds_nothing() {
    let png = sample_png();
    assert!(png.chunk_by_type("ZZZZ").is_none());
    // The case of each letter counts.
    assert!(png.chunk_by_type("frst").is_none());
    assert!(png.chunk_by_type("FRST").is_none());
    // A text that spells no type code matches no chunk.
    assert!(png.chunk_by_type("").is_none());
    assert!(png.chunk_by_type("FrS").is_none());
    assert!(png.chunk_by_type("FrSt ").is_none());
    assert!(png.chunk_by_type("Fr5t").is_none());
    assert!(Png::from_chunks(Vec::new()).chunk_by_type("FrSt").is_none());
}

#[test]
fn append_puts_a_chunk_last() {
    let mut png = sample_png();
    png.append_chunk(chunk_from_strings("TeSt", "Message"));
    assert_eq!(types_of(&png), vec!["FrSt", "miDl", "LASt", "TeSt"]);
    // No type is refused for being there already.
    png.append_chunk(chunk_from_strings("FrSt", "again"));
    assert_eq!(types_of(&png), vec!["FrSt", "miDl", "LASt", "TeSt", "FrSt"]);
    assert_eq!(png.chunks()[4].data(), b"again");
}

#[test]
fn remove_takes_out_the_first_chunk_of_a_type() {
    let mut png = sample_png();
    png.append_chunk(chunk_from_strings("miDl", "I am a later chunk"));
    let removed = png.remove_chunk("miDl").unwrap();
    assert_eq!(removed.data_as_string(), Ok(String::from("I am another chunk")));
    assert_eq!(types_of(&png), vec!["FrSt", "LASt", "miDl"]);
    let removed = png.remove_chunk("miDl").unwrap();
    assert_eq!(removed.data_as_string(), Ok(String::from("I am a later chunk")));
    assert_eq!(types_of(&png), vec!["FrSt", "LASt"]);
    assert_eq!(png.remove_chunk("miDl").unwrap_err(), Error::ChunkNotFound);
}

#[test]
fn remove_of_a_missing_type_changes_nothing() {
    let mut png = sample_png();
    let before = png.as_bytes();
    assert_eq!(png.remove_chunk("ZZZZ").unwrap_err(), Error::ChunkNotFound);
    assert_eq!(png.as_bytes(), before);
    assert_eq!(png.remove_chunk("Fr5t").unwrap_err(), Error::ChunkNotFound);
    assert_eq!(png.remove_chunk("FrStX").unwrap_err(), Error::ChunkNotFound);
    assert_eq!(png.as_bytes(), before);
    let mut empty = Png::from_chunks(Vec::new());
    assert_eq!(empty.remove_chunk("FrSt").unwrap_err(), Error::ChunkNotFound);
    assert_eq!(empty.as_bytes(), STANDARD_HEADER.to_vec());
}

#[test]
fn append_then_remove_gives_back_the_chunk_and_the_container() {
    let mut png = sample_png();
    let before = png.as_bytes();
    let fresh = chunk_from_strings("TeSt", "Message");
    let record = fresh.as_bytes();
    png.append_chunk(fresh);
    assert_ne!(png.as_bytes(), before);
    let removed = png.remove_chunk("TeSt").unwrap();
    assert_eq!(removed.as_bytes(), record);
    assert_eq!(removed.crc(), 0x1387e43a);
    assert_eq!(png.as_bytes(), before);
    assert_eq!(types_of(&png), vec!["FrSt", "miDl", "LASt"]);
}

#[test]
fn a_message_is_hidden_found_and_taken_out_again() {
    let untouched = minimal_png().as_bytes();

    let mut png = Png::try_from(untouched.as_ref()).unwrap();
    png.append_chunk(chunk_from_strings("RuST", "Message"));
    let written = png.as_bytes();
    assert_eq!(written.len(), untouched.len() + 12 + 7);
    assert_eq!(&written[written.len() - 4..], &[37, 234, 205, 199]);

    let mut read = Png::try_from(written.as_ref()).unwrap();
    assert_eq!(types_of(&read), vec!["IEND", "RuST"]);
    let found = read.chunk_by_type("RuST").unwrap();
    assert_eq!(found.data_as_string(), Ok(String::from("Message")));

    let removed = read.remove_chunk("RuST").unwrap();
    assert_eq!(removed.data(), b"Message");
    assert_eq!(read.as_bytes(), untouched);
    assert_eq!(types_of(&read), vec!["IEND"]);
}
