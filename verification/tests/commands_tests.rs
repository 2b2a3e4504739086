use pngme::args::{DecodeArgs, EncodeArgs, Opt, PrintArgs, RemoveArgs};
use pngme::{decode, encode, print, remove, run, Action, Chunk, ChunkType, Error, Png};
use std::path::PathBuf;

/// The bytes of a small image file: a header chunk, image data and the end
/// marker.
fn make_copy_of_file() -> Vec<u8> {
    let header = Chunk::new(
        ChunkType::from_str("IHDR").unwrap(),
        vec![0, 0, 0, 1, 0, 0, 0, 1, 8, 6, 0, 0, 0],
    );
    let data = Chunk::new(
        ChunkType::from_str("IDAT").unwrap(),
        vec![120, 156, 99, 0, 1, 0, 0, 5, 0, 1],
    );
    let end = Chunk::new(ChunkType::from_str("IEND").unwrap(), Vec::new());
    Png::from_chunks(vec![header, data, end]).as_bytes()
}

fn encode_args(chunk_type: &str, message: &str) -> EncodeArgs {
    EncodeArgs {
        input: PathBuf::from("copy.png"),
        chunk_type: chunk_type.to_string(),
        message: message.to_string(),
    }
}

fn decode_args(chunk_type: &str) -> DecodeArgs {
    DecodeArgs {
        input: PathBuf::from("copy.png"),
        chunk_type: chunk_type.to_string(),
    }
}

fn remove_args(chunk_type: &str) -> RemoveArgs {
    RemoveArgs {
        input: PathBuf::from("copy.png"),
        chunk_type: chunk_type.to_string(),
    }
}

#[test]
fn test_encode() {
    let input = make_copy_of_file();
    let chunk_type = "RuST".to_string();
    let message = "Message".to_string();
    let args = EncodeArgs {
        input: PathBuf::from("copy.png"),
        chunk_type,
        message,
    };
    let res = encode(&input, args);
    assert!(res.is_ok());
}

#[test]
fn test_decode() {
    let input = make_copy_of_file();
    let chunk_type = "RuST".to_string();
    let message = "Message".to_string();
    let args = EncodeArgs {
        input: PathBuf::from("copy.png"),
        chunk_type,
        message,
    };
    let res = encode(&input, args);
    assert!(res.is_ok());
    let input = res.unwrap();
    let chunk_type = "RuST".to_string();
    let args = DecodeArgs {
        input: PathBuf::from("copy.png"),
        chunk_type,
    };
    let res = decode(&input, args);
    assert!(res.is_ok());
}

#[test]
fn test_remove() {
    let input = make_copy_of_file();
    let chunk_type = "RuST".to_string();
    let message = "Message".to_string();
    let args = EncodeArgs {
        input: PathBuf::from("copy.png"),
        chunk_type,
        message,
    };
    let res = encode(&input, args);
    assert!(res.is_ok());
    let input = res.unwrap();
    let chunk_type = "RuST".to_string();
    let args = RemoveArgs {
        input: PathBuf::from("copy.png"),
        chunk_type,
    };
    let res = remove(&input, args);
    assert!(res.is_ok());
}

#[test]
fn test_print() {
    let input = make_copy_of_file();
    let res = print(&input);
    assert!(res.is_ok());
}

#[test]
fn test_all_one() {
    let input = make_copy_of_file();
    let chunk_type = "RuST".to_string();
    let message = "Message".to_string();
    let args = EncodeArgs {
        input: PathBuf::from("copy.png"),
        chunk_type,
        message,
    };
    let res = encode(&input, args);
    assert!(res.is_ok());
    let input = res.unwrap();
    let chunk_type = "RuST".to_string();
    let args = DecodeArgs {
        input: PathBuf::from("copy.png"),
        chunk_type,
    };
    let res = decode(&input, args);
    assert!(res.is_ok());
    let chunk_type = "RuST".to_string();
    let args = RemoveArgs {
        input: PathBuf::from("copy.png"),
        chunk_type,
    };
    let res = remove(&input, args);
    assert!(res.is_ok());
    let input = res.unwrap();
    let res = print(&input);
    assert!(res.is_ok());
}

#[test]
fn encode_appends_one_chunk_with_the_message() {
    let input = make_copy_of_file();
    let output = encode(&input, encode_args("RuST", "Message")).unwrap();
    let mut expected = input.clone();
    expected.extend([0, 0, 0, 7]);
    expected.extend(b"RuST");
    expected.extend(b"Message");
    expected.extend([37, 234, 205, 199]);
    assert_eq!(output, expected);
}

#[test]
fn decode_returns_the_message() {
    let input = make_copy_of_file();
    let output = encode(&input, encode_args("RuST", "Message")).unwrap();
    assert_eq!(decode(&output, decode_args("RuST")), Ok(String::from("Message")));
    let output = encode(&output, encode_args("teXt", "gr\u{fc}\u{df}e")).unwrap();
    assert_eq!(
        decode(&output, decode_args("teXt")),
        Ok(String::from("gr\u{fc}\u{df}e"))
    );
    assert_eq!(decode(&output, decode_args("RuST")), Ok(String::from("Message")));
}

#[test]
fn decode_of_a_missing_type_is_not_found() {
    let input = make_copy_of_file();
    assert_eq!(decode(&input, decode_args("RuST")), Err(Error::ChunkNotFound));
    assert_eq!(decode(&input, decode_args("Ru1T")), Err(Error::ChunkNotFound));
}

#[test]
fn decode_of_a_payload_that_is_no_text_is_an_encoding_error() {
    let input = make_copy_of_file();
    // The image data starts with the bytes 120, 156: the second is no start
    // of a character.
    assert_eq!(
        decode(&input, decode_args("IDAT")),
        Err(Error::EncodingError { position: 1 })
    );
}

#[test]
fn remove_undoes_encode() {
    let input = make_copy_of_file();
    let output = encode(&input, encode_args("RuST", "Message")).unwrap();
    assert_ne!(output, input);
    assert_eq!(remove(&output, remove_args("RuST")), Ok(input.clone()));
    assert_eq!(remove(&input, remove_args("RuST")), Err(Error::ChunkNotFound));
}

#[test]
fn remove_takes_out_a_chunk_in_the_middle() {
    let input = make_copy_of_file();
    let output = remove(&input, remove_args("IDAT")).unwrap();
    let mut expected = input[..8 + 25].to_vec();
    expected.extend(&input[8 + 25 + 22..]);
    assert_eq!(output, expected);
}

#[test]
fn commands_report_a_file_that_is_no_container() {
    let mut input = make_copy_of_file();
    input[1] = b'Q';
    assert_eq!(
        encode(&input, encode_args("RuST", "Message")),
        Err(Error::BadSignature)
    );
    assert_eq!(decode(&input, decode_args("RuST")), Err(Error::BadSignature));
    assert_eq!(remove(&input, remove_args("RuST")), Err(Error::BadSignature));
    assert_eq!(print(&input).unwrap_err(), Error::BadSignature);
    // The file is read before the type code is.
    assert_eq!(
        encode(&input, encode_args("Ru1T", "Message")),
        Err(Error::BadSignature)
    );
}

#[test]
fn encode_refuses_a_text_that_is_no_type_code() {
    let input = make_copy_of_file();
    assert_eq!(
        encode(&input, encode_args("Ru1T", "Message")),
        Err(Error::InvalidChunkTypeBytes)
    );
    assert_eq!(
        encode(&input, encode_args("RuSTy", "Message")),
        Err(Error::WrongLength)
    );
    assert_eq!(encode(&input, encode_args("", "Message")), Err(Error::WrongLength));
}

#[test]
fn commands_report_a_damaged_chunk() {
    let mut input = make_copy_of_file();
    let last = input.len() - 1;
    input[last] ^= 1;
    assert_eq!(
        encode(&input, encode_args("RuST", "Message")),
        Err(Error::CrcMismatch)
    );
    input.pop();
    assert_eq!(
        remove(&input, remove_args("IEND")),
        Err(Error::TruncatedOrOversizedChunk)
    );
}

#[test]
fn print_gives_the_size_and_the_chunks() {
    let input = make_copy_of_file();
    let (size, png) = print(&input).unwrap();
    assert_eq!(size, input.len());
    assert_eq!(size, 8 + 25 + 22 + 12);
    let types: Vec<String> = png
        .chunks()
        .iter()
        .map(|chunk| chunk.chunk_type().to_string().unwrap())
        .collect();
    assert_eq!(types, vec!["IHDR", "IDAT", "IEND"]);
    let lengths: Vec<usize> = png.chunks().iter().map(|chunk| chunk.length()).collect();
    assert_eq!(lengths, vec![13, 10, 0]);
}

#[test]
fn a_command_knows_its_file() {
    let mut args = encode_args("RuST", "Message");
    args.input = PathBuf::from("a.png");
    assert_eq!(Opt::Encode(args).input(), &PathBuf::from("a.png"));
    let mut args = decode_args("RuST");
    args.input = PathBuf::from("b.png");
    assert_eq!(Opt::Decode(args).input(), &PathBuf::from("b.png"));
    let mut args = remove_args("RuST");
    args.input = PathBuf::from("c.png");
    assert_eq!(Opt::Remove(args).input(), &PathBuf::from("c.png"));
    let args = PrintArgs {
        input: PathBuf::from("d.png"),
    };
    assert_eq!(Opt::Print(args).input(), &PathBuf::from("d.png"));
}

#[test]
fn run_does_what_each_command_does() {
    let input = make_copy_of_file();

    let encoded = encode(&input, encode_args("RuST", "Message")).unwrap();
    match run(Opt::Encode(encode_args("RuST", "Message")), &input) {
        Ok(Action::Write(bytes)) => assert_eq!(bytes, encoded),
        other => panic!("{:?}", other),
    }
    match run(Opt::Decode(decode_args("RuST")), &encoded) {
        Ok(Action::Show(text)) => assert_eq!(text, "Message"),
        other => panic!("{:?}", other),
    }
    match run(Opt::Remove(remove_args("RuST")), &encoded) {
        Ok(Action::Write(bytes)) => assert_eq!(bytes, input),
        other => panic!("{:?}", other),
    }
    let args = PrintArgs {
        input: PathBuf::from("copy.png"),
    };
    match run(Opt::Print(args), &encoded) {
        Ok(Action::List(size, png)) => {
            assert_eq!(size, encoded.len());
            assert_eq!(png.chunks().len(), 4);
            assert_eq!(png.as_bytes(), encoded);
        }
        other => panic!("{:?}", other),
    }
}

#[test]
fn run_hands_on_each_error() {
    let input = make_copy_of_file();
    assert!(matches!(
        run(Opt::Decode(decode_args("RuST")), &input),
        Err(Error::ChunkNotFound)
    ));
    assert!(matches!(
        run(Opt::Remove(remove_args("RuST")), &input),
        Err(Error::ChunkNotFound)
    ));
    assert!(matches!(
        run(Opt::Encode(encode_args("RuS", "Message")), &input),
        Err(Error::WrongLength)
    ));
    assert!(matches!(
        run(Opt::Decode(decode_args("IDAT")), &input),
        Err(Error::EncodingError { position: 1 })
    ));
    let args = PrintArgs {
        input: PathBuf::from("copy.png"),
    };
    assert!(matches!(
        run(Opt::Print(args), &input[..7]),
        Err(Error::BadSignature)
    ));
}

#[test]
fn each_error_has_its_own_words() {
    let errors = [
        Error::BadSignature,
        Error::TruncatedOrOversizedChunk,
        Error::InvalidChunkTypeBytes,
        Error::WrongLength,
        Error::CrcMismatch,
        Error::ChunkNotFound,
        Error::EncodingError { position: 3 },
    ];
    for (i, a) in errors.iter().enumerate() {
        assert!(!a.to_string().is_empty());
        for b in &errors[i + 1..] {
            assert_ne!(a.to_string(), b.to_string());
        }
    }
    assert_eq!(
        Error::CrcMismatch.to_string(),
        "a chunk's checksum does not match its contents"
    );
    assert_eq!(
        Error::ChunkNotFound.to_string(),
        "no chunk of the requested type"
    );
}
