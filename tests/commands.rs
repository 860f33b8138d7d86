use pngchat::commands::{decode, encode, remove};
use pngchat::png::STANDARD_HEADER;
use pngchat::{Chunk, Error, Png};

fn sample_file() -> Vec<u8> {
    Png::from_chunks(vec![
        Chunk::from_strings("IHDR", "header").unwrap(),
        Chunk::from_strings("IEND", "").unwrap(),
    ])
    .as_bytes()
}

#[test]
fn encode_appends_a_chunk() {
    let before = sample_file();
    let after = encode(&before, "ruSt", "This is a secret message!").unwrap();
    let expected: Vec<u8> = before
        .iter()
        .copied()
        .chain(Chunk::from_strings("ruSt", "This is a secret message!").unwrap().as_bytes())
        .collect();
    assert_eq!(after, expected);
}

#[test]
fn encode_then_decode_then_remove() {
    let before = sample_file();
    let encoded = encode(&before, "ruSt", "This is a secret message!").unwrap();
    assert_eq!(decode(&encoded, "ruSt").unwrap(), "This is a secret message!");
    let removed = remove(&encoded, "ruSt").unwrap();
    assert_eq!(removed, before);
    assert!(matches!(decode(&removed, "ruSt"), Err(Error::ChunkNotFound)));
}

#[test]
fn command_errors() {
    let file = sample_file();
    assert!(matches!(encode(&file, "ru5t", "x"), Err(Error::InvalidTypeCode)));
    assert!(matches!(encode(&file[1..], "ruSt", "x"), Err(Error::BadSignature)));
    assert!(matches!(remove(&file, "ruSt"), Err(Error::ChunkNotFound)));
    assert!(matches!(decode(&STANDARD_HEADER[..4], "ruSt"), Err(Error::BadSignature)));
    let bad_text = Png::from_chunks(vec![Chunk::new(
        pngchat::ChunkType::try_from([114, 117, 83, 116]).unwrap(),
        vec![0xc3, 0x28],
    )])
    .as_bytes();
    assert!(matches!(decode(&bad_text, "ruSt"), Err(Error::TextDecode)));
}
