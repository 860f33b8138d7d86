use pngchat::{checksum_32, Chunk, ChunkType, Error};
use std::convert::TryFrom;
use std::str::FromStr;

fn testing_chunk() -> Chunk {
    let data_length: u32 = 42;
    let chunk_type = "RuSt".as_bytes();
    let message_bytes = "This is where your secret message will be!".as_bytes();
    let crc: u32 = 2882656334;

    let chunk_data: Vec<u8> = data_length
        .to_be_bytes()
        .iter()
        .chain(chunk_type.iter())
        .chain(message_bytes.iter())
        .chain(crc.to_be_bytes().iter())
        .copied()
        .collect();

    Chunk::try_from(chunk_data.as_ref()).unwrap()
}

fn wire(length: u32, chunk_type: &[u8], data: &[u8], crc: u32) -> Vec<u8> {
    length
        .to_be_bytes()
        .iter()
        .chain(chunk_type.iter())
        .chain(data.iter())
        .chain(crc.to_be_bytes().iter())
        .copied()
        .collect()
}

#[test]
fn crc_test() {
    let crc = checksum_32(b"123456789");
    println!("{:?}", crc);

    assert_eq!(crc, 0xcbf43926);
}

#[test]
fn crc_test2() {
    let chunk_type = "RuSt";
    let message_bytes = "This is where your secret message will be!".as_bytes();

    let crc: u32 = 2882656334;
    let checked = checksum_32(&[chunk_type.as_bytes(), message_bytes].concat());

    println!("{}", checked);
    assert_eq!(checked, crc);
}

#[test]
fn test_new_chunk() {
    let chunk_type = ChunkType::from_str("RuSt").unwrap();
    let data = "This is where your secret message will be!"
        .as_bytes()
        .to_vec();
    let chunk = Chunk::new(chunk_type, data);
    assert_eq!(chunk.length(), 42);
    assert_eq!(chunk.crc(), 2882656334);
}

#[test]
fn test_chunk_length() {
    let chunk = testing_chunk();
    assert_eq!(chunk.length(), 42);
}

#[test]
fn test_chunk_type() {
    let chunk = testing_chunk();
    assert_eq!(chunk.chunk_type().to_string(), String::from("RuSt"));
}

#[test]
fn test_chunk_string() {
    let chunk = testing_chunk();
    let chunk_string = chunk.data_as_string().unwrap();
    let expected_chunk_string = String::from("This is where your secret message will be!");
    assert_eq!(chunk_string, expected_chunk_string);
}

#[test]
fn test_chunk_crc() {
    let chunk = testing_chunk();
    assert_eq!(chunk.crc(), 2882656334);
}

#[test]
fn test_valid_chunk_from_bytes() {
    let data_length: u32 = 42;
    let chunk_type = "RuSt".as_bytes();
    let message_bytes = "This is where your secret message will be!".as_bytes();
    let crc: u32 = 2882656334;

    let chunk_data: Vec<u8> = data_length
        .to_be_bytes()
        .iter()
        .chain(chunk_type.iter())
        .chain(message_bytes.iter())
        .chain(crc.to_be_bytes().iter())
        .copied()
        .collect();

    let chunk = Chunk::try_from(chunk_data.as_ref()).unwrap();

    let chunk_string = chunk.data_as_string().unwrap();
    let expected_chunk_string = String::from("This is where your secret message will be!");

    assert_eq!(chunk.length(), 42);
    assert_eq!(chunk.chunk_type().to_string(), String::from("RuSt"));
    assert_eq!(chunk_string, expected_chunk_string);
    assert_eq!(chunk.crc(), 2882656334);
}

#[test]
fn test_invalid_chunk_from_bytes() {
    let data_length: u32 = 42;
    let chunk_type = "RuSt".as_bytes();
    let message_bytes = "This is where your secret message will be!".as_bytes();
    let crc: u32 = 2882656333;

    let chunk_data: Vec<u8> = data_length
        .to_be_bytes()
        .iter()
        .chain(chunk_type.iter())
        .chain(message_bytes.iter())
        .chain(crc.to_be_bytes().iter())
        .copied()
        .collect();

    let chunk = Chunk::try_from(chunk_data.as_ref());

    assert!(chunk.is_err());
}

#[test]
fn test_chunk_trait_impls() {
    let data_length: u32 = 42;
    let chunk_type = "RuSt".as_bytes();
    let message_bytes = "This is where your secret message will be!".as_bytes();
    let crc: u32 = 2882656334;

    let chunk_data: Vec<u8> = data_length
        .to_be_bytes()
        .iter()
        .chain(chunk_type.iter())
        .chain(message_bytes.iter())
        .chain(crc.to_be_bytes().iter())
        .copied()
        .collect();

    let chunk: Chunk = TryFrom::try_from(chunk_data.as_ref()).unwrap();

    let _chunk_string = format!("{:?}", chunk);
}

#[test]
fn test_chunk_display() {
    let chunk = testing_chunk();

    let chunk_string = chunk.data_as_string().unwrap();
    let expected_chunk_string = String::from("This is where your secret message will be!");

    assert_eq!(chunk.length(), 42);
    assert_eq!(chunk.chunk_type().to_string(), String::from("RuSt"));
    assert_eq!(chunk_string, expected_chunk_string);
    assert_eq!(chunk.crc(), 2882656334);

    println!("{:?}", chunk);
}

#[test]
fn test_chunk_as_bytes() {
    let data_length: u32 = 42;
    let chunk_type = "RuSt".as_bytes();
    let message_bytes = "This is where your secret message will be!".as_bytes();
    let crc: u32 = 2882656334;

    let chunk_data: Vec<u8> = data_length
        .to_be_bytes()
        .iter()
        .chain(chunk_type.iter())
        .chain(message_bytes.iter())
        .chain(crc.to_be_bytes().iter())
        .copied()
        .collect();

    let chunk = Chunk::try_from(chunk_data.as_ref()).unwrap();

    assert_eq!(chunk.as_bytes(), chunk_data);
}

#[test]
fn checksum_differs_from_its_input() {
    // a checksum that handed back part of its input would give 0x31323334 here
    assert_ne!(checksum_32(b"1234"), 0x31323334);
    assert_eq!(checksum_32(b""), 0);
}

#[test]
fn secret_message_crc_value() {
    let message = b"This is where your secret message will be!";
    assert_eq!(message.len(), 42);
    let chunk = Chunk::new(ChunkType::from_str("RuSt").unwrap(), message.to_vec());
    assert_eq!(chunk.length(), 42);
    assert_eq!(chunk.crc(), 2882656334);
    assert_eq!(chunk.data(), &message[..]);
}

#[test]
fn new_chunk_round_trips() {
    let cases: [(&str, &[u8]); 4] = [
        ("RuSt", b"This is where your secret message will be!"),
        ("ruSt", b""),
        ("IEND", b""),
        ("abCD", &[0, 255, 128, 7]),
    ];
    for (t, d) in cases {
        let chunk = Chunk::new(ChunkType::from_str(t).unwrap(), d.to_vec());
        let bytes = chunk.as_bytes();
        assert_eq!(bytes.len(), d.len() + 12);
        let back = Chunk::try_from(bytes.as_slice()).unwrap();
        assert_eq!(back.chunk_type(), chunk.chunk_type());
        assert_eq!(back.data(), chunk.data());
        assert_eq!(back.length(), chunk.length());
        assert_eq!(back.crc(), chunk.crc());
        assert_eq!(back.as_bytes(), bytes);
    }
}

#[test]
fn empty_payload_wire_form() {
    let chunk = Chunk::new(ChunkType::from_str("IEND").unwrap(), Vec::new());
    assert_eq!(
        chunk.as_bytes(),
        vec![0, 0, 0, 0, 73, 69, 78, 68, 0xAE, 0x42, 0x60, 0x82]
    );
}

#[test]
fn from_strings_builds_and_rejects() {
    let chunk = Chunk::from_strings("RuSt", "hidden").unwrap();
    assert_eq!(chunk.chunk_type().to_string(), "RuSt");
    assert_eq!(chunk.data(), b"hidden");
    assert_eq!(chunk.length(), 6);
    assert!(matches!(Chunk::from_strings("Ru5t", "hidden"), Err(Error::InvalidTypeCode)));
    assert!(matches!(Chunk::from_strings("RuStt", "hidden"), Err(Error::InvalidTypeCode)));
}

#[test]
fn length_field_mismatch_is_malformed() {
    let data = b"This is where your secret message will be!";
    let too_long = wire(43, b"RuSt", data, 2882656334);
    assert!(matches!(Chunk::try_from(too_long.as_slice()), Err(Error::MalformedChunk)));
    let too_short = wire(41, b"RuSt", data, 2882656334);
    assert!(matches!(Chunk::try_from(too_short.as_slice()), Err(Error::MalformedChunk)));
    assert!(matches!(Chunk::try_from(&[][..]), Err(Error::MalformedChunk)));
    assert!(matches!(Chunk::try_from(&[0, 0, 0][..]), Err(Error::MalformedChunk)));
    assert!(matches!(Chunk::try_from(&[0, 0, 0, 0, 82, 117][..]), Err(Error::MalformedChunk)));
}

#[test]
fn bad_type_bytes_are_rejected() {
    let bytes = wire(2, b"Ru1t", b"hi", 0);
    assert!(matches!(Chunk::try_from(bytes.as_slice()), Err(Error::InvalidTypeCode)));
}

#[test]
fn stored_crc_mismatch_is_rejected() {
    let data = b"This is where your secret message will be!";
    let bytes = wire(42, b"RuSt", data, 2882656333);
    assert!(matches!(Chunk::try_from(bytes.as_slice()), Err(Error::ChecksumMismatch)));
}

#[test]
fn flipped_bits_are_rejected() {
    let good = Chunk::from_strings("RuSt", "This is where your secret message will be!")
        .unwrap()
        .as_bytes();
    // every bit of the payload, and the bits of the type code that keep it a letter
    for pos in 8..good.len() - 4 {
        for bit in 0..8 {
            let mut bad = good.clone();
            bad[pos] ^= 1 << bit;
            assert!(matches!(Chunk::try_from(bad.as_slice()), Err(Error::ChecksumMismatch)));
        }
    }
    for pos in 4..8 {
        let mut bad = good.clone();
        bad[pos] ^= 0x20;
        assert!(matches!(Chunk::try_from(bad.as_slice()), Err(Error::ChecksumMismatch)));
    }
}

#[test]
fn payload_text_must_be_utf8() {
    let chunk = Chunk::new(ChunkType::from_str("RuSt").unwrap(), vec![0xff, 0xfe]);
    assert!(matches!(chunk.data_as_string(), Err(Error::TextDecode)));
    let chunk = Chunk::new(ChunkType::from_str("RuSt").unwrap(), "h\u{e9}llo".as_bytes().to_vec());
    assert_eq!(chunk.data_as_string().unwrap(), "h\u{e9}llo");
    let chunk = Chunk::new(ChunkType::from_str("RuSt").unwrap(), Vec::new());
    assert_eq!(chunk.data_as_string().unwrap(), "");
}
