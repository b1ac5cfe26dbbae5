use pngme::chunk::{Chunk, ChunkError, Utf8Error};
use pngme::chunk_type::ChunkType;

fn testing_chunk() -> Chunk {
    let data_length: u32 = 42;
    let chunk_type = "RuSt".as_bytes();
    let message_bytes = "This is where your secret message will be!".as_bytes();
    let crc: u32 = 2882656334;

    let chunk_data: Vec<u8> = data_length
        .to_be_bytes()
        .iter()
        .chain(chunk_type.iter())
        .chain(message_bytes.iter())
        .chain(crc.to_be_bytes().iter())
        .copied()
        .collect();

    Chunk::parse(chunk_data.as_ref()).unwrap()
}

#[test]
fn test_new_chunk() {
    let chunk_type = ChunkType::from_str("RuSt").unwrap();
    let data = "This is where your secret message will be!"
        .as_bytes()
        .to_vec();
    let chunk = Chunk::new(chunk_type, data);
    assert_eq!(chunk.length(), 42);
    assert_eq!(chunk.crc(), 2882656334);
}

#[test]
fn test_chunk_length() {
    let chunk = testing_chunk();
    assert_eq!(chunk.length(), 42);
}

#[test]
fn test_chunk_type() {
    let chunk = testing_chunk();
    assert_eq!(chunk.chunk_type().to_display_string(), String::from("RuSt"));
}

#[test]
fn test_chunk_string() {
    let chunk = testing_chunk();
    let chunk_string = chunk.data_as_string().unwrap();
    let expected_chunk_string = String::from("This is where your secret message will be!");
    assert_eq!(chunk_string, expected_chunk_string);
}

#[test]
fn test_chunk_crc() {
    let chunk = testing_chunk();
    assert_eq!(chunk.crc(), 2882656334);
}

#[test]
fn test_valid_chunk_from_bytes() {
    let data_length: u32 = 42;
    let chunk_type = "RuSt".as_bytes();
    let message_bytes = "This is where your secret message will be!".as_bytes();
    let crc: u32 = 2882656334;

    let chunk_data: Vec<u8> = data_length
        .to_be_bytes()
        .iter()
        .chain(chunk_type.iter())
        .chain(message_bytes.iter())
        .chain(crc.to_be_bytes().iter())
        .copied()
        .collect();

    let chunk = Chunk::parse(chunk_data.as_ref()).unwrap();

    let chunk_string = chunk.data_as_string().unwrap();
    let expected_chunk_string = String::from("This is where your secret message will be!");

    assert_eq!(chunk.length(), 42);
    assert_eq!(chunk.chunk_type().to_display_string(), String::from("RuSt"));
    assert_eq!(chunk_string, expected_chunk_string);
    assert_eq!(chunk.crc(), 2882656334);
}

#[test]
fn test_invalid_chunk_from_bytes() {
    let data_length: u32 = 42;
    let chunk_type = "RuSt".as_bytes();
    let message_bytes = "This is where your secret message will be!".as_bytes();
    let crc: u32 = 2882656333;

    let chunk_data: Vec<u8> = data_length
        .to_be_bytes()
        .iter()
        .chain(chunk_type.iter())
        .chain(message_bytes.iter())
        .chain(crc.to_be_bytes().iter())
        .copied()
        .collect();

    let chunk = Chunk::parse(chunk_data.as_ref());

    assert!(chunk.is_err());
}

#[test]
pub fn test_chunk_trait_impls() {
    let data_length: u32 = 42;
    let chunk_type = "RuSt".as_bytes();
    let message_bytes = "This is where your secret message will be!".as_bytes();
    let crc: u32 = 2882656334;

    let chunk_data: Vec<u8> = data_length
        .to_be_bytes()
        .iter()
        .chain(chunk_type.iter())
        .chain(message_bytes.iter())
        .chain(crc.to_be_bytes().iter())
        .copied()
        .collect();

    let chunk: Chunk = Chunk::parse(chunk_data.as_ref()).unwrap();

    let _chunk_string = chunk.to_display_string();
}

#[test]
fn test_chunk_display_rendering() {
    let chunk = testing_chunk();
    assert_eq!(
        chunk.to_display_string(),
        "Chunk {\n  Length: 42\n  Type: RuSt\n  Data: 42 \n  Crc: 2882656334\n}\n"
    );
}

#[test]
fn test_chunk_round_trip() {
    let chunk_type = ChunkType::from_str("TeSt").unwrap();
    let chunk = Chunk::new(chunk_type, vec![1, 2, 3, 4, 5]);
    let bytes = chunk.as_bytes();
    assert_eq!(bytes.len(), 12 + 5);

    let reparsed = Chunk::parse(bytes.as_ref()).unwrap();
    assert_eq!(reparsed.chunk_type().bytes(), chunk.chunk_type().bytes());
    assert_eq!(reparsed.data(), chunk.data());
    assert_eq!(reparsed.crc(), chunk.crc());
}

#[test]
fn test_chunk_round_trip_empty_payload() {
    let chunk_type = ChunkType::from_str("TeSt").unwrap();
    let chunk = Chunk::new(chunk_type, Vec::new());
    let bytes = chunk.as_bytes();
    assert_eq!(bytes.len(), 12);

    let reparsed = Chunk::parse(bytes.as_ref()).unwrap();
    assert_eq!(reparsed.length(), 0);
    assert_eq!(reparsed.crc(), chunk.crc());
}

#[test]
fn test_chunk_crc_bit_flip_detected() {
    let chunk = testing_chunk();
    let bytes = chunk.as_bytes();
    let crc_start = bytes.len() - 4;
    for bit in 0..32 {
        let mut tampered = bytes.clone();
        tampered[crc_start + bit / 8] ^= 1u8 << (bit % 8);
        assert_eq!(Chunk::parse(tampered.as_ref()).unwrap_err(), ChunkError::InvalidCrc);
    }
}

#[test]
fn test_chunk_payload_bit_flip_detected() {
    let chunk = testing_chunk();
    let bytes = chunk.as_bytes();
    for byte_idx in 8..(bytes.len() - 4) {
        let mut tampered = bytes.clone();
        tampered[byte_idx] ^= 0x01;
        assert_eq!(Chunk::parse(tampered.as_ref()).unwrap_err(), ChunkError::InvalidCrc);
    }
}

#[test]
fn test_chunk_parse_small_input() {
    assert_eq!(
        Chunk::parse([0u8; 11].as_ref()).unwrap_err(),
        ChunkError::SmallInput
    );
    assert_eq!(Chunk::parse([].as_ref()).unwrap_err(), ChunkError::SmallInput);
}

#[test]
fn test_chunk_parse_invalid_type() {
    let chunk_type = ChunkType::from_str("RuSt").unwrap();
    let chunk = Chunk::new(chunk_type, vec![9, 9, 9]);
    let mut bytes = chunk.as_bytes();
    bytes[6] = b'1';
    assert_eq!(
        Chunk::parse(bytes.as_ref()).unwrap_err(),
        ChunkError::InvalidChunkType
    );

    bytes[6] = b's';
    assert_eq!(
        Chunk::parse(bytes.as_ref()).unwrap_err(),
        ChunkError::InvalidChunkType
    );
}

#[test]
fn test_chunk_parse_truncated_data() {
    let chunk_type = ChunkType::from_str("RuSt").unwrap();
    let chunk = Chunk::new(chunk_type, vec![1, 2, 3, 4, 5, 6, 7, 8]);
    let bytes = chunk.as_bytes();
    let truncated = &bytes[..bytes.len() - 6];
    assert_eq!(
        Chunk::parse(truncated).unwrap_err(),
        ChunkError::TruncatedData
    );
}

#[test]
fn test_data_as_string_multibyte() {
    let chunk_type = ChunkType::from_str("TeSt").unwrap();
    let chunk = Chunk::new(chunk_type, vec![0xE2, 0x82, 0xAC]);
    assert_eq!(chunk.data_as_string().unwrap(), String::from("\u{20AC}"));
}

#[test]
fn test_data_as_string_invalid_utf8() {
    let chunk_type = ChunkType::from_str("TeSt").unwrap();
    let chunk = Chunk::new(chunk_type, vec![0xFF, 0xFE]);
    assert_eq!(chunk.data_as_string().unwrap_err(), Utf8Error);
}
