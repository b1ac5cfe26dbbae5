use pngme::chunk::Chunk;
use pngme::chunk_type::ChunkType;
use pngme::png::{signature, Png, PngError};

fn chunk_from(kind: &str, data: &[u8]) -> Chunk {
    Chunk::new(ChunkType::from_str(kind).unwrap(), data.to_vec())
}

fn testing_png_bytes() -> Vec<u8> {
    let mut bytes: Vec<u8> = signature().to_vec();
    bytes.extend(chunk_from("FrSt", b"I am the first chunk").as_bytes());
    bytes.extend(chunk_from("miDl", b"I am another chunk").as_bytes());
    bytes.extend(chunk_from("LASt", b"I am the last chunk").as_bytes());
    bytes
}

#[test]
fn test_png_parse_round_trip() {
    let bytes = testing_png_bytes();
    let png = Png::parse(bytes.as_ref()).unwrap();
    assert_eq!(png.chunks().len(), 3);
    assert_eq!(png.as_bytes(), bytes);
}

#[test]
fn test_png_parse_empty_file() {
    let bytes: Vec<u8> = signature().to_vec();
    let png = Png::parse(bytes.as_ref()).unwrap();
    assert_eq!(png.chunks().len(), 0);
    assert_eq!(png.as_bytes(), bytes);
}

#[test]
fn test_png_parse_short_buffer_is_signature_error() {
    for len in 0..8 {
        let bytes = vec![137u8; len];
        assert_eq!(
            Png::parse(bytes.as_ref()).unwrap_err(),
            PngError::SignatureMismatch
        );
    }
}

#[test]
fn test_png_parse_wrong_signature() {
    let mut bytes = testing_png_bytes();
    bytes[0] = 13;
    assert_eq!(
        Png::parse(bytes.as_ref()).unwrap_err(),
        PngError::SignatureMismatch
    );
}

#[test]
fn test_png_parse_bad_chunk_propagates() {
    let mut bytes = testing_png_bytes();
    let last = bytes.len() - 1;
    bytes[last] ^= 0x40;
    assert_eq!(
        Png::parse(bytes.as_ref()).unwrap_err(),
        PngError::InvalidChunk(pngme::chunk::ChunkError::InvalidCrc)
    );
}

#[test]
fn test_png_from_chunks() {
    let chunks = vec![
        chunk_from("FrSt", b"one"),
        chunk_from("miDl", b"two"),
    ];
    let png = Png::from_chunks(chunks);
    assert_eq!(png.chunks().len(), 2);
    assert_eq!(png.chunks()[0].chunk_type().to_display_string(), "FrSt");
    assert_eq!(png.chunks()[1].chunk_type().to_display_string(), "miDl");
}

#[test]
fn test_png_append_then_find() {
    let mut png = Png::parse(testing_png_bytes().as_ref()).unwrap();
    let appended = chunk_from("TeSt", b"Message");
    png.append_chunk(chunk_from("TeSt", b"Message"));
    let found = png.chunk_by_type("TeSt").unwrap();
    assert_eq!(found.chunk_type().bytes(), appended.chunk_type().bytes());
    assert_eq!(found.data(), appended.data());
    assert_eq!(found.crc(), appended.crc());
}

#[test]
fn test_png_chunk_by_type_first_match() {
    let chunks = vec![
        chunk_from("DuPe", b"first"),
        chunk_from("DuPe", b"second"),
    ];
    let png = Png::from_chunks(chunks);
    let found = png.chunk_by_type("DuPe").unwrap();
    assert_eq!(found.data(), b"first");
}

#[test]
fn test_png_chunk_by_type_missing() {
    let png = Png::parse(testing_png_bytes().as_ref()).unwrap();
    assert!(png.chunk_by_type("NoNe").is_none());
}

#[test]
fn test_png_remove_chunk() {
    let mut png = Png::parse(testing_png_bytes().as_ref()).unwrap();
    let removed = png.remove_chunk("miDl").unwrap();
    assert_eq!(removed.data(), b"I am another chunk");
    assert_eq!(png.chunks().len(), 2);
    assert_eq!(png.chunks()[0].chunk_type().to_display_string(), "FrSt");
    assert_eq!(png.chunks()[1].chunk_type().to_display_string(), "LASt");
    assert_eq!(
        png.remove_chunk("miDl").unwrap_err(),
        PngError::ChunkNotFound
    );
}

#[test]
fn test_png_remove_then_serialize() {
    let mut png = Png::parse(testing_png_bytes().as_ref()).unwrap();
    png.remove_chunk("FrSt").unwrap();

    let mut expected: Vec<u8> = signature().to_vec();
    expected.extend(chunk_from("miDl", b"I am another chunk").as_bytes());
    expected.extend(chunk_from("LASt", b"I am the last chunk").as_bytes());
    assert_eq!(png.as_bytes(), expected);
}

#[test]
fn test_from_chunks_serialize_parse() {
    let png = Png::from_chunks(vec![chunk_from("TeSt", b"abc")]);
    let bytes = png.as_bytes();
    let reparsed = Png::parse(bytes.as_ref()).unwrap();
    assert_eq!(reparsed.as_bytes(), bytes);
}

#[test]
fn test_secret_message_scenario() {
    let chunk_type = ChunkType::from_str("RuSt").unwrap();
    let payload = "This is where your secret message will be!".as_bytes();
    let chunk = Chunk::new(chunk_type, payload.to_vec());
    assert_eq!(chunk.crc(), 2882656334);

    let encoding = chunk.as_bytes();
    assert_eq!(encoding.len(), 12 + payload.len());
    let reparsed = Chunk::parse(encoding.as_ref()).unwrap();
    assert_eq!(reparsed.data(), payload);
    assert_eq!(reparsed.crc(), 2882656334);
}
