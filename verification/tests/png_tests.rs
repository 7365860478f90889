use pngme::args::{DecodeArgs, EncodeArgs, Remove};
use pngme::chunk::Chunk;
use pngme::chunk_type::ChunkType;
use pngme::error::PngError;
use pngme::png::Png;

const SIGNATURE: [u8; 8] = [0x89, 0x50, 0x4e, 0x47, 0x0d, 0x0a, 0x1a, 0x0a];

fn chunk_bytes(chunk_type: &str, data: &[u8]) -> Vec<u8> {
    let type_bytes = chunk_type.as_bytes();
    let crc_input: Vec<u8> = type_bytes.iter().chain(data.iter()).copied().collect();
    let crc = crc32fast::hash(&crc_input[..]);
    (data.len() as u32)
        .to_be_bytes()
        .iter()
        .chain(type_bytes.iter())
        .chain(data.iter())
        .chain(crc.to_be_bytes().iter())
        .copied()
        .collect()
}

fn minimal_png_bytes() -> Vec<u8> {
    let ihdr_data: [u8; 13] = [0, 0, 0, 1, 0, 0, 0, 1, 8, 0, 0, 0, 0];
    let mut bytes: Vec<u8> = SIGNATURE.to_vec();
    bytes.extend(chunk_bytes("IHDR", &ihdr_data));
    bytes.extend(chunk_bytes("IEND", &[]));
    bytes
}

#[test]
fn parse_then_serialize_is_identity() {
    let mut bytes = minimal_png_bytes();
    bytes.extend(chunk_bytes("teXt", b"some note"));
    let png = Png::parse(&bytes).unwrap();
    assert_eq!(png.as_bytes(), bytes);
}

#[test]
fn serialize_then_parse_is_identity() {
    let bytes = minimal_png_bytes();
    let mut png = Png::parse(&bytes).unwrap();
    let extra = Chunk::new(ChunkType::from_str("ruSt").unwrap(), b"hi".to_vec());
    png.append_chunk(extra);
    let serialized = png.as_bytes();
    let reparsed = Png::parse(&serialized).unwrap();
    assert_eq!(reparsed.as_bytes(), serialized);
}

#[test]
fn crc_field_bit_flip_is_rejected() {
    let bytes = chunk_bytes("RuSt", b"payload");
    let n = bytes.len();
    for byte_pos in n - 4..n {
        for bit in 0..8 {
            let mut corrupted = bytes.clone();
            corrupted[byte_pos] ^= 1u8 << bit;
            assert_eq!(Chunk::try_from(&corrupted[..]).unwrap_err(), PngError::CrcMismatch);
        }
    }
}

#[test]
fn data_bit_flip_is_rejected() {
    let bytes = chunk_bytes("RuSt", b"payload");
    for byte_pos in 8..bytes.len() - 4 {
        for bit in 0..8 {
            let mut corrupted = bytes.clone();
            corrupted[byte_pos] ^= 1u8 << bit;
            assert_eq!(Chunk::try_from(&corrupted[..]).unwrap_err(), PngError::CrcMismatch);
        }
    }
}

#[test]
fn type_flags_follow_letter_case() {
    let t = ChunkType::from_str("RuSt").unwrap();
    assert!(t.is_critical());
    assert!(!t.is_public());
    assert!(t.is_reserved_bit_valid());
    assert!(t.is_safe_to_copy());
    assert!(t.is_valid());

    let t = ChunkType::from_str("Rust").unwrap();
    assert!(!t.is_reserved_bit_valid());
    assert!(!t.is_valid());

    assert_eq!(ChunkType::from_str("Ru1t").unwrap_err(), PngError::InvalidTypeBytes);
}

#[test]
fn append_then_remove_restores_sequence() {
    let bytes = minimal_png_bytes();
    let mut png = Png::parse(&bytes).unwrap();
    let t = ChunkType::from_str("teXt").unwrap();
    let chunk = Chunk::new(t, b"hidden".to_vec());
    let expected_crc = chunk.crc();
    png.append_chunk(chunk);
    let removed = png.remove_chunk(&t).unwrap();
    assert_eq!(removed.crc(), expected_crc);
    assert_eq!(removed.data(), b"hidden");
    assert_eq!(removed.chunk_type().bytes(), t.bytes());
    assert_eq!(png.as_bytes(), bytes);
}

#[test]
fn remove_absent_type_fails_and_changes_nothing() {
    let bytes = minimal_png_bytes();
    let mut png = Png::parse(&bytes).unwrap();
    let t = ChunkType::from_str("teXt").unwrap();
    assert_eq!(png.remove_chunk(&t).unwrap_err(), PngError::NotFound);
    assert_eq!(png.as_bytes(), bytes);
}

#[test]
fn remove_takes_only_the_first_duplicate() {
    let bytes = minimal_png_bytes();
    let mut png = Png::parse(&bytes).unwrap();
    let t = ChunkType::from_str("teXt").unwrap();
    png.append_chunk(Chunk::new(t, b"first".to_vec()));
    png.append_chunk(Chunk::new(t, b"second".to_vec()));
    let removed = png.remove_chunk(&t).unwrap();
    assert_eq!(removed.data(), b"first");
    let kept = png.chunk_by_type(&t).unwrap();
    assert_eq!(kept.data(), b"second");
}

#[test]
fn end_to_end_hidden_message() {
    let bytes = minimal_png_bytes();
    let mut png = Png::parse(&bytes).unwrap();
    png.append_chunk(Chunk::new(
        ChunkType::from_str("ruSt").unwrap(),
        b"hello".to_vec(),
    ));
    let serialized = png.as_bytes();
    let reparsed = Png::parse(&serialized).unwrap();
    let t = ChunkType::from_str("ruSt").unwrap();
    let found = reparsed.chunk_by_type(&t).unwrap();
    assert_eq!(found.data_as_string().unwrap(), "hello");
}

#[test]
fn signature_mismatch_is_rejected() {
    let mut bytes = minimal_png_bytes();
    bytes[0] = 0x88;
    assert_eq!(Png::parse(&bytes).unwrap_err(), PngError::SignatureMismatch);
    assert_eq!(Png::parse(&bytes[..4]).unwrap_err(), PngError::SignatureMismatch);
}

#[test]
fn truncated_chunks_are_rejected() {
    let mut bytes = minimal_png_bytes();
    bytes.truncate(bytes.len() - 3);
    assert_eq!(Png::parse(&bytes).unwrap_err(), PngError::Truncated);
    assert_eq!(Chunk::try_from(&[0u8; 5][..]).unwrap_err(), PngError::Truncated);
    // A length field that demands more data than the buffer holds.
    let mut lying = chunk_bytes("teXt", b"abc");
    lying[3] = 200;
    assert_eq!(Chunk::try_from(&lying[..]).unwrap_err(), PngError::Truncated);
}

#[test]
fn non_alphabetic_type_bytes_are_rejected() {
    let mut bytes = SIGNATURE.to_vec();
    let type_bytes = [b'a', b'1', b'c', b'd'];
    let crc = crc32fast::hash(&type_bytes);
    bytes.extend(0u32.to_be_bytes());
    bytes.extend(type_bytes);
    bytes.extend(crc.to_be_bytes());
    assert_eq!(Png::parse(&bytes).unwrap_err(), PngError::InvalidTypeBytes);
}

#[test]
fn non_utf8_data_is_not_text() {
    let chunk = Chunk::new(
        ChunkType::from_str("teXt").unwrap(),
        vec![0xff, 0xfe, 0x80],
    );
    assert_eq!(chunk.data_as_string().unwrap_err(), PngError::InvalidUtf8);
}

#[test]
fn encode_decode_remove_requests() {
    let bytes = minimal_png_bytes();
    let encode = EncodeArgs {
        file_path: String::from("image.png"),
        chunk_type: String::from("ruSt"),
        message: String::from("meet at noon"),
        output_file: None,
    };
    let encoded = encode.process_req(&bytes).unwrap();
    let encoded_bytes = encoded.as_bytes();

    let decode = DecodeArgs {
        file_path: String::from("image.png"),
        chunk_type: String::from("ruSt"),
    };
    assert_eq!(decode.process_req(&encoded_bytes).unwrap(), "meet at noon");

    let remove = Remove {
        file_path: String::from("image.png"),
        chunk_type: String::from("ruSt"),
    };
    let removed = remove.process_req(&encoded_bytes).unwrap();
    assert_eq!(removed.as_bytes(), bytes);

    assert_eq!(decode.process_req(&bytes).unwrap_err(), PngError::NotFound);
}
