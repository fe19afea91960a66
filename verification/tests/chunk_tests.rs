use pngme::bytes::{byte_is_letter, push_all, push_be_u32, read_be_u32};
use pngme::chunk::Chunk;
use pngme::chunk_type::ChunkType;
use pngme::error::PngError;
use pngme::text::{push_decimal, string_of_bytes};

fn chunk_bytes(data_length: u32, chunk_type: &str, message: &[u8], crc: u32) -> Vec<u8> {
    data_length
        .to_be_bytes()
        .iter()
        .chain(chunk_type.as_bytes().iter())
        .chain(message.iter())
        .chain(crc.to_be_bytes().iter())
        .copied()
        .collect()
}

fn testing_chunk() -> Chunk {
    let data_length: u32 = 42;
    let chunk_type = "RuSt".as_bytes();
    let message_bytes = "This is where your secret message will be!".as_bytes();
    let crc: u32 = 2882656334;

    let chunk_data: Vec<u8> = data_length
        .to_be_bytes()
        .iter()
        .chain(chunk_type.iter())
        .chain(message_bytes.iter())
        .chain(crc.to_be_bytes().iter())
        .copied()
        .collect();

    Chunk::try_from(chunk_data.as_ref()).unwrap()
}

#[test]
fn test_new_chunk() {
    let chunk_type = ChunkType::from_str("RuSt").unwrap();
    let data = "This is where your secret message will be!".as_bytes().to_vec();
    let chunk = Chunk::new(chunk_type, data);
    assert_eq!(chunk.length(), 42);
    assert_eq!(chunk.crc(), 2882656334);
}

#[test]
fn test_chunk_length() {
    let chunk = testing_chunk();
    assert_eq!(chunk.length(), 42);
}

#[test]
fn test_chunk_type() {
    let chunk = testing_chunk();
    assert_eq!(chunk.chunk_type().to_string(), String::from("RuSt"));
}

#[test]
fn test_chunk_string() {
    let chunk = testing_chunk();
    let chunk_string = chunk.data_as_string().unwrap();
    let expected_chunk_string = String::from("This is where your secret message will be!");
    assert_eq!(chunk_string, expected_chunk_string);
}

#[test]
fn test_chunk_crc() {
    let chunk = testing_chunk();
    assert_eq!(chunk.crc(), 2882656334);
}

#[test]
fn test_valid_chunk_from_bytes() {
    let data_length: u32 = 42;
    let chunk_type = "RuSt".as_bytes();
    let message_bytes = "This is where your secret message will be!".as_bytes();
    let crc: u32 = 2882656334;

    let chunk_data: Vec<u8> = data_length
        .to_be_bytes()
        .iter()
        .chain(chunk_type.iter())
        .chain(message_bytes.iter())
        .chain(crc.to_be_bytes().iter())
        .copied()
        .collect();

    let chunk = Chunk::try_from(chunk_data.as_ref()).unwrap();

    let chunk_string = chunk.data_as_string().unwrap();
    let expected_chunk_string = String::from("This is where your secret message will be!");

    assert_eq!(chunk.length(), 42);
    assert_eq!(chunk.chunk_type().to_string(), String::from("RuSt"));
    assert_eq!(chunk_string, expected_chunk_string);
    assert_eq!(chunk.crc(), 2882656334);
}

#[test]
fn test_invalid_chunk_from_bytes() {
    let data_length: u32 = 42;
    let chunk_type = "RuSt".as_bytes();
    let message_bytes = "This is where your secret message will be!".as_bytes();
    let crc: u32 = 2882656333;

    let chunk_data: Vec<u8> = data_length
        .to_be_bytes()
        .iter()
        .chain(chunk_type.iter())
        .chain(message_bytes.iter())
        .chain(crc.to_be_bytes().iter())
        .copied()
        .collect();

    let chunk = Chunk::try_from(chunk_data.as_ref());

    assert!(chunk.is_err());
}

#[test]
pub fn test_chunk_trait_impls() {
    let data_length: u32 = 42;
    let chunk_type = "RuSt".as_bytes();
    let message_bytes = "This is where your secret message will be!".as_bytes();
    let crc: u32 = 2882656334;

    let chunk_data: Vec<u8> = data_length
        .to_be_bytes()
        .iter()
        .chain(chunk_type.iter())
        .chain(message_bytes.iter())
        .chain(crc.to_be_bytes().iter())
        .copied()
        .collect();

    let chunk: Chunk = Chunk::try_from(chunk_data.as_ref()).unwrap();

    let _chunk_string = format!("{}", chunk.to_string());
}

#[test]
fn test_chunk_crc_mismatch_is_reported() {
    let message = "This is where your secret message will be!".as_bytes();
    let mut bytes = chunk_bytes(42, "RuSt", message, 2882656334);
    assert!(Chunk::try_from(bytes.as_ref()).is_ok());
    let last = bytes.len() - 1;
    bytes[last] ^= 1;
    assert_eq!(Chunk::try_from(bytes.as_ref()).err(), Some(PngError::CrcMismatch));
    let mut bytes = chunk_bytes(42, "RuSt", message, 2882656334);
    bytes[last - 3] ^= 0x80;
    assert_eq!(Chunk::try_from(bytes.as_ref()).err(), Some(PngError::CrcMismatch));
    let mut bytes = chunk_bytes(42, "RuSt", message, 2882656334);
    bytes[10] ^= 1;
    assert_eq!(Chunk::try_from(bytes.as_ref()).err(), Some(PngError::CrcMismatch));
}

#[test]
fn test_chunk_framing_errors() {
    let message = "This is where your secret message will be!".as_bytes();
    let bytes = chunk_bytes(42, "RuSt", message, 2882656334);
    assert_eq!(Chunk::try_from(&bytes[..11]).err(), Some(PngError::ChunkTooShort));
    assert_eq!(Chunk::try_from(&bytes[..0]).err(), Some(PngError::ChunkTooShort));
    assert_eq!(Chunk::try_from(&bytes[..12]).err(), Some(PngError::Truncated));
    assert_eq!(Chunk::try_from(&bytes[..bytes.len() - 1]).err(), Some(PngError::Truncated));
    assert_eq!(Chunk::try_from(&bytes[..50]).err(), Some(PngError::Truncated));
    let bad_type = chunk_bytes(42, "Ru1t", message, 2882656334);
    assert_eq!(Chunk::try_from(bad_type.as_ref()).err(), Some(PngError::InvalidChunkType));
    let bad_type_short = chunk_bytes(4000, "Ru1t", message, 2882656334);
    assert_eq!(Chunk::try_from(bad_type_short.as_ref()).err(), Some(PngError::InvalidChunkType));
    let huge = chunk_bytes(u32::MAX, "RuSt", message, 2882656334);
    assert_eq!(Chunk::try_from(huge.as_ref()).err(), Some(PngError::Truncated));
}

#[test]
fn test_chunk_ignores_bytes_after_it() {
    let message = "This is where your secret message will be!".as_bytes();
    let mut bytes = chunk_bytes(42, "RuSt", message, 2882656334);
    bytes.extend_from_slice(&[1, 2, 3, 4, 5]);
    let chunk = Chunk::try_from(bytes.as_ref()).unwrap();
    assert_eq!(chunk.length(), 42);
    assert_eq!(chunk.data(), message);
    assert_eq!(chunk.as_bytes().len(), 54);
}

#[test]
fn test_chunk_as_bytes_is_inverse_of_parse() {
    let message = "This is where your secret message will be!".as_bytes();
    let bytes = chunk_bytes(42, "RuSt", message, 2882656334);
    let chunk = Chunk::try_from(bytes.as_ref()).unwrap();
    assert_eq!(chunk.as_bytes(), bytes);
    let built = Chunk::new(ChunkType::from_str("RuSt").unwrap(), message.to_vec());
    assert_eq!(built.as_bytes(), bytes);
    let again = Chunk::try_from(built.as_bytes().as_ref()).unwrap();
    assert_eq!(again.crc(), built.crc());
    assert_eq!(again.data(), built.data());
    assert_eq!(again.chunk_type(), built.chunk_type());
}

#[test]
fn test_empty_chunk() {
    let chunk = Chunk::new(ChunkType::from_str("IEND").unwrap(), Vec::new());
    assert_eq!(chunk.length(), 0);
    assert_eq!(chunk.crc(), 0xAE42_6082);
    assert_eq!(chunk.as_bytes(), vec![0, 0, 0, 0, 73, 69, 78, 68, 0xAE, 0x42, 0x60, 0x82]);
    let parsed = Chunk::try_from(chunk.as_bytes().as_ref()).unwrap();
    assert_eq!(parsed.data().len(), 0);
    assert_eq!(parsed.data_as_string().unwrap(), String::new());
}

#[test]
fn test_get_crc_is_crc_of_tag_then_payload() {
    let tag = ChunkType::from_str("IEND").unwrap();
    assert_eq!(Chunk::get_crc(&tag, &Vec::new()), 0xAE42_6082);
    let tag = ChunkType::from_str("RuSt").unwrap();
    let data = "This is where your secret message will be!".as_bytes().to_vec();
    assert_eq!(Chunk::get_crc(&tag, &data), 2882656334);
    let chunk = Chunk::new(tag, data.clone());
    assert_eq!(Chunk::get_crc(chunk.chunk_type(), &data), chunk.crc());
}

#[test]
fn test_check_crc() {
    assert_eq!(Chunk::check_crc(7, 7), Ok(()));
    assert_eq!(Chunk::check_crc(0, 0), Ok(()));
    assert_eq!(Chunk::check_crc(7, 8), Err(PngError::CrcMismatch));
    assert_eq!(Chunk::check_crc(u32::MAX, 0), Err(PngError::CrcMismatch));
}

#[test]
fn test_data_as_string_rejects_bad_utf8() {
    let chunk = Chunk::new(ChunkType::from_str("RuSt").unwrap(), vec![0xff, 0xfe]);
    assert_eq!(chunk.data_as_string(), Err(PngError::NotUtf8));
    let chunk = Chunk::new(ChunkType::from_str("RuSt").unwrap(), vec![0xc3, 0xa9]);
    assert_eq!(chunk.data_as_string(), Ok(String::from("\u{e9}")));
}

#[test]
fn test_chunk_to_string_format() {
    let chunk = Chunk::new(ChunkType::from_str("RuSt").unwrap(), vec![0, 7, 42, 255]);
    let crc = chunk.crc();
    assert_eq!(chunk.to_string(), format!("4 RuSt 0 7 42 255 {} ", crc));
    let empty = Chunk::new(ChunkType::from_str("IEND").unwrap(), Vec::new());
    assert_eq!(empty.to_string(), "0 IEND 2923585666 ");
    assert_eq!(empty.render(), "0 IEND 2923585666 ".as_bytes().to_vec());
}

#[test]
fn test_big_endian_helpers() {
    let mut out: Vec<u8> = vec![9];
    push_be_u32(&mut out, 0x0102_0304);
    assert_eq!(out, vec![9, 1, 2, 3, 4]);
    push_be_u32(&mut out, u32::MAX);
    assert_eq!(out, vec![9, 1, 2, 3, 4, 255, 255, 255, 255]);
    assert_eq!(read_be_u32(&out, 1), 0x0102_0304);
    assert_eq!(read_be_u32(&out, 5), u32::MAX);
    assert_eq!(read_be_u32(&[0, 0, 0, 42], 0), 42);
    assert_eq!(read_be_u32(&[0, 0, 1, 0], 0), 256);
    push_all(&mut out, &[5, 6]);
    assert_eq!(out, vec![9, 1, 2, 3, 4, 255, 255, 255, 255, 5, 6]);
}

#[test]
fn test_letters() {
    assert!(byte_is_letter(b'A'));
    assert!(byte_is_letter(b'Z'));
    assert!(byte_is_letter(b'a'));
    assert!(byte_is_letter(b'z'));
    assert!(!byte_is_letter(b'@'));
    assert!(!byte_is_letter(b'['));
    assert!(!byte_is_letter(b'`'));
    assert!(!byte_is_letter(b'{'));
    assert!(!byte_is_letter(b'1'));
    assert!(!byte_is_letter(0));
    assert!(!byte_is_letter(255));
}

#[test]
fn test_decimal_and_text() {
    let mut out: Vec<u8> = Vec::new();
    push_decimal(&mut out, 0);
    assert_eq!(out, b"0".to_vec());
    push_decimal(&mut out, 10);
    assert_eq!(out, b"010".to_vec());
    push_decimal(&mut out, 4294967295);
    assert_eq!(out, b"0104294967295".to_vec());
    assert_eq!(string_of_bytes(b"abc".to_vec()), "abc");
    assert_eq!(string_of_bytes(vec![0xff]), "Invalid UTF-8");
    assert_eq!(string_of_bytes(vec![]), "");
}
