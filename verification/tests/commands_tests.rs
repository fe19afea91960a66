use pngme::chunk::Chunk;
use pngme::chunk_type::ChunkType;
use pngme::commands::{decode, encode, print, remove};
use pngme::error::PngError;
use pngme::png::Png;

fn file_bytes() -> Vec<u8> {
    let mut bytes: Vec<u8> = vec![137, 80, 78, 71, 13, 10, 26, 10];
    let first = Chunk::new(ChunkType::from_str("FrSt").unwrap(), b"one".to_vec());
    let end = Chunk::new(ChunkType::from_str("IEND").unwrap(), Vec::new());
    bytes.extend_from_slice(&first.as_bytes());
    bytes.extend_from_slice(&end.as_bytes());
    bytes
}

#[test]
fn test_encode_appends_chunk() {
    let out = encode(&file_bytes(), "RuSt", "This is where your secret message will be!").unwrap();
    let mut expected = file_bytes();
    expected.extend_from_slice(&42u32.to_be_bytes());
    expected.extend_from_slice(b"RuSt");
    expected.extend_from_slice(b"This is where your secret message will be!");
    expected.extend_from_slice(&2882656334u32.to_be_bytes());
    assert_eq!(out, expected);
    let png = Png::try_from(out.as_ref()).unwrap();
    assert_eq!(png.chunks().len(), 3);
}

#[test]
fn test_encode_errors() {
    assert_eq!(encode(&[1, 2, 3], "RuSt", "m"), Err(PngError::BadSignature));
    assert_eq!(encode(&[1, 2, 3], "Ru", "m"), Err(PngError::BadSignature));
    assert_eq!(encode(&file_bytes(), "Ru", "m"), Err(PngError::InvalidLength));
    assert_eq!(encode(&file_bytes(), "Ru5t", "m"), Err(PngError::InvalidChunkType));
}

#[test]
fn test_decode_finds_message() {
    let out = encode(&file_bytes(), "RuSt", "hello").unwrap();
    assert_eq!(decode(&out, "RuSt"), Ok(Some(String::from("hello"))));
    assert_eq!(decode(&out, "FrSt"), Ok(Some(String::from("one"))));
    assert_eq!(decode(&out, "NoNe"), Ok(None));
    assert_eq!(decode(&out, "No"), Err(PngError::InvalidLength));
    assert_eq!(decode(&out[..out.len() - 1], "RuSt"), Err(PngError::Truncated));
}

#[test]
fn test_decode_rejects_payload_that_is_no_text() {
    let mut bytes = file_bytes();
    let odd = Chunk::new(ChunkType::from_str("biNa").unwrap(), vec![0xff, 0x00]);
    bytes.extend_from_slice(&odd.as_bytes());
    assert_eq!(decode(&bytes, "biNa"), Err(PngError::NotUtf8));
}

#[test]
fn test_remove_takes_chunk_out() {
    let out = encode(&file_bytes(), "RuSt", "hello").unwrap();
    assert_eq!(remove(&out, "RuSt"), Ok(file_bytes()));
    assert_eq!(remove(&file_bytes(), "RuSt"), Err(PngError::ChunkNotFound));
    assert_eq!(remove(&file_bytes(), "Ru.t"), Err(PngError::InvalidChunkType));
    assert_eq!(remove(&[], "RuSt"), Err(PngError::BadSignature));
    let twice = encode(&out, "RuSt", "again").unwrap();
    let once_removed = remove(&twice, "RuSt").unwrap();
    assert_eq!(decode(&once_removed, "RuSt"), Ok(Some(String::from("again"))));
}

#[test]
fn test_print_lists_chunks() {
    assert_eq!(
        print(&file_bytes()),
        Ok(format!(
            "3 FrSt 111 110 101 {} \n0 IEND 2923585666 \n",
            Chunk::get_crc(&ChunkType::from_str("FrSt").unwrap(), &b"one".to_vec())
        ))
    );
    assert_eq!(print(&[0, 1, 2, 3, 4, 5, 6, 7, 8]), Err(PngError::BadSignature));
}
