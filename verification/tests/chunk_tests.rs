use pngme::chunk::Chunk;
use pngme::chunk_type::ChunkType;
use pngme::error::PngError;
use std::str::FromStr;

fn testing_chunk() -> Chunk {
    let data_length: u32 = 42;
    let chunk_type = "RuSt".as_bytes();
    let message_bytes = "This is where your secret message will be!".as_bytes();
    let crc: u32 = 2882656334;

    let chunk_data: Vec<u8> = data_length
        .to_be_bytes()
        .iter()
        .chain(chunk_type.iter())
        .chain(message_bytes.iter())
        .chain(crc.to_be_bytes().iter())
        .copied()
        .collect();

    Chunk::try_from(chunk_data.as_ref()).unwrap()
}

fn wire(length: u32, chunk_type: &[u8], data: &[u8], crc: u32) -> Vec<u8> {
    length
        .to_be_bytes()
        .iter()
        .chain(chunk_type.iter())
        .chain(data.iter())
        .chain(crc.to_be_bytes().iter())
        .copied()
        .collect()
}

#[test]
fn test_new_chunk() {
    let chunk_type = ChunkType::from_str("RuSt").unwrap();
    let data = "This is where your secret message will be!"
        .as_bytes()
        .to_vec();
    let chunk = Chunk::new(chunk_type, data);
    assert_eq!(chunk.length(), 42);
    assert_eq!(chunk.crc(), 2882656334);
}

#[test]
fn test_chunk_length() {
    let chunk = testing_chunk();
    assert_eq!(chunk.length(), 42);
}

#[test]
fn test_chunk_type() {
    let chunk = testing_chunk();
    assert_eq!(chunk.chunk_type().to_string(), String::from("RuSt"));
}

#[test]
fn test_chunk_string() {
    let chunk = testing_chunk();
    let chunk_string = chunk.data_as_string().unwrap();
    let expected_chunk_string = String::from("This is where your secret message will be!");
    assert_eq!(chunk_string, expected_chunk_string);
}

#[test]
fn test_chunk_crc() {
    let chunk = testing_chunk();
    assert_eq!(chunk.crc(), 2882656334);
}

#[test]
fn test_valid_chunk_from_bytes() {
    let data_length: u32 = 42;
    let chunk_type = "RuSt".as_bytes();
    let message_bytes = "This is where your secret message will be!".as_bytes();
    let crc: u32 = 2882656334;

    let chunk_data: Vec<u8> = data_length
        .to_be_bytes()
        .iter()
        .chain(chunk_type.iter())
        .chain(message_bytes.iter())
        .chain(crc.to_be_bytes().iter())
        .copied()
        .collect();

    let chunk = Chunk::try_from(chunk_data.as_ref()).unwrap();

    let chunk_string = chunk.data_as_string().unwrap();
    let expected_chunk_string = String::from("This is where your secret message will be!");

    assert_eq!(chunk.length(), 42);
    assert_eq!(chunk.chunk_type().to_string(), String::from("RuSt"));
    assert_eq!(chunk_string, expected_chunk_string);
    assert_eq!(chunk.crc(), 2882656334);
}

#[test]
fn test_invalid_chunk_from_bytes() {
    let data_length: u32 = 42;
    let chunk_type = "RuSt".as_bytes();
    let message_bytes = "This is where your secret message will be!".as_bytes();
    let crc: u32 = 2882656333;

    let chunk_data: Vec<u8> = data_length
        .to_be_bytes()
        .iter()
        .chain(chunk_type.iter())
        .chain(message_bytes.iter())
        .chain(crc.to_be_bytes().iter())
        .copied()
        .collect();

    let chunk = Chunk::try_from(chunk_data.as_ref());

    assert!(chunk.is_err());
}

#[test]
pub fn test_chunk_trait_impls() {
    let data_length: u32 = 42;
    let chunk_type = "RuSt".as_bytes();
    let message_bytes = "This is where your secret message will be!".as_bytes();
    let crc: u32 = 2882656334;

    let chunk_data: Vec<u8> = data_length
        .to_be_bytes()
        .iter()
        .chain(chunk_type.iter())
        .chain(message_bytes.iter())
        .chain(crc.to_be_bytes().iter())
        .copied()
        .collect();

    let chunk: Chunk = TryFrom::try_from(chunk_data.as_ref()).unwrap();

    let _chunk_string = chunk.to_string();
}

#[test]
fn test_secret_message_scenario() {
    let message = "This is where your secret message will be!";
    let chunk = Chunk::new(ChunkType::from_str("RuSt").unwrap(), message.as_bytes().to_vec());
    assert_eq!(chunk.crc(), 2882656334);
    let bytes = chunk.as_bytes();
    assert_eq!(bytes, wire(42, b"RuSt", message.as_bytes(), 2882656334));
    let again = Chunk::try_from(bytes.as_slice()).unwrap();
    assert_eq!(again.length(), 42);
    assert_eq!(again.length() as usize, message.len());
    assert_eq!(again.data_as_string().unwrap(), message);
    assert_eq!(again, chunk);
}

#[test]
fn test_corrupt_crc_is_a_crc_mismatch() {
    let message = "This is where your secret message will be!";
    let bytes = wire(42, b"RuSt", message.as_bytes(), 2882656333);
    assert_eq!(Chunk::try_from(bytes.as_slice()), Err(PngError::CrcMismatch));
}

#[test]
fn test_chunk_line_of_text() {
    let chunk = testing_chunk();
    assert_eq!(
        chunk.to_string(),
        "42 RuSt This is where your secret message will be! 2882656334"
    );
    let empty = Chunk::new(ChunkType::from_str("IEND").unwrap(), Vec::new());
    assert_eq!(empty.to_string(), "0 IEND  2923585666");
}

#[test]
fn test_known_checksums() {
    assert_eq!(Chunk::calculate_crc(&b"IEND".to_vec(), &Vec::new()), 0xAE42_6082);
    assert_eq!(Chunk::calculate_crc(&b"1234".to_vec(), &b"56789".to_vec()), 0xCBF4_3926);
    assert_eq!(Chunk::calculate_crc(&Vec::new(), &b"123456789".to_vec()), 0xCBF4_3926);
    assert_eq!(Chunk::calculate_crc(&Vec::new(), &Vec::new()), 0);
    let chunk = Chunk::new(ChunkType::from_str("IEND").unwrap(), Vec::new());
    assert_eq!(chunk.crc(), 0xAE42_6082);
    assert_eq!(chunk.as_bytes(), vec![0, 0, 0, 0, 73, 69, 78, 68, 0xAE, 0x42, 0x60, 0x82]);
}

#[test]
fn test_check_crc() {
    assert_eq!(Chunk::check_crc(7, 7), Ok(()));
    assert_eq!(Chunk::check_crc(0, u32::MAX), Err(PngError::CrcMismatch));
    assert_eq!(Chunk::check_crc(2882656333, 2882656334), Err(PngError::CrcMismatch));
}

#[test]
fn test_round_trip_of_chunks() {
    let payloads: Vec<Vec<u8>> = vec![
        Vec::new(),
        vec![0],
        vec![255; 3],
        (0..=255).collect(),
        "h\u{e9}llo w\u{f6}rld".as_bytes().to_vec(),
        vec![7; 70_000],
    ];
    for text in ["RuSt", "IHDR", "IEND", "abcd", "Rust"] {
        for data in &payloads {
            let chunk = Chunk::new(ChunkType::from_str(text).unwrap(), data.clone());
            assert_eq!(chunk.length() as usize, data.len());
            assert_eq!(chunk.data(), data.as_slice());
            let bytes = chunk.as_bytes();
            assert_eq!(bytes.len(), Chunk::SIZE_WITHOUT_DATA + data.len());
            assert_eq!(&bytes[0..4], (data.len() as u32).to_be_bytes().as_slice());
            assert_eq!(&bytes[4..8], text.as_bytes());
            assert_eq!(&bytes[8..8 + data.len()], data.as_slice());
            assert_eq!(&bytes[8 + data.len()..], chunk.crc().to_be_bytes().as_slice());
            let again = Chunk::try_from(bytes.as_slice()).unwrap();
            assert_eq!(again.chunk_type().to_string(), text);
            assert_eq!(again.data(), data.as_slice());
            assert_eq!(again.length(), chunk.length());
            assert_eq!(again.crc(), chunk.crc());
            assert_eq!(again, chunk);
        }
    }
}

#[test]
fn test_every_flipped_bit_of_data_and_crc_is_found() {
    let chunk = testing_chunk();
    let bytes = chunk.as_bytes();
    for place in 8..bytes.len() {
        for bit in 0..8 {
            let mut changed = bytes.clone();
            changed[place] ^= 1 << bit;
            assert_eq!(Chunk::try_from(changed.as_slice()), Err(PngError::CrcMismatch));
        }
    }
}

#[test]
fn test_flipped_bit_of_type_code() {
    let bytes = testing_chunk().as_bytes();
    for place in 4..8 {
        for bit in 0..7 {
            let mut changed = bytes.clone();
            changed[place] ^= 1 << bit;
            assert_eq!(Chunk::try_from(changed.as_slice()), Err(PngError::CrcMismatch));
        }
        let mut changed = bytes.clone();
        changed[place] ^= 0x80;
        assert_eq!(Chunk::try_from(changed.as_slice()), Err(PngError::InvalidChunkType));
    }
}

#[test]
fn test_short_input_is_truncated() {
    let bytes = testing_chunk().as_bytes();
    for n in 0..bytes.len() {
        assert_eq!(Chunk::try_from(&bytes[..n]), Err(PngError::TruncatedInput));
    }
    let mut longer_length = bytes.clone();
    longer_length[3] = 43;
    assert_eq!(Chunk::try_from(longer_length.as_slice()), Err(PngError::TruncatedInput));
    let mut huge_length = bytes.clone();
    huge_length[0] = 255;
    huge_length[1] = 255;
    huge_length[2] = 255;
    huge_length[3] = 255;
    assert_eq!(Chunk::try_from(huge_length.as_slice()), Err(PngError::TruncatedInput));
}

#[test]
fn test_type_code_is_checked_before_the_length() {
    let mut bytes = vec![0, 0, 0, 9, 200, 117, 83, 116, 0, 0, 0, 0];
    assert_eq!(Chunk::try_from(bytes.as_slice()), Err(PngError::InvalidChunkType));
    bytes[4] = 82;
    assert_eq!(Chunk::try_from(bytes.as_slice()), Err(PngError::TruncatedInput));
}

#[test]
fn test_bytes_after_the_chunk_are_not_read() {
    let chunk = testing_chunk();
    let mut bytes = chunk.as_bytes();
    bytes.extend_from_slice(&[1, 2, 3, 4, 5]);
    let again = Chunk::try_from(bytes.as_slice()).unwrap();
    assert_eq!(again, chunk);
    assert_eq!(again.as_bytes().len(), bytes.len() - 5);
}

#[test]
fn test_data_that_is_not_text() {
    let chunk = Chunk::new(ChunkType::from_str("RuSt").unwrap(), vec![0xff, 0xfe]);
    assert_eq!(chunk.data_as_string(), Err(PngError::EncodingError));
    let chunk = Chunk::new(ChunkType::from_str("RuSt").unwrap(), vec![0xc3]);
    assert_eq!(chunk.data_as_string(), Err(PngError::EncodingError));
    let chunk = Chunk::new(ChunkType::from_str("RuSt").unwrap(), vec![0xc3, 0xa9]);
    assert_eq!(chunk.data_as_string(), Ok(String::from("\u{e9}")));
    let chunk = Chunk::new(ChunkType::from_str("RuSt").unwrap(), Vec::new());
    assert_eq!(chunk.data_as_string(), Ok(String::new()));
}

#[test]
fn test_chunks_compare_by_type_and_data() {
    let a = Chunk::new(ChunkType::from_str("RuSt").unwrap(), vec![1, 2, 3]);
    let b = Chunk::new(ChunkType::from_str("RuSt").unwrap(), vec![1, 2, 3]);
    let c = Chunk::new(ChunkType::from_str("RuSt").unwrap(), vec![1, 2, 4]);
    let d = Chunk::new(ChunkType::from_str("ruSt").unwrap(), vec![1, 2, 3]);
    assert_eq!(a, b);
    assert_ne!(a, c);
    assert_ne!(a, d);
}
