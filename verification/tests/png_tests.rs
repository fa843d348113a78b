use pngme::chunk::Chunk;
use pngme::chunk_type::ChunkType;
use pngme::error::PngError;
use pngme::png::Png;
use std::str::FromStr;

fn chunk_from_strings(chunk_type: &str, data: &str) -> Chunk {
    Chunk::new(ChunkType::from_str(chunk_type).unwrap(), data.as_bytes().to_vec())
}

fn testing_chunks() -> Vec<Chunk> {
    vec![
        chunk_from_strings("FrSt", "I am the first chunk"),
        chunk_from_strings("miDl", "I am another chunk"),
        chunk_from_strings("LASt", "I am the last chunk"),
    ]
}

fn testing_png() -> Png {
    Png::from_chunks(testing_chunks())
}

fn texts(png: &Png) -> Vec<String> {
    png.chunks().iter().map(|chunk| chunk.data_as_string().unwrap()).collect()
}

#[test]
fn test_signature() {
    assert_eq!(Png::STANDARD_HEADER, [137, 80, 78, 71, 13, 10, 26, 10]);
    assert_eq!(testing_png().header(), &[137, 80, 78, 71, 13, 10, 26, 10]);
}

#[test]
fn test_from_chunks_keeps_the_order() {
    let png = testing_png();
    assert_eq!(png.chunks().len(), 3);
    assert_eq!(png.chunks(), testing_chunks().as_slice());
}

#[test]
fn test_as_bytes_is_signature_then_chunks() {
    let png = testing_png();
    let mut expected: Vec<u8> = vec![137, 80, 78, 71, 13, 10, 26, 10];
    for chunk in testing_chunks() {
        expected.extend_from_slice(&chunk.as_bytes());
    }
    assert_eq!(png.as_bytes(), expected);
    assert_eq!(Png::from_chunks(Vec::new()).as_bytes(), vec![137, 80, 78, 71, 13, 10, 26, 10]);
}

#[test]
fn test_smallest_file() {
    let bytes = [
        137u8, 80, 78, 71, 13, 10, 26, 10, 0, 0, 0, 0, 73, 69, 78, 68, 0xAE, 0x42, 0x60, 0x82,
    ];
    let png = Png::try_from(bytes.as_slice()).unwrap();
    assert_eq!(png.chunks().len(), 1);
    assert_eq!(png.chunks()[0].chunk_type().to_string(), "IEND");
    assert_eq!(png.chunks()[0].length(), 0);
    assert_eq!(png.as_bytes(), bytes.to_vec());
}

#[test]
fn test_round_trip_of_files() {
    let files = vec![
        Png::from_chunks(Vec::new()),
        testing_png(),
        Png::from_chunks(vec![chunk_from_strings("RuSt", ""), chunk_from_strings("RuSt", "")]),
        Png::from_chunks(vec![Chunk::new(ChunkType::from_str("blOb").unwrap(), vec![9; 5000])]),
    ];
    for png in files {
        let bytes = png.as_bytes();
        let again = Png::try_from(bytes.as_slice()).unwrap();
        assert_eq!(again.chunks(), png.chunks());
        assert_eq!(again.as_bytes(), bytes);
    }
}

#[test]
fn test_short_file_is_truncated() {
    let bytes = testing_png().as_bytes();
    for n in 0..8 {
        assert!(matches!(Png::try_from(&bytes[..n]), Err(PngError::TruncatedInput)));
    }
    assert!(Png::try_from(&bytes[..8]).is_ok());
    let first = testing_chunks()[0].as_bytes().len();
    for n in 9..bytes.len() {
        let at_chunk_end = n == 8 + first || n == 8 + first + testing_chunks()[1].as_bytes().len();
        let r = Png::try_from(&bytes[..n]);
        if at_chunk_end {
            assert!(r.is_ok());
        } else {
            assert!(matches!(r, Err(PngError::TruncatedInput)));
        }
    }
}

#[test]
fn test_bad_signature() {
    let bytes = testing_png().as_bytes();
    for place in 0..8 {
        let mut changed = bytes.clone();
        changed[place] ^= 1;
        assert!(matches!(Png::try_from(changed.as_slice()), Err(PngError::BadSignature)));
    }
    assert!(matches!(Png::try_from([0u8; 8].as_slice()), Err(PngError::BadSignature)));
    assert!(matches!(Png::try_from([0u8; 7].as_slice()), Err(PngError::TruncatedInput)));
}

#[test]
fn test_failures_of_chunks_come_through() {
    let bytes = testing_png().as_bytes();
    let mut bad_crc = bytes.clone();
    let last = bad_crc.len() - 1;
    bad_crc[last] ^= 1;
    assert!(matches!(Png::try_from(bad_crc.as_slice()), Err(PngError::CrcMismatch)));
    let mut bad_data = bytes.clone();
    bad_data[8 + 8] ^= 1;
    assert!(matches!(Png::try_from(bad_data.as_slice()), Err(PngError::CrcMismatch)));
    let mut bad_type = bytes.clone();
    bad_type[8 + 4] = 0x80;
    assert!(matches!(Png::try_from(bad_type.as_slice()), Err(PngError::InvalidChunkType)));
    let mut extra = bytes.clone();
    extra.push(0);
    assert!(matches!(Png::try_from(extra.as_slice()), Err(PngError::TruncatedInput)));
}

#[test]
fn test_append_chunk() {
    let mut png = testing_png();
    png.append_chunk(chunk_from_strings("TeSt", "Message"));
    assert_eq!(png.chunks().len(), 4);
    assert_eq!(
        texts(&png),
        ["I am the first chunk", "I am another chunk", "I am the last chunk", "Message"]
    );
    let chunk = png.chunk_by_type("TeSt").unwrap();
    assert_eq!(chunk.chunk_type().to_string(), "TeSt");
    assert_eq!(chunk.data_as_string().unwrap(), "Message");
}

#[test]
fn test_chunk_by_type() {
    let png = testing_png();
    let chunk = png.chunk_by_type("FrSt").unwrap();
    assert_eq!(chunk.chunk_type().to_string(), "FrSt");
    assert_eq!(chunk.data_as_string().unwrap(), "I am the first chunk");
    assert_eq!(png.chunk_by_type("LASt").unwrap().data_as_string().unwrap(), "I am the last chunk");
    assert!(png.chunk_by_type("frSt").is_none());
    assert!(png.chunk_by_type("FrS").is_none());
    assert!(png.chunk_by_type("FrStx").is_none());
    assert!(png.chunk_by_type("").is_none());
    assert!(png.chunk_by_type("\u{e9}\u{e9}").is_none());
    assert!(Png::from_chunks(Vec::new()).chunk_by_type("FrSt").is_none());
}

#[test]
fn test_first_chunk_of_a_type_wins() {
    let mut png = testing_png();
    png.append_chunk(chunk_from_strings("miDl", "a later one"));
    assert_eq!(png.chunk_by_type("miDl").unwrap().data_as_string().unwrap(), "I am another chunk");
    let removed = png.remove_chunk("miDl").unwrap();
    assert_eq!(removed.data_as_string().unwrap(), "I am another chunk");
    assert_eq!(texts(&png), ["I am the first chunk", "I am the last chunk", "a later one"]);
    assert_eq!(png.chunk_by_type("miDl").unwrap().data_as_string().unwrap(), "a later one");
    let removed = png.remove_chunk("miDl").unwrap();
    assert_eq!(removed.data_as_string().unwrap(), "a later one");
    assert!(png.chunk_by_type("miDl").is_none());
}

#[test]
fn test_remove_chunk() {
    let mut png = testing_png();
    png.append_chunk(chunk_from_strings("TeSt", "Message"));
    let removed = png.remove_chunk("TeSt").unwrap();
    assert_eq!(removed, chunk_from_strings("TeSt", "Message"));
    assert!(png.chunk_by_type("TeSt").is_none());
    assert_eq!(png.chunks(), testing_chunks().as_slice());
    assert_eq!(png.as_bytes(), testing_png().as_bytes());
}

#[test]
fn test_remove_chunk_that_is_not_there() {
    let mut png = testing_png();
    assert_eq!(png.remove_chunk("TeSt"), Err(PngError::NotFound));
    assert_eq!(png.remove_chunk("frSt"), Err(PngError::NotFound));
    assert_eq!(png.remove_chunk("not a type"), Err(PngError::NotFound));
    assert_eq!(png.chunks(), testing_chunks().as_slice());
}

#[test]
fn test_remove_first_and_middle_chunk() {
    let mut png = testing_png();
    assert_eq!(png.remove_chunk("FrSt").unwrap().data_as_string().unwrap(), "I am the first chunk");
    assert_eq!(texts(&png), ["I am another chunk", "I am the last chunk"]);
    assert_eq!(png.remove_chunk("LASt").unwrap().data_as_string().unwrap(), "I am the last chunk");
    assert_eq!(texts(&png), ["I am another chunk"]);
    assert_eq!(png.remove_chunk("miDl").unwrap().data_as_string().unwrap(), "I am another chunk");
    assert!(png.chunks().is_empty());
}
