use hackpng::chunk::Chunk;
use hackpng::chunk_type::{ChunkType, ChunkTypeError};
use hackpng::message::{embed_message, find_message, EncodeError};
use hackpng::png::{Png, PngError};
use std::str::FromStr;

fn base_png() -> Vec<u8> {
    Png::from_chunks(vec![
        Chunk::new(ChunkType::from_str("IHDR").unwrap(), vec![1, 2, 3]),
        Chunk::new(ChunkType::from_str("IEND").unwrap(), vec![]),
    ])
    .as_bytes()
}

#[test]
fn embed_appends_and_find_reads_back() {
    let out = embed_message(&base_png(), "ruSt", Some(b"secret".to_vec()), None).unwrap();
    let p = Png::try_from(out.as_slice()).unwrap();
    assert_eq!(p.chunks().len(), 3);
    assert_eq!(p.chunks()[2].chunk_type().bytes(), *b"ruSt");
    let c = find_message(&out, "ruSt").unwrap().unwrap();
    assert_eq!(c.data_as_string().unwrap(), "secret");
    assert!(find_message(&out, "none").unwrap().is_none());
}

#[test]
fn embed_at_index_inserts() {
    let out = embed_message(&base_png(), "ruSt", Some(b"m".to_vec()), Some(1)).unwrap();
    let p = Png::try_from(out.as_slice()).unwrap();
    assert_eq!(p.chunks()[1].chunk_type().bytes(), *b"ruSt");
    assert_eq!(p.chunks()[2].chunk_type().bytes(), *b"IEND");
}

#[test]
fn embed_errors() {
    let png = base_png();
    assert_eq!(
        embed_message(&png, "ruSt", None, None),
        Err(EncodeError::MissingMessage)
    );
    assert_eq!(
        embed_message(&png, "ru5t", Some(vec![1]), None),
        Err(EncodeError::ChunkType(ChunkTypeError::InvalidCharacter))
    );
    assert_eq!(
        embed_message(&png, "ru", Some(vec![1]), None),
        Err(EncodeError::ChunkType(ChunkTypeError::UnexpectedLength(2)))
    );
    assert_eq!(
        embed_message(&png, "ruSt", Some(vec![1]), Some(3)),
        Err(EncodeError::Png(PngError::IndexOutOfRange))
    );
    assert_eq!(
        embed_message(&png[1..], "ruSt", Some(vec![1]), None),
        Err(EncodeError::Png(PngError::SignatureMismatch))
    );
}

#[test]
fn find_in_broken_stream_fails() {
    let png = base_png();
    assert_eq!(find_message(&png[..png.len() - 1], "IEND").unwrap_err().clone(), PngError::Chunk(hackpng::chunk::ChunkError::InvalidNumberOfBytes));
}
