use hackpng::chunk::{Chunk, ChunkError};
use hackpng::chunk_type::ChunkType;
use hackpng::png::{Png, PngError};
use std::str::FromStr;

const SIGNATURE: [u8; 8] = [137, 80, 78, 71, 13, 10, 26, 10];

fn chunk(kind: &str, data: &str) -> Chunk {
    Chunk::new(ChunkType::from_str(kind).unwrap(), data.as_bytes().to_vec())
}

fn three_chunks() -> Png {
    Png::from_chunks(vec![chunk("IHDR", "header"), chunk("teSt", "hidden"), chunk("IEND", "")])
}

fn kinds(p: &Png) -> Vec<String> {
    p.chunks().iter().map(|c| c.chunk_type().to_string().unwrap()).collect()
}

#[test]
fn lookup_finds_first_of_type() {
    let p = three_chunks();
    let found = p.chunk_by_type("teSt").unwrap();
    assert_eq!(found.data(), b"hidden");
    assert!(p.chunk_by_type("nope").is_none());
}

#[test]
fn lookup_returns_first_of_two() {
    let mut p = three_chunks();
    p.append_chunk(chunk("teSt", "second"));
    assert_eq!(p.chunk_by_type("teSt").unwrap().data(), b"hidden");
}

#[test]
fn append_then_insert_front_orders_and_survives_reparse() {
    let mut p = Png::from_chunks(vec![]);
    p.append_chunk(chunk("XxXx", "x"));
    p.insert_chunk(0, chunk("YyYy", "y")).unwrap();
    assert_eq!(kinds(&p), vec!["YyYy", "XxXx"]);
    let back = Png::try_from(p.as_bytes().as_slice()).unwrap();
    assert_eq!(kinds(&back), vec!["YyYy", "XxXx"]);
}

#[test]
fn insert_past_end_is_out_of_range() {
    let mut p = three_chunks();
    assert_eq!(p.insert_chunk(4, chunk("ruSt", "x")), Err(PngError::IndexOutOfRange));
    assert_eq!(p.chunks().len(), 3);
    assert_eq!(p.insert_chunk(3, chunk("ruSt", "x")), Ok(()));
    assert_eq!(kinds(&p), vec!["IHDR", "teSt", "IEND", "ruSt"]);
}

#[test]
fn png_round_trip_keeps_order_and_bytes() {
    let p = three_chunks();
    let bytes = p.as_bytes();
    assert_eq!(&bytes[0..8], &SIGNATURE);
    assert_eq!(bytes.len(), 8 + (12 + 6) + (12 + 6) + 12);
    let back = Png::try_from(bytes.as_slice()).unwrap();
    assert_eq!(kinds(&back), vec!["IHDR", "teSt", "IEND"]);
    assert_eq!(back.chunks()[1].data(), b"hidden");
    assert_eq!(back.as_bytes(), bytes);
}

#[test]
fn signature_only_is_empty_png() {
    let p = Png::try_from(&SIGNATURE[..]).unwrap();
    assert_eq!(p.chunks().len(), 0);
    assert_eq!(p.header(), SIGNATURE);
}

#[test]
fn wrong_signature_is_rejected() {
    let mut bytes = three_chunks().as_bytes();
    bytes[1] = b'Q';
    assert_eq!(Png::try_from(bytes.as_slice()).unwrap_err(), PngError::SignatureMismatch);
    assert_eq!(Png::try_from(&SIGNATURE[..5]).unwrap_err(), PngError::SignatureMismatch);
}

#[test]
fn chunk_errors_propagate() {
    let mut bytes = three_chunks().as_bytes();
    let n = bytes.len();
    bytes[n - 1] ^= 1;
    assert_eq!(
        Png::try_from(bytes.as_slice()).unwrap_err(),
        PngError::Chunk(ChunkError::CRCMismatch)
    );
    let bytes = three_chunks().as_bytes();
    assert_eq!(
        Png::try_from(&bytes[..bytes.len() - 2]).unwrap_err(),
        PngError::Chunk(ChunkError::InvalidNumberOfBytes)
    );
}

#[test]
fn remove_chunk_takes_first_of_type() {
    let mut p = three_chunks();
    let c = p.remove_chunk("teSt").unwrap();
    assert_eq!(c.data(), b"hidden");
    assert_eq!(kinds(&p), vec!["IHDR", "IEND"]);
    assert_eq!(p.remove_chunk("teSt").unwrap_err(), PngError::ChunkNotFound);
}
