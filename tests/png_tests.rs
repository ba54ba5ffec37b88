use pngme::{Chunk, ChunkType, Png, PngError};

const SIGNATURE: [u8; 8] = [137, 80, 78, 71, 13, 10, 26, 10];

fn chunk(ty: &str, data: &str) -> Chunk {
    Chunk::new(ChunkType::from_text(ty).unwrap(), data.as_bytes().to_vec())
}

fn file_bytes(chunks: &[Chunk]) -> Vec<u8> {
    let mut out = SIGNATURE.to_vec();
    for c in chunks {
        out.extend(c.as_bytes());
    }
    out
}

fn sample() -> Vec<u8> {
    file_bytes(&[
        chunk("FrSt", "I am the first chunk"),
        chunk("miDl", "I am another chunk"),
        chunk("miDl", "I am a second middle chunk"),
        chunk("LASt", "I am the last chunk"),
    ])
}

fn types(p: &Png) -> Vec<String> {
    p.chunks().iter().map(|c| c.chunk_type().to_string()).collect()
}

#[test]
fn parse_then_serialize_round_trips() {
    let bytes = sample();
    let p = Png::try_from(&bytes).unwrap();
    assert_eq!(p.chunks().len(), 4);
    assert_eq!(p.as_bytes(), bytes);
}

#[test]
fn signature_only_is_empty_file() {
    let p = Png::try_from(&SIGNATURE).unwrap();
    assert_eq!(p.chunks().len(), 0);
    assert_eq!(p.as_bytes(), SIGNATURE.to_vec());
}

#[test]
fn from_chunks_serializes_in_order() {
    let p = Png::from_chunks(vec![chunk("FrSt", "a"), chunk("LASt", "b")]);
    assert_eq!(p.as_bytes(), file_bytes(&[chunk("FrSt", "a"), chunk("LASt", "b")]));
}

#[test]
fn bad_signature_is_refused() {
    let mut bytes = sample();
    bytes[0] = 13;
    assert_eq!(Png::try_from(&bytes).unwrap_err(), PngError::BadSignature);
    let mut bytes = sample();
    bytes[7] = 0;
    assert_eq!(Png::try_from(&bytes).unwrap_err(), PngError::BadSignature);
    assert_eq!(Png::try_from(&[137, 80, 78]).unwrap_err(), PngError::BadSignature);
    assert_eq!(Png::try_from(&[]).unwrap_err(), PngError::BadSignature);
}

#[test]
fn truncated_payload_is_refused() {
    let bytes = sample();
    let cut = &bytes[..bytes.len() - 10];
    assert_eq!(Png::try_from(cut).unwrap_err(), PngError::Truncated);
    let cut = &bytes[..SIGNATURE.len() + 5];
    assert_eq!(Png::try_from(cut).unwrap_err(), PngError::Truncated);
}

#[test]
fn corrupted_chunk_is_refused() {
    let mut bytes = sample();
    bytes[SIGNATURE.len() + 10] ^= 0x01;
    assert_eq!(Png::try_from(&bytes).unwrap_err(), PngError::ChecksumMismatch);
}

#[test]
fn find_first_and_all() {
    let p = Png::try_from(&sample()).unwrap();
    let c = p.chunk_by_type("miDl").unwrap();
    assert_eq!(c.data_as_string().unwrap(), "I am another chunk");
    assert!(p.chunk_by_type("NoNe").is_none());
    assert!(p.chunk_by_type("miD").is_none());
    let all = p.chunks_by_type("miDl").unwrap();
    assert_eq!(all.len(), 2);
    assert_eq!(all[1].data_as_string().unwrap(), "I am a second middle chunk");
    assert!(p.chunks_by_type("NoNe").is_none());
}

#[test]
fn append_find_remove_twice() {
    let mut p = Png::try_from(&sample()).unwrap();
    p.append_chunk(chunk("TeSt", "Message"));
    let found = p.chunk_by_type("TeSt").unwrap();
    assert_eq!(found.data_as_string().unwrap(), "Message");
    let removed = p.remove_chunk("TeSt").unwrap();
    assert_eq!(removed.data_as_string().unwrap(), "Message");
    assert_eq!(p.remove_chunk("TeSt").unwrap_err(), PngError::NotFound);
    assert_eq!(p.as_bytes(), sample());
}

#[test]
fn remove_keeps_order_of_the_rest() {
    let mut p = Png::try_from(&sample()).unwrap();
    let removed = p.remove_chunk("miDl").unwrap();
    assert_eq!(removed.data_as_string().unwrap(), "I am another chunk");
    assert_eq!(types(&p), vec!["FrSt", "miDl", "LASt"]);
}

#[test]
fn remove_missing_leaves_file_unchanged() {
    let mut p = Png::try_from(&sample()).unwrap();
    assert_eq!(p.remove_chunk("NoNe").unwrap_err(), PngError::NotFound);
    assert_eq!(p.as_bytes(), sample());
}

#[test]
fn remove_all_takes_every_match() {
    let mut p = Png::try_from(&sample()).unwrap();
    assert_eq!(p.remove_all_chunks("miDl"), 2);
    assert_eq!(types(&p), vec!["FrSt", "LASt"]);
    assert_eq!(p.remove_all_chunks("miDl"), 0);
    assert_eq!(types(&p), vec!["FrSt", "LASt"]);
}
