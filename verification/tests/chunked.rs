use poius::chunks::{
    assemble_chunked, chunk_count, chunked_compress, compress_chunk, read_footer, split_chunks,
    CHUNK_SIZE,
};

fn le_bytes(v: u64) -> Vec<u8> {
    let mut out = Vec::new();
    let mut x = v;
    for _ in 0..8 {
        out.push((x & 0xff) as u8);
        x >>= 8;
    }
    out
}

#[test]
fn chunk_count_matches_ceiling() {
    assert_eq!(chunk_count(0), 0);
    assert_eq!(chunk_count(1), 1);
    assert_eq!(chunk_count(CHUNK_SIZE as u64), 1);
    assert_eq!(chunk_count(CHUNK_SIZE as u64 + 1), 2);
    assert_eq!(chunk_count(2 * CHUNK_SIZE as u64), 2);
    // A source of exactly K whole chunks takes exactly K workers, one each.
    assert_eq!(chunk_count(5 * CHUNK_SIZE as u64), 5);
}

#[test]
fn footer_holds_original_size() {
    let data = b"hello".to_vec();
    let out = chunked_compress(&data).expect("in-memory compression must succeed");
    assert!(out.len() >= 8);
    assert_eq!(out[out.len() - 8..].to_vec(), le_bytes(5));
    assert_eq!(read_footer(&out), Some(5));
}

#[test]
fn empty_input_is_footer_only() {
    let out = chunked_compress(&Vec::new()).expect("in-memory compression must succeed");
    assert_eq!(out, vec![0u8; 8]);
    assert_eq!(read_footer(&out), Some(0));
}

#[test]
fn read_footer_rejects_short_input() {
    assert_eq!(read_footer(&b"1234567".to_vec()), None);
}

#[test]
fn assembly_is_frames_then_footer() {
    let chunk = b"abc".to_vec();
    let frame = compress_chunk(&chunk).expect("in-memory compression must succeed");
    let assembled = assemble_chunked(&vec![frame.clone()], 3);
    let mut expected = frame;
    expected.extend_from_slice(&le_bytes(3));
    assert_eq!(assembled, expected);
    // The one-chunk pipeline produces exactly the same bytes.
    assert_eq!(chunked_compress(&chunk).expect("must succeed"), assembled);
}

#[test]
fn multi_chunk_output_decodes_back() {
    // Three chunks: two full ones and a three-byte remainder.
    let len = 2 * CHUNK_SIZE + 3;
    let mut data = Vec::with_capacity(len);
    for i in 0..len {
        data.push((i % 251) as u8);
    }
    let chunks = split_chunks(&data);
    assert_eq!(chunks.len(), 3);
    assert_eq!(chunks[0].len(), CHUNK_SIZE);
    assert_eq!(chunks[1].len(), CHUNK_SIZE);
    assert_eq!(chunks[2].len(), 3);

    let out = chunked_compress(&data).expect("in-memory compression must succeed");
    assert_eq!(read_footer(&out), Some(len as u64));
    // The payload before the footer is a concatenation of self-contained
    // frames, one per chunk in index order; decoding them in sequence
    // restores the source.
    let payload = &out[..out.len() - 8];
    let restored = zstd::stream::decode_all(payload).expect("frames must decode");
    assert_eq!(restored, data);
}

#[test]
fn split_chunks_of_small_input_is_one_chunk() {
    let data = b"tiny".to_vec();
    let chunks = split_chunks(&data);
    assert_eq!(chunks.len(), 1);
    assert_eq!(chunks[0], data);
    assert_eq!(split_chunks(&Vec::new()).len(), 0);
}
