//! The chunked compressor: a large input is cut into fixed-size chunks,
//! each chunk is compressed independently into its own self-contained
//! frame, the frames are concatenated in chunk-index order, and an 8-byte
//! little-endian footer holding the original total size closes the output.
//! Independent chunks let callers compress them on parallel workers, one
//! per chunk, as long as the results are assembled in index order.

use vstd::prelude::*;
use vstd::bytes::{spec_u64_to_le_bytes, spec_u64_from_le_bytes, u64_to_le_bytes,
    u64_from_le_bytes, lemma_auto_spec_u64_to_from_le_bytes};
use vstd::arithmetic::div_mod::{lemma_basic_div, lemma_fundamental_div_mod_converse};
use crate::codec::{CodecError, zstd_frame_of, encode_frame};
use crate::scan::{subvec, push_all};

verus! {

/// The fixed chunk size: ten mebibytes.
pub const CHUNK_SIZE: usize = 10 * 1024 * 1024;

/// How many chunks a source of `size` bytes is cut into: the ceiling of
/// `size / CHUNK_SIZE`, and zero for an empty source.
pub open spec fn chunk_count_of(size: int) -> int {
    if size <= 0 {
        0
    } else {
        (size - 1) / (CHUNK_SIZE as int) + 1
    }
}

/// The chunks of `data`, in order: every chunk is `CHUNK_SIZE` bytes except
/// the last, which holds whatever remains.
pub open spec fn chunks_of(data: Seq<u8>) -> Seq<Seq<u8>>
    decreases data.len(),
{
    if data.len() == 0 {
        Seq::empty()
    } else if data.len() <= CHUNK_SIZE {
        seq![data]
    } else {
        seq![data.subrange(0, CHUNK_SIZE as int)] + chunks_of(
            data.subrange(CHUNK_SIZE as int, data.len() as int),
        )
    }
}

/// The models of a vector of chunk (or frame) buffers.
pub open spec fn chunk_models(cs: Seq<Vec<u8>>) -> Seq<Seq<u8>> {
    cs.map_values(|c: Vec<u8>| c@)
}

/// There are exactly `chunk_count_of` chunks.
pub proof fn lemma_chunks_len(data: Seq<u8>)
    ensures
        chunks_of(data).len() == chunk_count_of(data.len() as int),
    decreases data.len(),
{
    let c = CHUNK_SIZE as int;
    if data.len() == 0 {
    } else if data.len() <= c {
        lemma_basic_div(data.len() - 1, c);
    } else {
        let rest = data.subrange(c, data.len() as int);
        lemma_chunks_len(rest);
        let q = (rest.len() - 1) / c;
        let r = (rest.len() - 1) % c;
        vstd::arithmetic::div_mod::lemma_fundamental_div_mod(rest.len() - 1, c);
        vstd::arithmetic::div_mod::lemma_mod_pos_bound(rest.len() - 1, c);
        assert(data.len() - 1 == (q + 1) * c + r) by (nonlinear_arith)
            requires
                rest.len() - 1 == c * q + r,
                rest.len() == data.len() - c,
        ;
        lemma_fundamental_div_mod_converse(data.len() - 1, c, q + 1, r);
    }
}

/// Concatenating the chunks in order restores the data.
pub proof fn lemma_chunks_reassemble(data: Seq<u8>)
    ensures
        chunks_of(data).flatten() == data,
    decreases data.len(),
{
    let c = CHUNK_SIZE as int;
    if data.len() == 0 {
        assert(chunks_of(data).flatten() =~= data);
    } else if data.len() <= c {
        seq![data].lemma_flatten_singleton();
    } else {
        let head = data.subrange(0, c);
        let rest = data.subrange(c, data.len() as int);
        lemma_chunks_reassemble(rest);
        let s = seq![head] + chunks_of(rest);
        assert(s.first() == head);
        assert(s.drop_first() =~= chunks_of(rest));
        assert(chunks_of(data).flatten() == head + chunks_of(rest).flatten());
        assert(head + rest =~= data);
    }
}

/// A source of exactly `k` whole chunks is cut into exactly `k` of them,
/// so a coordinator that starts one worker per chunk starts exactly `k`.
pub proof fn lemma_chunk_count_exact(k: nat)
    ensures
        chunk_count_of(k * CHUNK_SIZE) == k,
{
    let c = CHUNK_SIZE as int;
    if k == 0 {
        assert(k * CHUNK_SIZE == 0);
    } else {
        assert(k * c >= 1 * c) by (nonlinear_arith)
            requires
                k >= 1,
                c > 0,
        ;
        assert(k * c - 1 == (k - 1) * c + (c - 1)) by (nonlinear_arith);
        lemma_fundamental_div_mod_converse(k * c - 1, c, k - 1, c - 1);
    }
}

/// Number of chunks a source of `size` bytes is cut into.
pub fn chunk_count(size: u64) -> (r: u64)
    ensures
        r as int == chunk_count_of(size as int),
{
    if size == 0 {
        0
    } else {
        (size - 1) / (CHUNK_SIZE as u64) + 1
    }
}

/// Cut `data` into its chunks, in order.
pub fn split_chunks(data: &Vec<u8>) -> (r: Vec<Vec<u8>>)
    ensures
        chunk_models(r@) == chunks_of(data@),
{
    let n = data.len();
    let mut r: Vec<Vec<u8>> = Vec::new();
    let mut offset: usize = 0;
    proof {
        assert(data@.subrange(0, n as int) =~= data@);
        assert(chunk_models(r@) =~= Seq::<Seq<u8>>::empty());
        assert(chunk_models(r@) + chunks_of(data@) =~= chunks_of(data@));
    }
    while offset < n
        invariant
            offset <= n,
            n == data@.len(),
            chunks_of(data@) == chunk_models(r@) + chunks_of(
                data@.subrange(offset as int, n as int),
            ),
        decreases n - offset,
    {
        let take = if n - offset > CHUNK_SIZE {
            CHUNK_SIZE
        } else {
            n - offset
        };
        let chunk = subvec(data, offset, offset + take);
        proof {
            let rest = data@.subrange(offset as int, n as int);
            let rest2 = data@.subrange(offset + take, n as int);
            if rest.len() > CHUNK_SIZE {
                assert(rest.subrange(0, CHUNK_SIZE as int) =~= chunk@);
                assert(rest.subrange(CHUNK_SIZE as int, rest.len() as int) =~= rest2);
                assert(chunks_of(rest) == seq![chunk@] + chunks_of(rest2));
            } else {
                assert(rest =~= chunk@);
                assert(rest2 =~= Seq::<u8>::empty());
                assert(chunks_of(rest) == seq![chunk@]);
                assert(chunks_of(rest2) == Seq::<Seq<u8>>::empty());
            }
            assert(chunk_models(r@.push(chunk)) =~= chunk_models(r@).push(chunk@));
            assert(chunk_models(r@) + chunks_of(rest) =~= chunk_models(r@.push(chunk))
                + chunks_of(rest2));
        }
        r.push(chunk);
        offset = offset + take;
    }
    proof {
        assert(data@.subrange(offset as int, n as int).len() == 0);
        assert(chunks_of(data@.subrange(offset as int, n as int)) == Seq::<Seq<u8>>::empty());
        assert(chunk_models(r@) =~= chunks_of(data@));
    }
    r
}

/// Compress one chunk into its own self-contained frame; on in-memory
/// bytes this always succeeds. Chunks are independent, so workers may run
/// these calls in parallel; the frames must then be assembled in
/// chunk-index order.
pub fn compress_chunk(chunk: &Vec<u8>) -> (r: Result<Vec<u8>, CodecError>)
    ensures
        r is Ok,
        r matches Ok(v) ==> v@ == zstd_frame_of(chunk@),
{
    encode_frame(chunk)
}

/// The assembled output: the frames concatenated in order, closed by the
/// 8-byte little-endian footer holding the original total size.
pub open spec fn frames_with_footer(frames: Seq<Seq<u8>>, size: u64) -> Seq<u8> {
    frames.flatten() + spec_u64_to_le_bytes(size)
}

/// The whole chunked encoding of `data`: one frame per chunk, in chunk
/// order, then the size footer.
pub open spec fn chunked_encoding_of(data: Seq<u8>) -> Seq<u8> {
    frames_with_footer(
        chunks_of(data).map_values(|c: Seq<u8>| zstd_frame_of(c)),
        data.len() as u64,
    )
}

/// Concatenate the compressed frames in index order and append the size
/// footer.
pub fn assemble_chunked(frames: &Vec<Vec<u8>>, size: u64) -> (r: Vec<u8>)
    ensures
        r@ == frames_with_footer(chunk_models(frames@), size),
{
    let mut r: Vec<u8> = Vec::new();
    let mut i: usize = 0;
    proof {
        assert(chunk_models(frames@.subrange(0, 0)) =~= Seq::<Seq<u8>>::empty());
        assert(chunk_models(frames@.subrange(0, 0)).flatten() =~= Seq::<u8>::empty());
    }
    while i < frames.len()
        invariant
            i <= frames@.len(),
            r@ == chunk_models(frames@.subrange(0, i as int)).flatten(),
        decreases frames@.len() - i,
    {
        push_all(&mut r, &frames[i]);
        proof {
            let prefix = chunk_models(frames@.subrange(0, i as int));
            prefix.lemma_flatten_push(frames@[i as int]@);
            assert(chunk_models(frames@.subrange(0, i + 1)) =~= prefix.push(
                frames@[i as int]@,
            ));
        }
        i = i + 1;
    }
    proof {
        assert(frames@.subrange(0, frames@.len() as int) =~= frames@);
    }
    let footer = u64_to_le_bytes(size);
    push_all(&mut r, &footer);
    r
}

/// Read the size footer: the last 8 bytes of a chunked encoding, as a
/// little-endian unsigned 64-bit value. `None` when the input is shorter
/// than a footer.
pub fn read_footer(data: &Vec<u8>) -> (r: Option<u64>)
    ensures
        match r {
            Some(v) => data@.len() >= 8 && v == spec_u64_from_le_bytes(
                data@.subrange(data@.len() - 8, data@.len() as int),
            ),
            None => data@.len() < 8,
        },
{
    let n = data.len();
    if n < 8 {
        return None;
    }
    let tail = subvec(data, n - 8, n);
    Some(u64_from_le_bytes(tail.as_slice()))
}

/// Produce the whole chunked encoding of `data`: cut it into chunks,
/// compress each chunk into its own frame, concatenate the frames in chunk
/// order, and close with the size footer. On in-memory bytes this always
/// succeeds; a codec failure on any chunk would abort the whole attempt.
pub fn chunked_compress(data: &Vec<u8>) -> (r: Result<Vec<u8>, CodecError>)
    ensures
        r is Ok,
        r matches Ok(v) ==> v@ == chunked_encoding_of(data@),
{
    let chunks = split_chunks(data);
    let ghost all_frames = chunks_of(data@).map_values(|c: Seq<u8>| zstd_frame_of(c));
    let mut frames: Vec<Vec<u8>> = Vec::new();
    let mut i: usize = 0;
    proof {
        assert(chunk_models(frames@) =~= all_frames.subrange(0, 0));
    }
    while i < chunks.len()
        invariant
            i <= chunks@.len(),
            chunk_models(chunks@) == chunks_of(data@),
            all_frames == chunks_of(data@).map_values(|c: Seq<u8>| zstd_frame_of(c)),
            chunk_models(frames@) == all_frames.subrange(0, i as int),
        decreases chunks@.len() - i,
    {
        let frame = match compress_chunk(&chunks[i]) {
            Ok(f) => f,
            Err(e) => {
                return Err(e);
            },
        };
        proof {
            assert(frame@ == all_frames[i as int]);
            assert(chunk_models(frames@.push(frame)) =~= chunk_models(frames@).push(frame@));
            assert(chunk_models(frames@).push(frame@) =~= all_frames.subrange(0, i + 1));
        }
        frames.push(frame);
        i = i + 1;
    }
    proof {
        assert(all_frames.subrange(0, all_frames.len() as int) =~= all_frames);
    }
    let size = data.len() as u64;
    let out = assemble_chunked(&frames, size);
    Ok(out)
}

/// The footer law: a chunked encoding is at least 8 bytes long, and its
/// last 8 bytes decode, little-endian, to the original total size.
pub proof fn lemma_chunked_footer(data: Seq<u8>)
    requires
        data.len() <= u64::MAX,
    ensures
        chunked_encoding_of(data).len() >= 8,
        spec_u64_from_le_bytes(
            chunked_encoding_of(data).subrange(
                chunked_encoding_of(data).len() - 8,
                chunked_encoding_of(data).len() as int,
            ),
        ) == data.len(),
{
    lemma_auto_spec_u64_to_from_le_bytes();
    let frames = chunks_of(data).map_values(|c: Seq<u8>| zstd_frame_of(c));
    let fl = frames.flatten();
    let footer = spec_u64_to_le_bytes(data.len() as u64);
    assert(footer.len() == 8);
    let whole = chunked_encoding_of(data);
    assert(whole == fl + footer);
    assert(whole.subrange(whole.len() - 8, whole.len() as int) =~= footer);
    assert(spec_u64_from_le_bytes(spec_u64_to_le_bytes(data.len() as u64)) == data.len()
        as u64);
}

} // verus!
