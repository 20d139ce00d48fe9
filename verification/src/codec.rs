//! The compression codec, treated as an external collaborator: raw bytes go
//! in, a self-contained compressed frame comes out, and decompressing that
//! frame restores the original bytes.

use vstd::prelude::*;

verus! {

/// An error reported by the compression codec while producing or reading a
/// compressed frame.
#[derive(Debug)]
pub struct CodecError {
    pub message: String,
}

/// The compressed frame the codec produces for the given contents, at the
/// default compression level. The codec is deterministic: fixed contents
/// always yield the same frame.
pub uninterp spec fn zstd_frame_of(data: Seq<u8>) -> Seq<u8>;

/// `out` is a correct decompression of `data`: whenever `data` is the frame
/// the codec produces for some contents, `out` is exactly those contents.
pub open spec fn decompression_of(data: Seq<u8>, out: Seq<u8>) -> bool {
    forall|d: Seq<u8>| data == zstd_frame_of(d) ==> out == d
}

/// Relies on `zstd::stream::encode_all` at level 0 (the codec's default):
/// it compresses the whole input into one frame, and its output is a
/// function of the input bytes and the level alone. On an in-memory source
/// and sink the call always succeeds — the only failure path is context
/// allocation failure, which is out of scope here as everywhere in the
/// crate — so the result is always `Ok`.
#[verifier::external_body]
pub(crate) fn encode_frame(data: &Vec<u8>) -> (r: Result<Vec<u8>, CodecError>)
    ensures
        r is Ok,
        r matches Ok(v) ==> v@ == zstd_frame_of(data@),
{
    match zstd::stream::encode_all(data.as_slice(), 0) {
        Ok(v) => Ok(v),
        Err(e) => Err(CodecError { message: e.to_string() }),
    }
}

/// Relies on `zstd::stream::decode_all`: decompressing a frame yields
/// exactly the bytes that the frame was produced from, and decoding a
/// frame that the encoder produced succeeds (such a frame is complete and
/// well-formed, and its window stays far under the decoder's default
/// limit). On other inputs the call may fail, and says nothing of what an
/// `Ok` would hold.
#[verifier::external_body]
pub(crate) fn decode_frame(data: &Vec<u8>) -> (r: Result<Vec<u8>, CodecError>)
    ensures
        r matches Ok(v) ==> decompression_of(data@, v@),
        (exists|d: Seq<u8>| data@ == zstd_frame_of(d)) ==> r is Ok,
{
    match zstd::stream::decode_all(data.as_slice()) {
        Ok(v) => Ok(v),
        Err(e) => Err(CodecError { message: e.to_string() }),
    }
}

/// Round trip through the codec: any correct decompression of the frame
/// produced for some contents is exactly those contents.
pub proof fn lemma_frame_round_trip(content: Seq<u8>, restored: Seq<u8>)
    requires
        decompression_of(zstd_frame_of(content), restored),
    ensures
        restored == content,
{
}

} // verus!
