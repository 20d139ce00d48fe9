//! The two operations the caller layer dispatches into: pack a source into
//! one compressed output, and unpack a compressed input. The caller layer
//! supplies plain values (names, contents, directory listings) and writes
//! the returned values out; a missing source is reported as an outcome of
//! its own, never as a failure, so the caller can print a message and still
//! finish cleanly.

use vstd::prelude::*;
use crate::codec::{CodecError, zstd_frame_of, decompression_of, encode_frame, decode_frame};
use crate::framing::{Entry, entry_models, archive_bytes, decoded_entries, encode_archive,
    decode_archive};
use crate::naming::{encoded_name_of, decoded_name_of, encoded_name, decoded_name};

verus! {

/// What the caller found at the source path: nothing, one regular file, or
/// a directory listed one level deep (its regular files only, in
/// enumeration order, with paths relative to the root).
pub enum Source {
    Missing,
    File { name: Vec<u8>, content: Vec<u8> },
    Directory { name: Vec<u8>, entries: Vec<Entry> },
}

/// The result of a compression operation. `NotFound` reports a missing
/// source: the operation still counts as handled, nothing is written, and
/// the caller exits cleanly after printing a message. `Failed` carries a
/// codec error, which is fatal for the one operation.
pub enum CompressOutcome {
    NotFound,
    Written { name: Vec<u8>, data: Vec<u8> },
    Failed { error: CodecError },
}

/// What the caller found at the compressed input path.
pub enum CompressedInput {
    Missing,
    Present { name: Vec<u8>, data: Vec<u8> },
}

/// How a compressed input is to be unpacked. The stream carries no marker
/// of its own, so the caller must say whether it was a single file or a
/// directory archive.
pub enum DecodeMode {
    SingleFile,
    DirectoryArchive,
}

/// The result of a decompression operation; the cases mirror
/// `CompressOutcome`.
pub enum DecompressOutcome {
    NotFound,
    FileWritten { name: Vec<u8>, content: Vec<u8> },
    DirectoryWritten { name: Vec<u8>, entries: Vec<Entry> },
    Failed { error: CodecError },
}

/// Pack a source into one compressed output file.
///
/// A single file is compressed as it stands, one frame of its raw bytes. A
/// directory becomes the archive stream of its entries, compressed into one
/// frame. Either way the output file's name is the source name with the
/// compressed extension appended. A missing source yields `NotFound` and
/// nothing else; every present source yields written output, since the
/// codec cannot fail on in-memory bytes.
pub fn compress(source: Source) -> (r: CompressOutcome)
    ensures
        r is NotFound <==> source is Missing,
        !(source is Missing) ==> r is Written,
        (source matches Source::File { name, content } ==> (r matches
            CompressOutcome::Written { name: out_name, data } ==> out_name@
            == encoded_name_of(name@) && data@ == zstd_frame_of(content@))),
        (source matches Source::Directory { name, entries } ==> (r matches
            CompressOutcome::Written { name: out_name, data } ==> out_name@
            == encoded_name_of(name@) && data@ == zstd_frame_of(archive_bytes(entries@)))),
{
    match source {
        Source::Missing => CompressOutcome::NotFound,
        Source::File { name, content } => {
            let out_name = encoded_name(&name);
            match encode_frame(&content) {
                Ok(data) => CompressOutcome::Written { name: out_name, data },
                Err(error) => CompressOutcome::Failed { error },
            }
        },
        Source::Directory { name, entries } => {
            let out_name = encoded_name(&name);
            let stream = encode_archive(&entries);
            match encode_frame(&stream) {
                Ok(data) => CompressOutcome::Written { name: out_name, data },
                Err(error) => CompressOutcome::Failed { error },
            }
        },
    }
}

/// Unpack a compressed input.
///
/// The whole input is decompressed in one pass. In single-file mode the
/// decompressed bytes are the one output file's contents; in
/// directory-archive mode they are read back as an archive stream. The
/// output name is the input name stripped at its first dot. A missing input
/// yields `NotFound`; a codec error on malformed data yields `Failed`, but
/// on any frame this system's encoder produced, decompression succeeds.
pub fn decompress(mode: DecodeMode, input: CompressedInput) -> (r: DecompressOutcome)
    ensures
        r is NotFound <==> input is Missing,
        (input matches CompressedInput::Present { name, data } ==> {
            &&& (mode is SingleFile ==> (r is FileWritten || r is Failed))
            &&& (mode is DirectoryArchive ==> (r is DirectoryWritten || r is Failed))
            &&& ((exists|d: Seq<u8>| data@ == zstd_frame_of(d)) ==> !(r is Failed))
            &&& (r matches DecompressOutcome::FileWritten { name: out_name, content } ==> {
                &&& out_name@ == decoded_name_of(name@)
                &&& decompression_of(data@, content@)
            })
            &&& (r matches DecompressOutcome::DirectoryWritten { name: out_name, entries } ==> {
                &&& out_name@ == decoded_name_of(name@)
                &&& exists|dec: Seq<u8>|
                    #[trigger] decompression_of(data@, dec) && entry_models(entries@)
                        == decoded_entries(dec)
            })
        }),
{
    match input {
        CompressedInput::Missing => DecompressOutcome::NotFound,
        CompressedInput::Present { name, data } => {
            let out_name = decoded_name(&name);
            match decode_frame(&data) {
                Err(error) => DecompressOutcome::Failed { error },
                Ok(dec) => match mode {
                    DecodeMode::SingleFile => DecompressOutcome::FileWritten {
                        name: out_name,
                        content: dec,
                    },
                    DecodeMode::DirectoryArchive => {
                        let entries = decode_archive(&dec);
                        proof {
                            assert(decompression_of(data@, dec@) && entry_models(entries@)
                                == decoded_entries(dec@));
                        }
                        DecompressOutcome::DirectoryWritten { name: out_name, entries }
                    },
                },
            }
        },
    }
}

/// End-to-end round trip for a directory archive of exactly one entry:
/// decompressing the frame that `compress` produced for it and reading the
/// archive stream back yields that entry. (Archives of two or more entries
/// do not round-trip; see `lemma_two_entries_corrupt`.)
pub proof fn lemma_directory_single_round_trip(e: Entry, restored: Seq<u8>)
    requires
        decompression_of(zstd_frame_of(archive_bytes(seq![e])), restored),
        crate::framing::path_unambiguous(e),
        crate::scan::trim(e.path@) == e.path@,
        e.path@.len() > 0,
    ensures
        decoded_entries(restored) == seq![crate::framing::entry_model(e)],
{
    crate::codec::lemma_frame_round_trip(archive_bytes(seq![e]), restored);
    crate::framing::lemma_single_entry_round_trip(e);
}

} // verus!
