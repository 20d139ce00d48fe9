use poius::framing::{decode_archive, encode_archive, Entry};
use poius::naming::{decoded_name, encoded_name};
use poius::ops::{
    compress, decompress, CompressOutcome, CompressedInput, DecodeMode, DecompressOutcome,
    Source,
};
use poius::scan::trim_bytes;

#[test]
fn single_file_round_trip() {
    let content = b"The quick brown fox jumps over the lazy dog.".to_vec();
    let source = Source::File {
        name: b"report.txt".to_vec(),
        content: content.clone(),
    };
    let (out_name, data) = match compress(source) {
        CompressOutcome::Written { name, data } => (name, data),
        _ => panic!("compression of a present file must write output"),
    };
    assert_eq!(out_name, b"report.txt.zst".to_vec());
    let input = CompressedInput::Present {
        name: out_name,
        data,
    };
    match decompress(DecodeMode::SingleFile, input) {
        DecompressOutcome::FileWritten {
            name,
            content: restored,
        } => {
            assert_eq!(name, b"report".to_vec());
            assert_eq!(restored, content);
        }
        _ => panic!("decompression of a valid frame must write the file"),
    }
}

#[test]
fn naming_appends_and_strips_lossily() {
    assert_eq!(
        encoded_name(&b"report.txt".to_vec()),
        b"report.txt.zst".to_vec()
    );
    assert_eq!(decoded_name(&b"report.txt.zst".to_vec()), b"report".to_vec());
    assert_eq!(decoded_name(&b"report.zst".to_vec()), b"report".to_vec());
    assert_eq!(decoded_name(&b"nodots".to_vec()), b"nodots".to_vec());
    assert_eq!(encoded_name(&b"".to_vec()), b".zst".to_vec());
}

#[test]
fn directory_single_entry_round_trips() {
    let entry_path = b"notes.txt".to_vec();
    let entry_content = b"first line\nsecond line\n".to_vec();
    let source = Source::Directory {
        name: b"docs".to_vec(),
        entries: vec![Entry {
            path: entry_path.clone(),
            content: entry_content.clone(),
        }],
    };
    let (out_name, data) = match compress(source) {
        CompressOutcome::Written { name, data } => (name, data),
        _ => panic!("compression of a present directory must write output"),
    };
    assert_eq!(out_name, b"docs.zst".to_vec());
    let input = CompressedInput::Present {
        name: out_name,
        data,
    };
    match decompress(DecodeMode::DirectoryArchive, input) {
        DecompressOutcome::DirectoryWritten { name, entries } => {
            assert_eq!(name, b"docs".to_vec());
            assert_eq!(entries.len(), 1);
            assert_eq!(entries[0].path, entry_path);
            assert_eq!(entries[0].content, entry_content);
        }
        _ => panic!("decompression of a valid archive must write the directory"),
    }
}

#[test]
fn directory_two_entries_corrupts_boundaries() {
    let source = Source::Directory {
        name: b"docs".to_vec(),
        entries: vec![
            Entry {
                path: b"a.txt".to_vec(),
                content: b"AAA".to_vec(),
            },
            Entry {
                path: b"b.txt".to_vec(),
                content: b"BBB".to_vec(),
            },
        ],
    };
    let (out_name, data) = match compress(source) {
        CompressOutcome::Written { name, data } => (name, data),
        _ => panic!("compression of a present directory must write output"),
    };
    let input = CompressedInput::Present {
        name: out_name,
        data,
    };
    match decompress(DecodeMode::DirectoryArchive, input) {
        DecompressOutcome::DirectoryWritten { name: _, entries } => {
            // The reader has no per-entry content bound: the first entry's
            // contents swallow the whole rest of the stream and the second
            // entry is lost.
            assert_eq!(entries.len(), 1);
            assert_eq!(entries[0].path, b"a.txt".to_vec());
            let mut swallowed = b"AAA".to_vec();
            swallowed.extend_from_slice(b"b.txt");
            swallowed.push(0u8);
            swallowed.extend_from_slice(b"BBB");
            assert_eq!(entries[0].content, swallowed);
        }
        _ => panic!("decompression of a valid archive must write the directory"),
    }
}

#[test]
fn directory_many_entries_first_swallows_all() {
    let source = Source::Directory {
        name: b"docs".to_vec(),
        entries: vec![
            Entry {
                path: b"a.txt".to_vec(),
                content: b"AAA".to_vec(),
            },
            Entry {
                path: b"b.txt".to_vec(),
                content: b"BBB".to_vec(),
            },
            Entry {
                path: b"c.txt".to_vec(),
                content: b"CCC".to_vec(),
            },
        ],
    };
    let (out_name, data) = match compress(source) {
        CompressOutcome::Written { name, data } => (name, data),
        _ => panic!("compression of a present directory must write output"),
    };
    let input = CompressedInput::Present {
        name: out_name,
        data,
    };
    match decompress(DecodeMode::DirectoryArchive, input) {
        DecompressOutcome::DirectoryWritten { name: _, entries } => {
            // However many entries the archive held, the first one's
            // contents swallow the whole rest of the stream.
            assert_eq!(entries.len(), 1);
            assert_eq!(entries[0].path, b"a.txt".to_vec());
            let mut swallowed = b"AAA".to_vec();
            swallowed.extend_from_slice(b"b.txt");
            swallowed.push(0u8);
            swallowed.extend_from_slice(b"BBB");
            swallowed.extend_from_slice(b"c.txt");
            swallowed.push(0u8);
            swallowed.extend_from_slice(b"CCC");
            assert_eq!(entries[0].content, swallowed);
        }
        _ => panic!("decompression of a valid archive must write the directory"),
    }
}

#[test]
fn archive_stream_layout_is_path_terminator_content() {
    let entries = vec![Entry {
        path: b"a".to_vec(),
        content: b"xy".to_vec(),
    }];
    let stream = encode_archive(&entries);
    assert_eq!(stream, vec![b'a', 0u8, b'x', b'y']);
}

#[test]
fn decode_archive_stops_on_empty_or_whitespace_path() {
    assert_eq!(decode_archive(&Vec::new()).len(), 0);
    assert_eq!(decode_archive(&b"  \t\x00content".to_vec()).len(), 0);
    assert_eq!(decode_archive(&b"   ".to_vec()).len(), 0);
}

#[test]
fn decode_archive_trims_path_and_takes_rest() {
    let entries = decode_archive(&b" a.txt \x00hello".to_vec());
    assert_eq!(entries.len(), 1);
    assert_eq!(entries[0].path, b"a.txt".to_vec());
    assert_eq!(entries[0].content, b"hello".to_vec());
}

#[test]
fn decode_archive_without_terminator_reads_path_only() {
    let entries = decode_archive(&b"lonely.txt".to_vec());
    assert_eq!(entries.len(), 1);
    assert_eq!(entries[0].path, b"lonely.txt".to_vec());
    assert_eq!(entries[0].content, Vec::<u8>::new());
}

#[test]
fn trim_removes_ascii_whitespace_both_ends() {
    assert_eq!(trim_bytes(&b"  a.txt \n".to_vec()), b"a.txt".to_vec());
    assert_eq!(trim_bytes(&b"plain".to_vec()), b"plain".to_vec());
    assert_eq!(trim_bytes(&b" \t\r\n".to_vec()), Vec::<u8>::new());
    assert_eq!(trim_bytes(&Vec::new()), Vec::<u8>::new());
}

#[test]
fn missing_source_is_reported_not_fatal() {
    match compress(Source::Missing) {
        CompressOutcome::NotFound => {}
        _ => panic!("a missing source must be reported as not found"),
    }
    match decompress(DecodeMode::SingleFile, CompressedInput::Missing) {
        DecompressOutcome::NotFound => {}
        _ => panic!("a missing input must be reported as not found"),
    }
    match decompress(DecodeMode::DirectoryArchive, CompressedInput::Missing) {
        DecompressOutcome::NotFound => {}
        _ => panic!("a missing input must be reported as not found"),
    }
}

#[test]
fn corrupt_input_fails_decompression() {
    let input = CompressedInput::Present {
        name: b"junk.zst".to_vec(),
        data: b"this is not a compressed frame".to_vec(),
    };
    match decompress(DecodeMode::SingleFile, input) {
        DecompressOutcome::Failed { error } => {
            assert!(!error.message.is_empty());
        }
        _ => panic!("garbage input must fail decompression"),
    }
}

#[test]
fn empty_file_round_trips() {
    let source = Source::File {
        name: b"empty".to_vec(),
        content: Vec::new(),
    };
    let (out_name, data) = match compress(source) {
        CompressOutcome::Written { name, data } => (name, data),
        _ => panic!("compression of an empty file must write output"),
    };
    let input = CompressedInput::Present {
        name: out_name,
        data,
    };
    match decompress(DecodeMode::SingleFile, input) {
        DecompressOutcome::FileWritten { name: _, content } => {
            assert_eq!(content, Vec::<u8>::new());
        }
        _ => panic!("decompression of a valid frame must write the file"),
    }
}
