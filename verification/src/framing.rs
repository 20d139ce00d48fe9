//! The archive framer: multiplexes a directory's relative file paths and
//! contents into one linear byte stream, and reads such a stream back.
//!
//! The write side puts, for each entry, the path bytes, one `0x00`
//! terminator, and the raw contents, with no stored content length. The
//! read side finds the first terminator, trims the bytes before it and
//! takes them as the path, and then takes the *entire rest of the stream*
//! as that entry's contents. That boundary rule is exact for an archive of
//! one entry and corrupts every later entry of a larger archive; both
//! behaviours are stated and proved below.

use vstd::prelude::*;
use crate::scan::{occurs, first_at, find_first, subvec, trim, trim_bytes,
    lemma_first_at_unique};

verus! {

/// One archived file: its path relative to the archive root, and its raw
/// contents. The path must not contain the terminator byte `0x00`; this is
/// never validated, and a violating path produces ambiguous framing.
pub struct Entry {
    pub path: Vec<u8>,
    pub content: Vec<u8>,
}

/// The mathematical model of one entry: its path bytes and content bytes.
pub open spec fn entry_model(e: Entry) -> (Seq<u8>, Seq<u8>) {
    (e.path@, e.content@)
}

/// The models of a sequence of entries.
pub open spec fn entry_models(es: Seq<Entry>) -> Seq<(Seq<u8>, Seq<u8>)> {
    es.map_values(|e: Entry| entry_model(e))
}

/// The entry's path contains no terminator byte, so its framing is
/// unambiguous.
pub open spec fn path_unambiguous(e: Entry) -> bool {
    forall|i: int| 0 <= i < e.path@.len() ==> e.path@[i] != 0u8
}

/// The bytes one entry contributes to the archive stream: path bytes, one
/// terminator, then the raw contents.
pub open spec fn entry_bytes(e: Entry) -> Seq<u8> {
    e.path@ + seq![0u8] + e.content@
}

/// The archive stream for a sequence of entries: their framings
/// concatenated in order, with nothing between them.
pub open spec fn archive_bytes(entries: Seq<Entry>) -> Seq<u8>
    decreases entries.len(),
{
    if entries.len() == 0 {
        Seq::empty()
    } else {
        entry_bytes(entries[0]) + archive_bytes(entries.drop_first())
    }
}

/// Appending one entry appends its framing to the stream.
pub proof fn lemma_archive_bytes_push(entries: Seq<Entry>, e: Entry)
    ensures
        archive_bytes(entries.push(e)) == archive_bytes(entries) + entry_bytes(e),
    decreases entries.len(),
{
    if entries.len() == 0 {
        assert(entries.push(e)[0] == e);
        assert(entries.push(e).drop_first() =~= Seq::<Entry>::empty());
        assert(archive_bytes(entries.push(e)) == entry_bytes(e) + archive_bytes(
            Seq::<Entry>::empty(),
        ));
        assert(archive_bytes(Seq::<Entry>::empty()) == Seq::<u8>::empty());
        assert(entry_bytes(e) + Seq::<u8>::empty() =~= entry_bytes(e));
        assert(archive_bytes(entries) + entry_bytes(e) =~= entry_bytes(e));
    } else {
        lemma_archive_bytes_push(entries.drop_first(), e);
        assert(entries.push(e).drop_first() =~= entries.drop_first().push(e));
        assert(archive_bytes(entries.push(e)) =~= archive_bytes(entries) + entry_bytes(e));
    }
}

/// Serialize the entries into one archive stream.
pub fn encode_archive(entries: &Vec<Entry>) -> (r: Vec<u8>)
    ensures
        r@ == archive_bytes(entries@),
{
    let mut r: Vec<u8> = Vec::new();
    let mut i: usize = 0;
    proof {
        assert(entries@.subrange(0, 0) =~= Seq::<Entry>::empty());
    }
    while i < entries.len()
        invariant
            i <= entries@.len(),
            r@ == archive_bytes(entries@.subrange(0, i as int)),
        decreases entries@.len() - i,
    {
        let entry = &entries[i];
        crate::scan::push_all(&mut r, &entry.path);
        r.push(0u8);
        crate::scan::push_all(&mut r, &entry.content);
        proof {
            lemma_archive_bytes_push(entries@.subrange(0, i as int), entries@[i as int]);
            assert(entries@.subrange(0, i + 1) =~= entries@.subrange(0, i as int).push(
                entries@[i as int],
            ));
            assert(r@ =~= archive_bytes(entries@.subrange(0, i + 1)));
        }
        i = i + 1;
    }
    proof {
        assert(entries@.subrange(0, entries@.len() as int) =~= entries@);
    }
    r
}

/// What reading an archive stream yields. The reader consumes bytes up to
/// the first terminator (or the whole stream if there is none), trims them,
/// and stops if nothing is left; otherwise the trimmed bytes are the one
/// path and the entire remainder of the stream is that entry's contents,
/// after which the stream is exhausted. At most one entry ever comes back.
pub open spec fn decoded_entries(s: Seq<u8>) -> Seq<(Seq<u8>, Seq<u8>)> {
    let path_part = if occurs(s, 0u8) {
        s.subrange(0, first_at(s, 0u8))
    } else {
        s
    };
    let rest = if occurs(s, 0u8) {
        s.subrange(first_at(s, 0u8) + 1, s.len() as int)
    } else {
        Seq::<u8>::empty()
    };
    let p = trim(path_part);
    if p.len() == 0 {
        Seq::empty()
    } else {
        seq![(p, rest)]
    }
}

/// Read an archive stream back into entries, with the reader's actual
/// boundary rule: one trimmed path before the first terminator, then the
/// whole remainder as that entry's contents.
pub fn decode_archive(data: &Vec<u8>) -> (r: Vec<Entry>)
    ensures
        entry_models(r@) == decoded_entries(data@),
{
    let n = data.len();
    let (path_part, rest): (Vec<u8>, Vec<u8>) = match find_first(data, 0u8) {
        Some(i) => {
            proof {
                lemma_first_at_unique(data@, 0u8, i as int);
            }
            (subvec(data, 0, i), subvec(data, i + 1, n))
        },
        None => {
            let all = subvec(data, 0, data.len());
            proof {
                assert(data@.subrange(0, data@.len() as int) =~= data@);
            }
            (all, Vec::new())
        },
    };
    let p = trim_bytes(&path_part);
    if p.len() == 0 {
        let r: Vec<Entry> = Vec::new();
        proof {
            assert(entry_models(r@) =~= decoded_entries(data@));
        }
        r
    } else {
        let mut r: Vec<Entry> = Vec::new();
        r.push(Entry { path: p, content: rest });
        proof {
            assert(entry_models(r@) =~= decoded_entries(data@));
        }
        r
    }
}

/// The reader's boundary rule, for any archive of one or more entries: the
/// first entry's path comes back, and its contents swallow everything the
/// remaining entries contributed to the stream. Only the first entry's path
/// needs to be well-behaved — free of terminator bytes, trim-stable and
/// nonempty — for the first terminator found to be its own.
pub proof fn lemma_first_entry_swallows_rest(es: Seq<Entry>)
    requires
        es.len() >= 1,
        path_unambiguous(es[0]),
        trim(es[0].path@) == es[0].path@,
        es[0].path@.len() > 0,
    ensures
        decoded_entries(archive_bytes(es)) == seq![
            (es[0].path@, es[0].content@ + archive_bytes(es.drop_first())),
        ],
{
    let e = es[0];
    let tail = archive_bytes(es.drop_first());
    let s = archive_bytes(es);
    assert(s == entry_bytes(e) + tail);
    assert(s =~= e.path@ + seq![0u8] + (e.content@ + tail));
    let n = e.path@.len() as int;
    assert(s[n] == 0u8);
    lemma_first_at_unique(s, 0u8, n);
    assert(s.subrange(0, n) =~= e.path@);
    assert(s.subrange(n + 1, s.len() as int) =~= e.content@ + tail);
}

/// An archive of exactly one entry round-trips: reading the stream written
/// for a single entry gives that entry back, provided its path is free of
/// terminator bytes, carries no surrounding whitespace, and is nonempty.
pub proof fn lemma_single_entry_round_trip(e: Entry)
    requires
        path_unambiguous(e),
        trim(e.path@) == e.path@,
        e.path@.len() > 0,
    ensures
        decoded_entries(archive_bytes(seq![e])) == seq![entry_model(e)],
{
    assert(seq![e][0] == e);
    lemma_first_entry_swallows_rest(seq![e]);
    assert(seq![e].drop_first() =~= Seq::<Entry>::empty());
    assert(archive_bytes(Seq::<Entry>::empty()) == Seq::<u8>::empty());
    assert(e.content@ + Seq::<u8>::empty() =~= e.content@);
}

/// An archive of two entries is corrupted on reading: the first entry's
/// path comes back, but its contents swallow the rest of the stream — the
/// first entry's contents, the second path, its terminator, and the second
/// contents — and the second entry is lost entirely.
pub proof fn lemma_two_entries_corrupt(e1: Entry, e2: Entry)
    requires
        path_unambiguous(e1),
        trim(e1.path@) == e1.path@,
        e1.path@.len() > 0,
    ensures
        decoded_entries(archive_bytes(seq![e1, e2])) == seq![
            (e1.path@, e1.content@ + e2.path@ + seq![0u8] + e2.content@),
        ],
{
    assert(seq![e1, e2][0] == e1);
    lemma_first_entry_swallows_rest(seq![e1, e2]);
    assert(seq![e1, e2].drop_first() =~= seq![e2]);
    assert(seq![e2][0] == e2);
    assert(seq![e2].drop_first() =~= Seq::<Entry>::empty());
    assert(archive_bytes(seq![e2]) == entry_bytes(e2) + archive_bytes(Seq::<Entry>::empty()));
    assert(archive_bytes(Seq::<Entry>::empty()) == Seq::<u8>::empty());
    assert(e1.content@ + archive_bytes(seq![e2]) =~= e1.content@ + e2.path@ + seq![0u8]
        + e2.content@);
}

} // verus!
