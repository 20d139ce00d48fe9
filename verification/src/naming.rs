//! Output-name conventions: compressing appends the compressed-file
//! extension to the source name, and decompressing strips everything from
//! the first dot onward. The scheme is deliberately lossy: stripping removes
//! the whole extension chain, not just the compression suffix.

use vstd::prelude::*;
use crate::scan::{is_first_at, occurs, first_at, find_first, subvec, lemma_first_at_unique,
    lemma_occurs_witness};

verus! {

/// The dot byte `.` that separates a name's stem from its extensions.
pub const DOT: u8 = 0x2e;

/// The name a compressed output file gets: the source name with `.zst`
/// appended.
pub open spec fn encoded_name_of(name: Seq<u8>) -> Seq<u8> {
    name + seq![DOT, 0x7au8, 0x73u8, 0x74u8]
}

/// The name a decompressed output gets: the compressed file's name cut at
/// its first dot (unchanged when it has no dot).
pub open spec fn decoded_name_of(name: Seq<u8>) -> Seq<u8> {
    if occurs(name, DOT) {
        name.subrange(0, first_at(name, DOT))
    } else {
        name
    }
}

/// Append the compressed-file extension to a source name.
pub fn encoded_name(name: &Vec<u8>) -> (r: Vec<u8>)
    ensures
        r@ == encoded_name_of(name@),
{
    let mut r = subvec(name, 0, name.len());
    r.push(0x2e);
    r.push(0x7a);
    r.push(0x73);
    r.push(0x74);
    proof {
        assert(name@.subrange(0, name@.len() as int) =~= name@);
        assert(r@ =~= encoded_name_of(name@));
    }
    r
}

/// Strip a compressed file's name down to its stem: everything from the
/// first dot onward is removed.
pub fn decoded_name(name: &Vec<u8>) -> (r: Vec<u8>)
    ensures
        r@ == decoded_name_of(name@),
{
    match find_first(name, DOT) {
        Some(i) => {
            proof {
                lemma_first_at_unique(name@, DOT, i as int);
            }
            subvec(name, 0, i)
        },
        None => {
            let r = subvec(name, 0, name.len());
            proof {
                assert(name@.subrange(0, name@.len() as int) =~= name@);
            }
            r
        },
    }
}

/// The naming scheme is lossy but stable: decoding the name that encoding
/// produces gives the same stem as decoding the original name directly, so
/// a second encode/decode cycle can never recover a stripped extension.
pub proof fn lemma_naming_lossy(name: Seq<u8>)
    ensures
        decoded_name_of(encoded_name_of(name)) == decoded_name_of(name),
{
    let e = encoded_name_of(name);
    if occurs(name, DOT) {
        let i = first_at(name, DOT);
        assert(is_first_at(name, DOT, i));
        assert(forall|j: int| 0 <= j < i ==> e[j] != DOT);
        assert(e[i] == DOT);
        lemma_first_at_unique(e, DOT, i);
        assert(e.subrange(0, i) =~= name.subrange(0, i));
    } else {
        let i = name.len() as int;
        assert(e[i] == DOT);
        assert forall|j: int| 0 <= j < i implies e[j] != DOT by {
            if name[j] == DOT {
                lemma_occurs_witness(name, DOT, j);
            }
        }
        lemma_first_at_unique(e, DOT, i);
        assert(e.subrange(0, i) =~= name);
    }
}

} // verus!
