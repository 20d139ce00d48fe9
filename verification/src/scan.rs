//! Byte-sequence scanning helpers shared by the naming scheme and the
//! archive framer: first occurrence of a byte, prefix/suffix extraction,
//! and ASCII whitespace trimming.

use vstd::prelude::*;

verus! {

/// `i` is the position of the first occurrence of `b` in `s`.
pub open spec fn is_first_at(s: Seq<u8>, b: u8, i: int) -> bool {
    &&& 0 <= i < s.len()
    &&& s[i] == b
    &&& forall|j: int| 0 <= j < i ==> s[j] != b
}

/// `b` occurs somewhere in `s`.
pub open spec fn occurs(s: Seq<u8>, b: u8) -> bool {
    exists|i: int| is_first_at(s, b, i)
}

/// The position of the first occurrence of `b` in `s` (meaningful only
/// when `occurs(s, b)` holds).
pub open spec fn first_at(s: Seq<u8>, b: u8) -> int {
    choose|i: int| is_first_at(s, b, i)
}

/// The first occurrence is unique, so `first_at` is pinned down by any
/// witness position.
pub proof fn lemma_first_at_unique(s: Seq<u8>, b: u8, i: int)
    requires
        is_first_at(s, b, i),
    ensures
        occurs(s, b),
        first_at(s, b) == i,
{
    assert(occurs(s, b));
    let c = first_at(s, b);
    assert(is_first_at(s, b, c));
    if c < i {
        assert(s[c] == b);
    } else if i < c {
        assert(s[i] == b);
    }
}

/// Any occurrence of `b` in `s` means a first occurrence exists.
pub proof fn lemma_occurs_witness(s: Seq<u8>, b: u8, j: int)
    requires
        0 <= j < s.len(),
        s[j] == b,
    ensures
        occurs(s, b),
    decreases j,
{
    if forall|k: int| 0 <= k < j ==> s[k] != b {
        assert(is_first_at(s, b, j));
    } else {
        let k = choose|k: int| 0 <= k < j && s[k] == b;
        lemma_occurs_witness(s, b, k);
    }
}

/// Find the first occurrence of `b` in `v`, scanning from the front.
pub fn find_first(v: &Vec<u8>, b: u8) -> (r: Option<usize>)
    ensures
        match r {
            Some(i) => is_first_at(v@, b, i as int),
            None => !occurs(v@, b),
        },
{
    let mut i: usize = 0;
    while i < v.len()
        invariant
            i <= v@.len(),
            forall|j: int| 0 <= j < i ==> v@[j] != b,
        decreases v@.len() - i,
    {
        if v[i] == b {
            return Some(i);
        }
        i = i + 1;
    }
    None
}

/// Copy of `v[from..to]` as a fresh vector.
pub fn subvec(v: &Vec<u8>, from: usize, to: usize) -> (r: Vec<u8>)
    requires
        from <= to <= v@.len(),
    ensures
        r@ == v@.subrange(from as int, to as int),
{
    let mut r: Vec<u8> = Vec::new();
    let mut i: usize = from;
    while i < to
        invariant
            from <= i <= to <= v@.len(),
            r@ == v@.subrange(from as int, i as int),
        decreases to - i,
    {
        r.push(v[i]);
        i = i + 1;
        proof {
            assert(r@ =~= v@.subrange(from as int, i as int));
        }
    }
    r
}

/// Append all of `src` onto the end of `dst`.
pub fn push_all(dst: &mut Vec<u8>, src: &Vec<u8>)
    ensures
        final(dst)@ == old(dst)@ + src@,
{
    let mut i: usize = 0;
    while i < src.len()
        invariant
            i <= src@.len(),
            dst@ == old(dst)@ + src@.subrange(0, i as int),
        decreases src@.len() - i,
    {
        dst.push(src[i]);
        i = i + 1;
        proof {
            assert(old(dst)@ + src@.subrange(0, i as int) =~= (old(dst)@
                + src@.subrange(0, i - 1)).push(src@[i - 1]));
        }
    }
    proof {
        assert(src@.subrange(0, src@.len() as int) =~= src@);
    }
}

/// The byte is ASCII whitespace (the characters a text trim removes).
pub open spec fn is_space(b: u8) -> bool {
    b == 0x20 || (0x09 <= b && b <= 0x0d)
}

/// `s` with leading ASCII whitespace removed.
pub open spec fn trim_front(s: Seq<u8>) -> Seq<u8>
    decreases s.len(),
{
    if s.len() > 0 && is_space(s[0]) {
        trim_front(s.drop_first())
    } else {
        s
    }
}

/// `s` with trailing ASCII whitespace removed.
pub open spec fn trim_back(s: Seq<u8>) -> Seq<u8>
    decreases s.len(),
{
    if s.len() > 0 && is_space(s.last()) {
        trim_back(s.drop_last())
    } else {
        s
    }
}

/// `s` with ASCII whitespace removed from both ends.
pub open spec fn trim(s: Seq<u8>) -> Seq<u8> {
    trim_back(trim_front(s))
}

/// Dropping a leading space byte by byte agrees with `trim_front`.
proof fn lemma_trim_front_step(s: Seq<u8>, i: int)
    requires
        0 <= i <= s.len(),
        forall|j: int| 0 <= j < i ==> is_space(s[j]),
    ensures
        trim_front(s) == trim_front(s.subrange(i, s.len() as int)),
    decreases i,
{
    if i > 0 {
        lemma_trim_front_step(s, i - 1);
        let t = s.subrange(i - 1, s.len() as int);
        assert(is_space(t[0]));
        assert(t.drop_first() =~= s.subrange(i, s.len() as int));
    } else {
        assert(s.subrange(0, s.len() as int) =~= s);
    }
}

/// Dropping a trailing space byte by byte agrees with `trim_back`.
proof fn lemma_trim_back_step(s: Seq<u8>, i: int)
    requires
        0 <= i <= s.len(),
        forall|j: int| i <= j < s.len() ==> is_space(s[j]),
    ensures
        trim_back(s) == trim_back(s.subrange(0, i)),
    decreases s.len() - i,
{
    if i < s.len() {
        lemma_trim_back_step(s, i + 1);
        let t = s.subrange(0, i + 1);
        assert(is_space(t.last()));
        assert(t.drop_last() =~= s.subrange(0, i));
    } else {
        assert(s.subrange(0, s.len() as int) =~= s);
    }
}

/// `v` cut down to the bytes between its first and last non-whitespace
/// positions.
pub fn trim_bytes(v: &Vec<u8>) -> (r: Vec<u8>)
    ensures
        r@ == trim(v@),
{
    let mut start: usize = 0;
    while start < v.len() && is_space_byte(v[start])
        invariant
            start <= v@.len(),
            forall|j: int| 0 <= j < start ==> is_space(v@[j]),
        decreases v@.len() - start,
    {
        start = start + 1;
    }
    proof {
        lemma_trim_front_step(v@, start as int);
    }
    if start == v.len() {
        let r: Vec<u8> = Vec::new();
        proof {
            assert(v@.subrange(v@.len() as int, v@.len() as int) =~= Seq::<u8>::empty());
            assert(trim_back(Seq::<u8>::empty()) =~= Seq::<u8>::empty());
        }
        return r;
    }
    let mut end: usize = v.len();
    while start < end && is_space_byte(v[end - 1])
        invariant
            start <= end <= v@.len(),
            forall|j: int| end <= j < v@.len() ==> is_space(v@[j]),
            trim_front(v@) == v@.subrange(start as int, v@.len() as int),
            !is_space(v@[start as int]),
        decreases end,
    {
        end = end - 1;
    }
    proof {
        let f = v@.subrange(start as int, v@.len() as int);
        assert(forall|j: int| end - start <= j < f.len() ==> is_space(f[j]));
        lemma_trim_back_step(f, end - start);
        assert(f.subrange(0, end - start) =~= v@.subrange(start as int, end as int));
    }
    subvec(v, start, end)
}

/// Executable test for `is_space`.
pub fn is_space_byte(b: u8) -> (r: bool)
    ensures
        r == is_space(b),
{
    b == 0x20 || (0x09 <= b && b <= 0x0d)
}

} // verus!
