//! Byte-string helpers shared by the whole library.
//!
//! All text handled by the library (digests, media types, references,
//! command-line arguments) is kept as UTF-8 bytes in `Vec<u8>`.

use vstd::prelude::*;
use vstd::std_specs::cmp::PartialEqSpec;
use vstd::string::StringSliceAdditionalSpecFns;
use vstd::string::StrSliceExecFns;

verus! {

/// Copies a byte slice into a fresh vector.
pub fn copy_bytes(src: &[u8]) -> (r: Vec<u8>)
    ensures
        r@ == src@,
{
    let mut out: Vec<u8> = Vec::new();
    append_bytes(&mut out, src);
    proof {
        assert(out@ =~= src@);
    }
    out
}

/// Appends a byte slice to the end of a vector.
pub fn append_bytes(dst: &mut Vec<u8>, src: &[u8])
    ensures
        final(dst)@ == old(dst)@ + src@,
{
    let mut i: usize = 0;
    while i < src.len()
        invariant
            i <= src@.len(),
            dst@ == old(dst)@ + src@.subrange(0, i as int),
        decreases src@.len() - i,
    {
        dst.push(src[i]);
        i = i + 1;
        proof {
            assert(old(dst)@ + src@.subrange(0, i - 1) + seq![src@[i - 1]] =~= old(dst)@
                + src@.subrange(0, i as int));
        }
    }
    proof {
        assert(src@.subrange(0, src@.len() as int) =~= src@);
    }
}

/// Compares two byte slices for equality.
pub fn bytes_eq(a: &[u8], b: &[u8]) -> (r: bool)
    ensures
        r == (a@ == b@),
{
    if a.len() != b.len() {
        proof {
            assert(a@ != b@);
        }
        return false;
    }
    let mut i: usize = 0;
    while i < a.len()
        invariant
            i <= a@.len(),
            a@.len() == b@.len(),
            forall|j: int| 0 <= j < i ==> a@[j] == b@[j],
        decreases a@.len() - i,
    {
        if a[i] != b[i] {
            proof {
                assert(a@ != b@);
            }
            return false;
        }
        i = i + 1;
    }
    proof {
        assert(a@ =~= b@);
    }
    true
}

/// Compares two byte vectors for equality.
pub fn texts_eq(a: &Vec<u8>, b: &Vec<u8>) -> (r: bool)
    ensures
        r == (a@ == b@),
{
    bytes_eq(a.as_slice(), b.as_slice())
}

/// The index of the first occurrence of `b` in `s`, if any.
pub open spec fn spec_find_byte(s: Seq<u8>, b: u8) -> Option<int> {
    if exists|i: int| 0 <= i < s.len() && s[i] == b {
        Some(choose|i: int| 0 <= i < s.len() && s[i] == b && forall|j: int|
            0 <= j < i ==> s[j] != b)
    } else {
        None
    }
}

/// Finds the first occurrence of byte `b` in `s`.
pub fn find_byte(s: &[u8], b: u8) -> (r: Option<usize>)
    ensures
        match r {
            Some(i) => 0 <= i < s@.len() && s@[i as int] == b && (forall|j: int|
                0 <= j < i ==> s@[j] != b) && spec_find_byte(s@, b) == Some(i as int),
            None => (forall|j: int| 0 <= j < s@.len() ==> s@[j] != b) && spec_find_byte(s@, b)
                is None,
        },
{
    let mut i: usize = 0;
    while i < s.len()
        invariant
            i <= s@.len(),
            forall|j: int| 0 <= j < i ==> s@[j] != b,
        decreases s@.len() - i,
    {
        if s[i] == b {
            proof {
                lemma_find_byte_unique(s@, b, i as int);
            }
            return Some(i);
        }
        i = i + 1;
    }
    None
}

/// A position that holds `b` with no earlier occurrence is the one that
/// `spec_find_byte` names.
proof fn lemma_find_byte_unique(s: Seq<u8>, b: u8, i: int)
    requires
        0 <= i < s.len(),
        s[i] == b,
        forall|j: int| 0 <= j < i ==> s[j] != b,
    ensures
        spec_find_byte(s, b) == Some(i),
{
    assert(0 <= i < s.len() && s[i] == b && (forall|j: int| 0 <= j < i ==> s[j] != b));
    assert(exists|k: int|
        0 <= k < s.len() && s[k] == b && (forall|j: int| 0 <= j < k ==> s[j] != b));
    let k = choose|k: int|
        0 <= k < s.len() && s[k] == b && forall|j: int| 0 <= j < k ==> s[j] != b;
    if k < i {
        assert(s[k] != b);
    }
    if k > i {
        assert(s[i] != b);
    }
}

/// Copies the byte range `[from, to)` of a slice into a fresh vector.
pub fn sub_bytes(s: &[u8], from: usize, to: usize) -> (r: Vec<u8>)
    requires
        from <= to <= s@.len(),
    ensures
        r@ == s@.subrange(from as int, to as int),
{
    let mut out: Vec<u8> = Vec::new();
    let mut i: usize = from;
    while i < to
        invariant
            from <= i <= to <= s@.len(),
            out@ == s@.subrange(from as int, i as int),
        decreases to - i,
    {
        out.push(s[i]);
        i = i + 1;
        proof {
            assert(out@ =~= s@.subrange(from as int, i as int));
        }
    }
    out
}

/// True when `s` holds `pat` starting at `pos`.
pub open spec fn spec_starts_at(s: Seq<u8>, pos: int, pat: Seq<u8>) -> bool {
    0 <= pos && pos + pat.len() <= s.len() && s.subrange(pos, pos + pat.len() as int) == pat
}

/// Tests whether `s` holds `pat` starting at `pos`.
pub fn starts_at(s: &[u8], pos: usize, pat: &[u8]) -> (r: bool)
    requires
        pos <= s@.len(),
    ensures
        r == spec_starts_at(s@, pos as int, pat@),
{
    let n = s.len();
    let m = pat.len();
    if n - pos < m {
        proof {
            assert(!spec_starts_at(s@, pos as int, pat@));
        }
        return false;
    }
    let mut i: usize = 0;
    while i < m
        invariant
            i <= m,
            m == pat@.len(),
            n == s@.len(),
            pos + m <= n,
            forall|j: int| 0 <= j < i ==> s@[pos + j] == pat@[j],
        decreases m - i,
    {
        if s[pos + i] != pat[i] {
            proof {
                assert(s@.subrange(pos as int, pos + m) != pat@) by {
                    assert(s@.subrange(pos as int, pos + m)[i as int] == s@[pos + i]);
                }
            }
            return false;
        }
        i = i + 1;
    }
    proof {
        assert(s@.subrange(pos as int, pos + m) =~= pat@);
    }
    true
}

/// A prefix test after a skip is the test at the offset.
pub proof fn lemma_starts_at_shift(s: Seq<u8>, p: int, pat: Seq<u8>)
    requires
        0 <= p <= s.len(),
    ensures
        spec_starts_at(s, p, pat) == spec_starts_at(s.skip(p), 0, pat),
{
    if spec_starts_at(s, p, pat) {
        assert(s.skip(p).subrange(0, pat.len() as int) =~= s.subrange(p, p + pat.len()));
    }
    if spec_starts_at(s.skip(p), 0, pat) {
        assert(s.subrange(p, p + pat.len()) =~= s.skip(p).subrange(0, pat.len() as int));
    }
}

/// True when `needle` occurs somewhere in `hay`.
pub open spec fn spec_contains(hay: Seq<u8>, needle: Seq<u8>) -> bool {
    exists|i: int| spec_starts_at(hay, i, needle)
}

/// Searches `hay` for an occurrence of `needle`.
pub fn contains_bytes(hay: &[u8], needle: &[u8]) -> (r: bool)
    ensures
        r == spec_contains(hay@, needle@),
{
    let n = hay.len();
    if needle.len() == 0 {
        proof {
            assert(hay@.subrange(0, 0) =~= needle@);
            assert(spec_starts_at(hay@, 0, needle@));
        }
        return true;
    }
    let mut i: usize = 0;
    while i < n
        invariant
            i <= n,
            n == hay@.len(),
            needle@.len() > 0,
            forall|j: int| 0 <= j < i ==> !spec_starts_at(hay@, j, needle@),
        decreases n - i,
    {
        if starts_at(hay, i, needle) {
            return true;
        }
        i = i + 1;
    }
    proof {
        assert forall|j: int| !spec_starts_at(hay@, j, needle@) by {
            if 0 <= j < n {
                assert(j < i);
            }
        }
    }
    false
}

/// The value of the first pair with this key, if any.
pub open spec fn spec_assoc(pairs: Seq<(Vec<u8>, Vec<u8>)>, key: Seq<u8>) -> Option<Seq<u8>>
    decreases pairs.len(),
{
    if pairs.len() == 0 {
        None
    } else if pairs[0].0@ == key {
        Some(pairs[0].1@)
    } else {
        spec_assoc(pairs.skip(1), key)
    }
}

/// The key of the first pair with this value, if any.
pub open spec fn spec_assoc_by_value(pairs: Seq<(Vec<u8>, Vec<u8>)>, target: Seq<u8>) -> Option<
    Seq<u8>,
>
    decreases pairs.len(),
{
    if pairs.len() == 0 {
        None
    } else if pairs[0].1@ == target {
        Some(pairs[0].0@)
    } else {
        spec_assoc_by_value(pairs.skip(1), target)
    }
}

/// Finds the first pair whose value equals `target` and yields its
/// key.
pub fn find_key_by_value(pairs: &Vec<(Vec<u8>, Vec<u8>)>, target: &[u8]) -> (r: Option<Vec<u8>>)
    ensures
        match r {
            Some(k) => spec_assoc_by_value(pairs@, target@) == Some(k@),
            None => spec_assoc_by_value(pairs@, target@) is None,
        },
{
    let ghost ps = pairs@;
    proof {
        assert(ps.skip(0) =~= ps);
    }
    let mut i: usize = 0;
    while i < pairs.len()
        invariant
            i <= ps.len(),
            pairs@ == ps,
            spec_assoc_by_value(ps, target@) == spec_assoc_by_value(ps.skip(i as int), target@),
        decreases ps.len() - i,
    {
        proof {
            assert(ps.skip(i as int)[0] == ps[i as int]);
            assert(ps.skip(i as int).skip(1) =~= ps.skip(i + 1));
        }
        if bytes_eq(pairs[i].1.as_slice(), target) {
            let k = copy_bytes(pairs[i].0.as_slice());
            return Some(k);
        }
        i = i + 1;
    }
    proof {
        assert(ps.skip(ps.len() as int) =~= Seq::<(Vec<u8>, Vec<u8>)>::empty());
    }
    None
}

/// Finds the first pair with this key and yields its value.
pub fn find_value_by_key(pairs: &Vec<(Vec<u8>, Vec<u8>)>, key: &[u8]) -> (r: Option<Vec<u8>>)
    ensures
        match r {
            Some(v) => spec_assoc(pairs@, key@) == Some(v@),
            None => spec_assoc(pairs@, key@) is None,
        },
{
    let ghost ps = pairs@;
    proof {
        assert(ps.skip(0) =~= ps);
    }
    let mut i: usize = 0;
    while i < pairs.len()
        invariant
            i <= ps.len(),
            pairs@ == ps,
            spec_assoc(ps, key@) == spec_assoc(ps.skip(i as int), key@),
        decreases ps.len() - i,
    {
        proof {
            assert(ps.skip(i as int)[0] == ps[i as int]);
            assert(ps.skip(i as int).skip(1) =~= ps.skip(i + 1));
        }
        if bytes_eq(pairs[i].0.as_slice(), key) {
            let v = copy_bytes(pairs[i].1.as_slice());
            return Some(v);
        }
        i = i + 1;
    }
    proof {
        assert(ps.skip(ps.len() as int) =~= Seq::<(Vec<u8>, Vec<u8>)>::empty());
    }
    None
}

/// An argument list as byte sequences.
pub open spec fn argv_view(s: Seq<Vec<u8>>) -> Seq<Seq<u8>> {
    Seq::new(s.len(), |i: int| s[i]@)
}

/// The bytes of an ASCII string, one byte per character.
pub open spec fn lit(s: &str) -> Seq<u8> {
    s.spec_bytes()
}

/// Converts a string literal into its UTF-8 bytes.
pub fn lit_bytes(s: &str) -> (r: Vec<u8>)
    ensures
        r@ == lit(s),
{
    s.as_bytes_vec()
}

} // verus!
