//! Lexicographic byte order and sorted key/value lists.
//!
//! Canonical JSON requires object keys in strict lexicographic order.
//! This module defines the order, an insertion sort that establishes it,
//! and the fact that a strictly sorted list is determined by the map it
//! denotes -- the heart of digest determinism.

use vstd::prelude::*;
use crate::text::bytes_eq;

verus! {

/// Strict lexicographic order on byte sequences: `a` comes before `b`
/// when `a` is a proper prefix of `b` or differs first with a smaller
/// byte.
pub open spec fn lex_lt(a: Seq<u8>, b: Seq<u8>) -> bool
    decreases b.len(),
{
    if b.len() == 0 {
        false
    } else if a.len() == 0 {
        true
    } else if a[0] < b[0] {
        true
    } else if a[0] > b[0] {
        false
    } else {
        lex_lt(a.skip(1), b.skip(1))
    }
}

/// The order is asymmetric.
pub proof fn lemma_lex_asym(a: Seq<u8>, b: Seq<u8>)
    ensures
        !(lex_lt(a, b) && lex_lt(b, a)),
    decreases b.len(),
{
    if b.len() == 0 || a.len() == 0 {
    } else if a[0] == b[0] {
        lemma_lex_asym(a.skip(1), b.skip(1));
    }
}

/// The order is irreflexive.
pub proof fn lemma_lex_irrefl(a: Seq<u8>)
    ensures
        !lex_lt(a, a),
{
    lemma_lex_asym(a, a);
}

/// Two sequences that are unordered either way are equal.
pub proof fn lemma_lex_connex(a: Seq<u8>, b: Seq<u8>)
    ensures
        lex_lt(a, b) || lex_lt(b, a) || a == b,
    decreases b.len(),
{
    if b.len() == 0 {
        if a.len() == 0 {
            assert(a =~= b);
        }
    } else if a.len() == 0 {
    } else if a[0] == b[0] {
        lemma_lex_connex(a.skip(1), b.skip(1));
        if !lex_lt(a, b) && !lex_lt(b, a) {
            assert(a.skip(1) == b.skip(1));
            assert(a.len() == b.len());
            assert forall|i: int| 0 <= i < a.len() implies a[i] == b[i] by {
                if i > 0 {
                    assert(a.skip(1)[i - 1] == a[i]);
                    assert(b.skip(1)[i - 1] == b[i]);
                }
            }
            assert(a =~= b);
        }
    }
}

/// The order is transitive.
pub proof fn lemma_lex_trans(a: Seq<u8>, b: Seq<u8>, c: Seq<u8>)
    requires
        lex_lt(a, b),
        lex_lt(b, c),
    ensures
        lex_lt(a, c),
    decreases b.len(),
{
    if a.len() == 0 {
    } else {
        assert(b.len() > 0 && c.len() > 0);
        if a[0] == b[0] && b[0] == c[0] {
            lemma_lex_trans(a.skip(1), b.skip(1), c.skip(1));
        }
    }
}

/// Skipping a common prefix does not change the order.
pub proof fn lemma_lex_skip(a: Seq<u8>, b: Seq<u8>, i: int)
    requires
        0 <= i <= a.len(),
        i <= b.len(),
        forall|j: int| 0 <= j < i ==> a[j] == b[j],
    ensures
        lex_lt(a, b) == lex_lt(a.skip(i), b.skip(i)),
    decreases i,
{
    if i > 0 {
        assert(a.len() > 0 && b.len() > 0);
        assert(a[0] == b[0]);
        lemma_lex_skip(a.skip(1), b.skip(1), i - 1);
        assert(a.skip(1).skip(i - 1) =~= a.skip(i));
        assert(b.skip(1).skip(i - 1) =~= b.skip(i));
    } else {
        assert(a.skip(0) =~= a);
        assert(b.skip(0) =~= b);
    }
}

/// Decides the strict lexicographic order on two byte slices.
pub fn lex_lt_bytes(a: &[u8], b: &[u8]) -> (r: bool)
    ensures
        r == lex_lt(a@, b@),
{
    let an = a.len();
    let bn = b.len();
    let min: usize = if an < bn {
        an
    } else {
        bn
    };
    let mut i: usize = 0;
    while i < min
        invariant
            i <= min,
            min <= a@.len(),
            min <= b@.len(),
            min == if a@.len() < b@.len() {
                a@.len()
            } else {
                b@.len()
            },
            forall|j: int| 0 <= j < i ==> a@[j] == b@[j],
        decreases min - i,
    {
        if a[i] < b[i] {
            proof {
                lemma_lex_skip(a@, b@, i as int);
                assert(a@.skip(i as int)[0] == a@[i as int]);
                assert(b@.skip(i as int)[0] == b@[i as int]);
            }
            return true;
        }
        if a[i] > b[i] {
            proof {
                lemma_lex_skip(a@, b@, i as int);
                assert(a@.skip(i as int)[0] == a@[i as int]);
                assert(b@.skip(i as int)[0] == b@[i as int]);
            }
            return false;
        }
        i = i + 1;
    }
    proof {
        lemma_lex_skip(a@, b@, min as int);
    }
    an < bn
}

/// The key/value list as sequences of byte sequences.
pub open spec fn kv_view(s: Seq<(Vec<u8>, Vec<u8>)>) -> Seq<(Seq<u8>, Seq<u8>)> {
    Seq::new(s.len(), |i: int| (s[i].0@, s[i].1@))
}

/// Keys strictly sorted in lexicographic order (hence unique).
pub open spec fn kv_sorted(s: Seq<(Seq<u8>, Seq<u8>)>) -> bool {
    forall|i: int, j: int| 0 <= i < j < s.len() ==> lex_lt(s[i].0, s[j].0)
}

/// The finite map a key/value list denotes; an earlier entry wins over a
/// later one with the same key.
pub open spec fn kv_map(s: Seq<(Seq<u8>, Seq<u8>)>) -> Map<Seq<u8>, Seq<u8>>
    decreases s.len(),
{
    if s.len() == 0 {
        Map::empty()
    } else {
        kv_map(s.skip(1)).insert(s[0].0, s[0].1)
    }
}

/// A key is in the map's domain exactly when some entry carries it.
pub proof fn lemma_kv_map_dom(s: Seq<(Seq<u8>, Seq<u8>)>, k: Seq<u8>)
    ensures
        kv_map(s).dom().contains(k) <==> exists|i: int| 0 <= i < s.len() && s[i].0 == k,
    decreases s.len(),
{
    if s.len() == 0 {
    } else {
        lemma_kv_map_dom(s.skip(1), k);
        if s[0].0 == k {
        } else {
            if kv_map(s).dom().contains(k) {
                let i = choose|i: int| 0 <= i < s.skip(1).len() && s.skip(1)[i].0 == k;
                assert(s[i + 1].0 == k);
            }
            if exists|i: int| 0 <= i < s.len() && s[i].0 == k {
                let i = choose|i: int| 0 <= i < s.len() && s[i].0 == k;
                assert(i >= 1);
                assert(s.skip(1)[i - 1].0 == k);
            }
        }
    }
}

/// The first entry carrying a key decides that key's value in the map.
pub proof fn lemma_kv_lookup(s: Seq<(Seq<u8>, Seq<u8>)>, k: Seq<u8>, i: int)
    requires
        0 <= i < s.len(),
        s[i].0 == k,
        forall|j: int| 0 <= j < i ==> s[j].0 != k,
    ensures
        kv_map(s).contains_key(k),
        kv_map(s)[k] == s[i].1,
    decreases i,
{
    if i == 0 {
    } else {
        assert(forall|j: int| 0 <= j < i - 1 ==> #[trigger] s.skip(1)[j].0 == s[j + 1].0);
        assert(s.skip(1)[i - 1] == s[i]);
        lemma_kv_lookup(s.skip(1), k, i - 1);
    }
}

/// Dropping the head of a sorted list removes exactly its key from the
/// denoted map.
pub proof fn lemma_kv_map_tail(s: Seq<(Seq<u8>, Seq<u8>)>)
    requires
        s.len() > 0,
        kv_sorted(s),
    ensures
        kv_map(s)[s[0].0] == s[0].1,
        kv_map(s.skip(1)) == kv_map(s).remove(s[0].0),
    decreases s.len(),
{
    let k0 = s[0].0;
    assert forall|i: int| 0 <= i < s.skip(1).len() implies s.skip(1)[i].0 != k0 by {
        assert(s.skip(1)[i] == s[i + 1]);
        assert(lex_lt(k0, s[i + 1].0));
        lemma_lex_irrefl(k0);
    }
    lemma_kv_map_dom(s.skip(1), k0);
    assert(!kv_map(s.skip(1)).dom().contains(k0));
    assert(kv_map(s.skip(1)) =~= kv_map(s).remove(k0));
}

/// The tail of a sorted list is sorted.
pub proof fn lemma_kv_sorted_tail(s: Seq<(Seq<u8>, Seq<u8>)>)
    requires
        s.len() > 0,
        kv_sorted(s),
    ensures
        kv_sorted(s.skip(1)),
{
    assert forall|i: int, j: int|
        0 <= i < j < s.skip(1).len() implies lex_lt(s.skip(1)[i].0, s.skip(1)[j].0) by {
        assert(s.skip(1)[i] == s[i + 1]);
        assert(s.skip(1)[j] == s[j + 1]);
    }
}

/// A strictly sorted key/value list is determined by the map it denotes.
pub proof fn lemma_sorted_kv_unique(a: Seq<(Seq<u8>, Seq<u8>)>, b: Seq<(Seq<u8>, Seq<u8>)>)
    requires
        kv_sorted(a),
        kv_sorted(b),
        kv_map(a) == kv_map(b),
    ensures
        a == b,
    decreases a.len(),
{
    if a.len() == 0 {
        if b.len() > 0 {
            lemma_kv_map_dom(b, b[0].0);
            lemma_kv_map_dom(a, b[0].0);
        }
        assert(a =~= b);
    } else {
        if b.len() == 0 {
            lemma_kv_map_dom(a, a[0].0);
            lemma_kv_map_dom(b, a[0].0);
            assert(false);
        }
        // The heads carry the same key: each head's key is in both maps,
        // and a later occurrence would be lexicographically larger.
        lemma_kv_map_dom(a, a[0].0);
        lemma_kv_map_dom(b, a[0].0);
        lemma_kv_map_dom(b, b[0].0);
        lemma_kv_map_dom(a, b[0].0);
        let ib = choose|i: int| 0 <= i < b.len() && b[i].0 == a[0].0;
        let ia = choose|i: int| 0 <= i < a.len() && a[i].0 == b[0].0;
        if a[0].0 != b[0].0 {
            assert(ib >= 1);
            assert(ia >= 1);
            assert(lex_lt(b[0].0, b[ib].0));
            assert(lex_lt(a[0].0, a[ia].0));
            lemma_lex_asym(a[0].0, b[0].0);
            assert(false);
        }
        lemma_kv_map_tail(a);
        lemma_kv_map_tail(b);
        assert(a[0].1 == kv_map(a)[a[0].0]);
        assert(b[0].1 == kv_map(b)[b[0].0]);
        assert(a[0] == b[0]);
        lemma_kv_sorted_tail(a);
        lemma_kv_sorted_tail(b);
        lemma_sorted_kv_unique(a.skip(1), b.skip(1));
        assert(a.len() == b.len());
        assert forall|i: int| 0 <= i < a.len() implies a[i] == b[i] by {
            if i > 0 {
                assert(a.skip(1)[i - 1] == a[i]);
                assert(b.skip(1)[i - 1] == b[i]);
            }
        }
        assert(a =~= b);
    }
}

/// Sorts a key/value list into strict lexicographic key order by
/// insertion; reports `None` when two entries carry the same key.
/// Inserts a key/value pair into a strictly sorted list at its
/// ordered position; a key already present is reported and the list
/// left unchanged.
fn insert_sorted(out: &mut Vec<(Vec<u8>, Vec<u8>)>, key: Vec<u8>, val: Vec<u8>) -> (inserted:
    bool)
    requires
        kv_sorted(kv_view(old(out)@)),
    ensures
        kv_sorted(kv_view(final(out)@)),
        inserted ==> {
            &&& kv_map(kv_view(final(out)@)) == kv_map(kv_view(old(out)@)).insert(key@, val@)
            &&& (forall|q: int|
                0 <= q < old(out)@.len() ==> (#[trigger] old(out)@[q]).0@ != key@)
            &&& exists|pp: int| #![trigger old(out)@.insert(pp, (key, val))]
                0 <= pp <= old(out)@.len() && final(out)@ == old(out)@.insert(pp, (key, val))
        },
        !inserted ==> final(out)@ == old(out)@ && exists|q: int| #![trigger old(out)@[q]]
            0 <= q < old(out)@.len() && old(out)@[q].0@ == key@,
{
    let ghost kspec = key@;
    let ghost vspec = val@;
    // Find the insertion position among the sorted entries.
    let mut p: usize = 0;
    while p < out.len() && lex_lt_bytes(out[p].0.as_slice(), key.as_slice())
        invariant
            p <= out@.len(),
            out@ == old(out)@,
            key@ == kspec,
            forall|i: int| 0 <= i < p ==> lex_lt(kv_view(out@)[i].0, kspec),
        decreases out@.len() - p,
    {
        p = p + 1;
    }
    if p < out.len() && bytes_eq(out[p].0.as_slice(), key.as_slice()) {
        proof {
            assert(out@[p as int].0@ == kspec);
        }
        return false;
    }
    let ghost old_out = out@;
    proof {
        if (p as int) < old_out.len() {
            lemma_lex_connex(kv_view(old_out)[p as int].0, kspec);
            assert(lex_lt(kspec, kv_view(old_out)[p as int].0));
        }
        assert forall|i: int|
            p <= i < kv_view(old_out).len() implies lex_lt(kspec, kv_view(old_out)[i].0) by {
            if i > p {
                lemma_lex_trans(kspec, kv_view(old_out)[p as int].0, kv_view(old_out)[i].0);
            }
        }
        lemma_no_existing_key(old_out, kspec, p as int);
    }
    let ghost pair = (key, val);
    out.insert(p, (key, val));
    proof {
        assert(out@ == old_out.insert(p as int, pair));
        assert(kv_view(out@) =~= kv_view(old_out).insert(p as int, (kspec, vspec)));
        lemma_sort_insert(kv_view(old_out), kv_view(out@), kspec, vspec, p as int);
    }
    true
}

/// Sorts a key/value list into strict lexicographic key order by
/// insertion; reports `None` when two entries carry the same key. On
/// success the input's keys were pairwise distinct and the result
/// denotes exactly the input's map.
#[verifier::rlimit(60)]
pub fn sort_kvs(kvs: Vec<(Vec<u8>, Vec<u8>)>) -> (r: Option<Vec<(Vec<u8>, Vec<u8>)>>)
    ensures
        match r {
            Some(out) => kv_sorted(kv_view(out@)) && kv_map(kv_view(out@)) == kv_map(
                kv_view(kvs@),
            ) && out@.len() == kvs@.len() && (forall|i: int, j: int|
                0 <= i < j < kvs@.len() ==> kvs@[i].0@ != kvs@[j].0@),
            None => exists|i: int, j: int|
                0 <= i < j < kvs@.len() && kvs@[i].0@ == kvs@[j].0@,
        },
{
    let mut out: Vec<(Vec<u8>, Vec<u8>)> = Vec::new();
    let mut idx: usize = 0;
    let n = kvs.len();
    // Entries still to insert are taken from the input back to front, so
    // that the map denoted (earlier entry wins) is preserved step by step.
    while idx < n
        invariant
            idx <= n,
            n == kvs@.len(),
            kv_sorted(kv_view(out@)),
            kv_map(kv_view(out@)) == kv_map(kv_view(kvs@.skip(n - idx))),
            out@.len() == idx,
            forall|i: int| #![trigger out@[i]]
                0 <= i < out@.len() ==> exists|j: int| #![trigger kvs@[j]]
                    n - idx <= j < n && kvs@[j].0@ == out@[i].0@,
            forall|j: int| #![trigger kvs@[j]]
                n - idx <= j < n ==> exists|i: int| #![trigger out@[i]]
                    0 <= i < out@.len() && out@[i].0@ == kvs@[j].0@,
            forall|j1: int, j2: int|
                n - idx <= j1 < j2 < n ==> kvs@[j1].0@ != kvs@[j2].0@,
        decreases n - idx,
    {
        let src: usize = n - idx - 1;
        let key = crate::text::copy_bytes(kvs[src].0.as_slice());
        let val = crate::text::copy_bytes(kvs[src].1.as_slice());
        let ghost kspec = key@;
        let ghost vspec = val@;
        let ghost old_out = out@;
        let ghost kv_pair = (key, val);
        let inserted = insert_sorted(&mut out, key, val);
        proof {
            assert(kspec == kvs@[src as int].0@);
            assert(vspec == kvs@[src as int].1@);
        }
        if !inserted {
            proof {
                let q = choose|q: int| #![trigger old_out[q]]
                    0 <= q < old_out.len() && old_out[q].0@ == kspec;
                let i = choose|j: int| #![trigger kvs@[j]]
                    n - idx <= j < n && kvs@[j].0@ == old_out[q].0@;
                assert(kvs@[src as int].0@ == kvs@[i].0@);
            }
            return None;
        }
        proof {
            let pp = choose|pp: int| #![trigger old_out.insert(pp, kv_pair)]
                0 <= pp <= old_out.len() && out@ == old_out.insert(pp, kv_pair);
            assert(kv_view(kvs@.skip(n - idx - 1)).skip(1) =~= kv_view(kvs@.skip(n - idx)));
            assert(kv_view(kvs@.skip(n - idx - 1))[0] == (kvs@[src as int].0@, kvs@[
                src as int].1@));
            lemma_suffix_unique_step(kvs@, old_out, src as int, n as int);
            lemma_containment_step(old_out, out@, kvs@, kv_pair, src as int, n as int, pp);
        }
        idx = idx + 1;
    }
    proof {
        assert(kvs@.skip(0) =~= kvs@);
    }
    Some(out)
}

/// A key strictly above everything before the insertion point and
/// strictly below everything from it on is carried by no entry at all.
proof fn lemma_no_existing_key(old_out: Seq<(Vec<u8>, Vec<u8>)>, key: Seq<u8>, p: int)
    requires
        kv_sorted(kv_view(old_out)),
        0 <= p <= old_out.len(),
        forall|i: int| 0 <= i < p ==> lex_lt(kv_view(old_out)[i].0, key),
        p < old_out.len() ==> old_out[p].0@ != key && lex_lt(key, kv_view(old_out)[p].0),
    ensures
        forall|q: int| 0 <= q < old_out.len() ==> (#[trigger] old_out[q]).0@ != key,
{
    assert forall|q: int| 0 <= q < old_out.len() implies (#[trigger] old_out[q]).0@ != key by {
        if old_out[q].0@ == key {
            assert(kv_view(old_out)[q].0 == key);
            if q < p {
                lemma_lex_irrefl(key);
            } else if q > p {
                assert(lex_lt(kv_view(old_out)[p].0, kv_view(old_out)[q].0));
                lemma_lex_trans(key, kv_view(old_out)[p].0, kv_view(old_out)[q].0);
                lemma_lex_irrefl(key);
            }
        }
    }
}

/// A new key that no taken entry carries extends a pairwise distinct
/// key suffix.
proof fn lemma_suffix_unique_step(
    kvs: Seq<(Vec<u8>, Vec<u8>)>,
    out: Seq<(Vec<u8>, Vec<u8>)>,
    src: int,
    n: int,
)
    requires
        0 <= src < n <= kvs.len(),
        forall|j1: int, j2: int| src + 1 <= j1 < j2 < n ==> kvs[j1].0@ != kvs[j2].0@,
        forall|j: int| #![trigger kvs[j]]
            src + 1 <= j < n ==> exists|i: int| #![trigger out[i]]
                0 <= i < out.len() && out[i].0@ == kvs[j].0@,
        forall|q: int| 0 <= q < out.len() ==> (#[trigger] out[q]).0@ != kvs[src].0@,
    ensures
        forall|j1: int, j2: int| src <= j1 < j2 < n ==> kvs[j1].0@ != kvs[j2].0@,
{
    assert forall|j1: int, j2: int|
        src <= j1 < j2 < n implies kvs[j1].0@ != kvs[j2].0@ by {
        if j1 == src && kvs[j1].0@ == kvs[j2].0@ {
            let q = choose|i: int| #![trigger out[i]]
                0 <= i < out.len() && out[i].0@ == kvs[j2].0@;
            assert(out[q].0@ == kvs[src].0@);
        }
    }
}

/// Every key present before an insertion, and the inserted one, is
/// present after it.
proof fn lemma_containment_step(
    old_out: Seq<(Vec<u8>, Vec<u8>)>,
    new_out: Seq<(Vec<u8>, Vec<u8>)>,
    kvs: Seq<(Vec<u8>, Vec<u8>)>,
    pr: (Vec<u8>, Vec<u8>),
    src: int,
    n: int,
    p: int,
)
    requires
        0 <= src < n <= kvs.len(),
        0 <= p <= old_out.len(),
        new_out == old_out.insert(p, pr),
        pr.0@ == kvs[src].0@,
        forall|j: int| #![trigger kvs[j]]
            src + 1 <= j < n ==> exists|i: int| #![trigger old_out[i]]
                0 <= i < old_out.len() && old_out[i].0@ == kvs[j].0@,
    ensures
        forall|j: int| #![trigger kvs[j]]
            src <= j < n ==> exists|i: int| #![trigger new_out[i]]
                0 <= i < new_out.len() && new_out[i].0@ == kvs[j].0@,
{
    assert(new_out.len() == old_out.len() + 1);
    assert forall|j: int| #![trigger kvs[j]]
        src <= j < n implies exists|i: int| #![trigger new_out[i]]
        0 <= i < new_out.len() && new_out[i].0@ == kvs[j].0@ by {
        if j == src {
            assert(new_out[p] == pr);
            assert(new_out[p].0@ == kvs[j].0@);
        } else {
            let q = choose|i: int| #![trigger old_out[i]]
                0 <= i < old_out.len() && old_out[i].0@ == kvs[j].0@;
            if q < p {
                assert(new_out[q] == old_out[q]);
                assert(new_out[q].0@ == kvs[j].0@);
            } else {
                assert(new_out[q + 1] == old_out[q]);
                assert(new_out[q + 1].0@ == kvs[j].0@);
            }
        }
    }
}

/// Inserting a fresh key at its ordered position keeps the list sorted
/// and adds exactly that binding to the denoted map.
proof fn lemma_sort_insert(
    old_s: Seq<(Seq<u8>, Seq<u8>)>,
    new_s: Seq<(Seq<u8>, Seq<u8>)>,
    key: Seq<u8>,
    val: Seq<u8>,
    p: int,
)
    requires
        kv_sorted(old_s),
        0 <= p <= old_s.len(),
        new_s == old_s.insert(p, (key, val)),
        forall|i: int| 0 <= i < p ==> lex_lt(old_s[i].0, key),
        forall|i: int| p <= i < old_s.len() ==> lex_lt(key, old_s[i].0),
    ensures
        kv_sorted(new_s),
        kv_map(new_s) == kv_map(old_s).insert(key, val),
    decreases p,
{
    if p == 0 {
        assert(new_s.skip(1) =~= old_s);
        assert(new_s[0] == (key, val));
        assert(kv_map(new_s) == kv_map(old_s).insert(key, val));
        assert forall|i: int, j: int|
            0 <= i < j < new_s.len() implies lex_lt(new_s[i].0, new_s[j].0) by {
            if i > 0 {
                assert(new_s[i] == old_s[i - 1]);
                assert(new_s[j] == old_s[j - 1]);
            } else {
                assert(new_s[j] == old_s[j - 1]);
            }
        }
    } else {
        assert(old_s.len() > 0);
        lemma_kv_sorted_tail(old_s);
        assert(new_s[0] == old_s[0]);
        assert(new_s.skip(1) =~= old_s.skip(1).insert(p - 1, (key, val)));
        assert(forall|i: int|
            0 <= i < p - 1 ==> lex_lt(#[trigger] old_s.skip(1)[i].0, key));
        assert(forall|i: int|
            p - 1 <= i < old_s.skip(1).len() ==> lex_lt(key, #[trigger] old_s.skip(1)[i].0));
        lemma_sort_insert(old_s.skip(1), new_s.skip(1), key, val, p - 1);
        // Sortedness: the head is below every later entry.
        assert forall|i: int, j: int|
            0 <= i < j < new_s.len() implies lex_lt(new_s[i].0, new_s[j].0) by {
            if i == 0 {
                if j == p {
                    assert(new_s[j] == (key, val));
                    assert(lex_lt(old_s[0].0, key));
                } else if j < p {
                    assert(new_s[j] == old_s[j]);
                } else {
                    assert(new_s[j] == old_s[j - 1]);
                }
            } else {
                assert(new_s[i] == new_s.skip(1)[i - 1]);
                assert(new_s[j] == new_s.skip(1)[j - 1]);
            }
        }
        // The maps agree: both sides insert the head binding last.
        assert(kv_map(new_s) == kv_map(new_s.skip(1)).insert(old_s[0].0, old_s[0].1));
        assert(kv_map(old_s).insert(key, val) == kv_map(old_s.skip(1)).insert(
            old_s[0].0,
            old_s[0].1,
        ).insert(key, val));
        assert(old_s[0].0 != key) by {
            assert(lex_lt(old_s[0].0, key));
            lemma_lex_irrefl(key);
        }
        assert(kv_map(old_s.skip(1)).insert(key, val).insert(old_s[0].0, old_s[0].1)
            =~= kv_map(old_s.skip(1)).insert(old_s[0].0, old_s[0].1).insert(key, val));
    }
}

} // verus!
