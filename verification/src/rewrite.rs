//! Substring search and replace-all over byte strings, and the round-trip
//! law the URI scheme rewriting of the LSP adapter rests on.
//!
//! Replacement is a naive leftmost scan: every occurrence of the pattern
//! is replaced, scanning left to right, with no attempt to parse around
//! string literals that happen to contain a scheme.

use vstd::prelude::*;

verus! {

/// Whether `p` occurs in `s` starting at position `i`.
pub open spec fn occurs_at(s: Seq<u8>, p: Seq<u8>, i: int) -> bool {
    0 <= i && i + p.len() <= s.len() && s.subrange(i, i + p.len()) == p
}

/// Whether `p` occurs anywhere in `s`.
pub open spec fn contains_seq(s: Seq<u8>, p: Seq<u8>) -> bool {
    exists|i: int| occurs_at(s, p, i)
}

/// The position of the first occurrence of `p` in `s` at or after `from`.
pub open spec fn find_spec(s: Seq<u8>, p: Seq<u8>, from: int) -> Option<int>
    recommends
        from >= 0,
    decreases s.len() + 1 - from,
{
    if from + p.len() > s.len() {
        None
    } else if s.subrange(from, from + p.len()) == p {
        Some(from)
    } else if from < s.len() {
        find_spec(s, p, from + 1)
    } else {
        None
    }
}

/// What `find_spec` returns is the first occurrence at or after `from`.
pub proof fn lemma_find_spec_props(s: Seq<u8>, p: Seq<u8>, from: int)
    requires
        from >= 0,
    ensures
        match find_spec(s, p, from) {
            Some(i) => from <= i && occurs_at(s, p, i) && forall|j: int|
                from <= j < i ==> !occurs_at(s, p, j),
            None => forall|j: int| j >= from ==> !occurs_at(s, p, j),
        },
    decreases s.len() - from,
{
    if from + p.len() > s.len() {
        assert forall|j: int| j >= from implies !occurs_at(s, p, j) by {
            if occurs_at(s, p, j) {
                assert(j + p.len() <= s.len());
            }
        }
    } else if s.subrange(from, from + p.len()) == p {
    } else {
        assert(p.len() > 0) by {
            if p.len() == 0 {
                assert(s.subrange(from, from + p.len()) =~= p);
            }
        }
        lemma_find_spec_props(s, p, from + 1);
    }
}

/// The converse: a position that is an occurrence with none before it is
/// what `find_spec` returns.
pub proof fn lemma_find_spec_unique(s: Seq<u8>, p: Seq<u8>, from: int, i: int)
    requires
        from >= 0,
        from <= i,
        occurs_at(s, p, i),
        forall|j: int| from <= j < i ==> !occurs_at(s, p, j),
    ensures
        find_spec(s, p, from) == Some(i),
    decreases i - from,
{
    if from == i {
    } else {
        assert(!occurs_at(s, p, from));
        lemma_find_spec_unique(s, p, from + 1, i);
    }
}

/// When nothing at or after `from` is an occurrence, `find_spec` finds
/// nothing.
pub proof fn lemma_find_spec_none(s: Seq<u8>, p: Seq<u8>, from: int)
    requires
        from >= 0,
        forall|j: int| from <= j ==> !occurs_at(s, p, j),
    ensures
        find_spec(s, p, from) == None::<int>,
{
    lemma_find_spec_props(s, p, from);
    match find_spec(s, p, from) {
        Some(i) => {
            assert(occurs_at(s, p, i));
            assert(false);
        },
        None => {},
    }
}

/// Occurrences are preserved when the haystack is extended on the right,
/// and the first occurrence stays first.
pub proof fn lemma_find_prefix_stable(s: Seq<u8>, ext: Seq<u8>, p: Seq<u8>, from: int, i: int)
    requires
        find_spec(s, p, from) == Some(i),
        from >= 0,
    ensures
        find_spec(s + ext, p, from) == Some(i),
{
    lemma_find_spec_props(s, p, from);
    assert(occurs_at(s + ext, p, i)) by {
        assert((s + ext).subrange(i, i + p.len()) =~= s.subrange(i, i + p.len()));
    }
    assert forall|j: int| from <= j < i implies !occurs_at(s + ext, p, j) by {
        if occurs_at(s + ext, p, j) {
            assert(j + p.len() <= i + p.len() <= s.len());
            assert(s.subrange(j, j + p.len()) =~= (s + ext).subrange(j, j + p.len()));
            assert(occurs_at(s, p, j));
        }
    }
    lemma_find_spec_unique(s + ext, p, from, i);
}

/// An occurrence in a subrange is an occurrence in the whole, shifted.
pub proof fn lemma_occurs_in_subrange(s: Seq<u8>, p: Seq<u8>, lo: int, hi: int, j: int)
    requires
        0 <= lo <= hi <= s.len(),
        occurs_at(s.subrange(lo, hi), p, j),
    ensures
        occurs_at(s, p, lo + j),
    decreases 0int,
{
    assert(s.subrange(lo + j, lo + j + p.len()) =~= s.subrange(lo, hi).subrange(
        j,
        j + p.len(),
    ));
}

/// A part of a byte string that holds no occurrence of `p` passes that on
/// to its subranges.
pub proof fn lemma_not_contains_subrange(s: Seq<u8>, p: Seq<u8>, lo: int, hi: int)
    requires
        0 <= lo <= hi <= s.len(),
        !contains_seq(s, p),
    ensures
        !contains_seq(s.subrange(lo, hi), p),
{
    assert forall|j: int| !occurs_at(s.subrange(lo, hi), p, j) by {
        if occurs_at(s.subrange(lo, hi), p, j) {
            lemma_occurs_in_subrange(s, p, lo, hi, j);
        }
    }
}

/// Every occurrence of `p` in `s` replaced by `q`, scanning left to right.
pub open spec fn replace_all(s: Seq<u8>, p: Seq<u8>, q: Seq<u8>) -> Seq<u8>
    decreases s.len(),
{
    if p.len() == 0 {
        s
    } else {
        match find_spec(s, p, 0) {
            Some(i) => {
                if 0 <= i && 1 <= i + p.len() <= s.len() {
                    s.subrange(0, i) + q + replace_all(
                        s.subrange(i + p.len(), s.len() as int),
                        p,
                        q,
                    )
                } else {
                    s
                }
            },
            None => s,
        }
    }
}

/// A byte string without the pattern is left unchanged by replacement.
pub proof fn lemma_replace_all_absent(s: Seq<u8>, p: Seq<u8>, q: Seq<u8>)
    requires
        !contains_seq(s, p),
    ensures
        replace_all(s, p, q) == s,
{
    if p.len() > 0 {
        lemma_find_spec_props(s, p, 0);
        match find_spec(s, p, 0) {
            Some(i) => {
                assert(occurs_at(s, p, i));
                assert(false);
            },
            None => {},
        }
    }
}

/// Replacing left to right and then replacing back restores the input,
/// provided the input contains no occurrence of the replacement `q`, the
/// two patterns are non-empty, `q` cannot overlap itself (no strict prefix
/// of `q` is also a suffix-aligned start, which holds whenever no later
/// byte of `q` equals its first byte), and `q` does not occur inside `p`'s
/// replacement boundary bytes.
pub proof fn lemma_replace_round_trip(s: Seq<u8>, p: Seq<u8>, q: Seq<u8>)
    requires
        p.len() >= 1,
        q.len() >= 1,
        !contains_seq(s, q),
        forall|k: int| 1 <= k < q.len() ==> #[trigger] q[k] != q[0],
    ensures
        replace_all(replace_all(s, p, q), q, p) == s,
    decreases s.len(),
{
    lemma_find_spec_props(s, p, 0);
    match find_spec(s, p, 0) {
        None => {
            lemma_replace_all_absent(s, q, p);
        },
        Some(i) => {
            let tail = s.subrange(i + p.len(), s.len() as int);
            let head = s.subrange(0, i);
            lemma_not_contains_subrange(s, q, i + p.len(), s.len() as int);
            lemma_replace_round_trip(tail, p, q);
            let r = head + q + replace_all(tail, p, q);
            assert(replace_all(s, p, q) == r);
            // The first occurrence of q in r is exactly at i.
            assert(occurs_at(r, q, i)) by {
                assert(r.subrange(i, i + q.len()) =~= q);
            }
            assert forall|j: int| 0 <= j < i implies !occurs_at(r, q, j) by {
                if occurs_at(r, q, j) {
                    if j + q.len() <= i {
                        // Entirely inside head, which is a subrange of s.
                        assert(s.subrange(j, j + q.len()) =~= r.subrange(j, j + q.len()));
                        assert(occurs_at(s, q, j));
                        assert(false);
                    } else {
                        // Straddles the boundary: then q would overlap its
                        // own first byte, which the side condition forbids.
                        let k = i - j;
                        assert(1 <= k < q.len());
                        assert(r[i] == q[0]) by {
                            assert(r.subrange(i, i + q.len()) =~= q);
                        }
                        assert(r[j + k] == q[k]) by {
                            assert(r.subrange(j, j + q.len()) =~= q);
                        }
                        assert(r[j + k] == r[i]);
                        assert(false);
                    }
                }
            }
            lemma_find_spec_unique(r, q, 0, i);
            // Unfold the outer replacement once at i.
            assert(replace_all(r, q, p) == r.subrange(0, i) + p + replace_all(
                r.subrange(i + q.len(), r.len() as int),
                q,
                p,
            ));
            assert(r.subrange(0, i) =~= head);
            assert(r.subrange(i + q.len(), r.len() as int) =~= replace_all(tail, p, q));
            assert(occurs_at(s, p, i));
            assert(s =~= head + p + tail) by {
                assert(s.subrange(i, i + p.len()) == p);
            }
            assert(replace_all(r, q, p) =~= s);
        },
    }
}

/// Finds the first occurrence of `needle` in `hay` at or after `from`.
pub fn find_subseq(hay: &[u8], needle: &[u8], from: usize) -> (r: Option<usize>)
    requires
        needle@.len() >= 1,
    ensures
        match r {
            Some(i) => from <= i && occurs_at(hay@, needle@, i as int) && forall|j: int|
                from <= j < i ==> !occurs_at(hay@, needle@, j),
            None => forall|j: int| j >= from ==> !occurs_at(hay@, needle@, j),
        },
{
    if hay.len() < needle.len() {
        return None;
    }
    let hlen: usize = hay.len();
    let max_start: usize = hlen - needle.len();
    let mut i: usize = from;
    while i <= max_start
        invariant
            needle@.len() >= 1,
            needle@.len() <= hay@.len(),
            hay@.len() == hlen,
            max_start == hay@.len() - needle@.len(),
            from <= i,
            forall|j: int| from <= j < i ==> !occurs_at(hay@, needle@, j),
        decreases max_start + 1 - i,
    {
        assert(i + needle@.len() <= hay@.len());
        let mut k: usize = 0;
        let mut found = true;
        while k < needle.len()
            invariant
                k <= needle@.len(),
                hay@.len() == hlen,
                i + needle@.len() <= hay@.len(),
                found <==> hay@.subrange(i as int, i + k) =~= needle@.subrange(0, k as int),
            decreases needle@.len() - k,
        {
            let hb = hay[i + k];
            let nb = needle[k];
            proof {
                assert(hay@.subrange(i as int, i + k + 1).drop_last() =~= hay@.subrange(
                    i as int,
                    i + k,
                ));
                assert(needle@.subrange(0, k + 1 as int).drop_last() =~= needle@.subrange(
                    0,
                    k as int,
                ));
            }
            if hb != nb {
                found = false;
                proof {
                    assert(hay@.subrange(i as int, i + k + 1).last() == hb);
                    assert(needle@.subrange(0, k + 1 as int).last() == nb);
                }
            }
            k = k + 1;
        }
        if found {
            proof {
                assert(hay@.subrange(i as int, i + needle@.len()) =~= needle@.subrange(
                    0,
                    needle@.len() as int,
                ));
                assert(needle@.subrange(0, needle@.len() as int) =~= needle@);
            }
            return Some(i);
        }
        proof {
            assert(!occurs_at(hay@, needle@, i as int)) by {
                if occurs_at(hay@, needle@, i as int) {
                    assert(hay@.subrange(i as int, i + needle@.len()) == needle@);
                    assert(needle@.subrange(0, needle@.len() as int) =~= needle@);
                }
            }
        }
        i = i + 1;
    }
    proof {
        assert forall|j: int| j >= from implies !occurs_at(hay@, needle@, j) by {
            if occurs_at(hay@, needle@, j) {
                assert(j + needle@.len() <= hay@.len());
            }
        }
    }
    None
}

/// Replaces every occurrence of `p` in `s` with `q`, scanning left to
/// right.
pub fn replace_all_bytes(s: &[u8], p: &[u8], q: &[u8]) -> (out: Vec<u8>)
    requires
        p@.len() >= 1,
    ensures
        out@ == replace_all(s@, p@, q@),
{
    let mut out: Vec<u8> = Vec::new();
    let slen: usize = s.len();
    let mut cur: usize = 0;
    proof {
        assert(s@.subrange(0, s@.len() as int) =~= s@);
    }
    loop
        invariant
            p@.len() >= 1,
            s@.len() == slen,
            cur <= s@.len(),
            replace_all(s@, p@, q@) == out@ + replace_all(
                s@.subrange(cur as int, s@.len() as int),
                p@,
                q@,
            ),
        decreases s@.len() - cur,
    {
        let ghost suffix = s@.subrange(cur as int, s@.len() as int);
        let ghost out0 = out@;
        match find_subseq(s, p, cur) {
            Some(i) => {
                proof {
                    // The occurrence at i is the first in the suffix.
                    let rel = i - cur;
                    assert(occurs_at(suffix, p@, rel)) by {
                        assert(suffix.subrange(rel, rel + p@.len()) =~= s@.subrange(
                            i as int,
                            i + p@.len(),
                        ));
                    }
                    assert forall|j: int| 0 <= j < rel implies !occurs_at(suffix, p@, j) by {
                        if occurs_at(suffix, p@, j) {
                            lemma_occurs_in_subrange(s@, p@, cur as int, s@.len() as int, j);
                        }
                    }
                    lemma_find_spec_unique(suffix, p@, 0, rel);
                    assert(replace_all(suffix, p@, q@) == suffix.subrange(0, rel) + q@
                        + replace_all(
                        suffix.subrange(rel + p@.len(), suffix.len() as int),
                        p@,
                        q@,
                    ));
                    assert(suffix.subrange(0, rel) =~= s@.subrange(cur as int, i as int));
                    assert(suffix.subrange(rel + p@.len(), suffix.len() as int) =~= s@.subrange(
                        i + p@.len(),
                        s@.len() as int,
                    ));
                }
                let mut j: usize = cur;
                while j < i
                    invariant
                        cur <= j <= i,
                        i <= s@.len(),
                        out@ == out0 + s@.subrange(cur as int, j as int),
                    decreases i - j,
                {
                    out.push(s[j]);
                    proof {
                        assert(out@ =~= out0 + s@.subrange(cur as int, j + 1 as int));
                    }
                    j = j + 1;
                }
                let mut k: usize = 0;
                while k < q.len()
                    invariant
                        k <= q@.len(),
                        cur <= i <= s@.len(),
                        out@ == out0 + s@.subrange(cur as int, i as int) + q@.subrange(
                            0,
                            k as int,
                        ),
                    decreases q@.len() - k,
                {
                    out.push(q[k]);
                    proof {
                        assert(out@ =~= out0 + s@.subrange(cur as int, i as int) + q@.subrange(
                            0,
                            k + 1 as int,
                        ));
                    }
                    k = k + 1;
                }
                proof {
                    assert(q@.subrange(0, q@.len() as int) =~= q@);
                }
                proof {
                    assert(i + p@.len() <= s@.len());
                }
                let next = i + p.len();
                proof {
                    // Re-establish the loop invariant at the new cursor.
                    assert(out@ + replace_all(
                        s@.subrange(next as int, s@.len() as int),
                        p@,
                        q@,
                    ) =~= out0 + replace_all(suffix, p@, q@));
                }
                cur = next;
            }
            None => {
                proof {
                    assert forall|j: int| !occurs_at(suffix, p@, j) by {
                        if occurs_at(suffix, p@, j) {
                            lemma_occurs_in_subrange(s@, p@, cur as int, s@.len() as int, j);
                        }
                    }
                    lemma_replace_all_absent(suffix, p@, q@);
                }
                let mut j: usize = cur;
                while j < s.len()
                    invariant
                        cur <= j <= s@.len(),
                        out@ == out0 + s@.subrange(cur as int, j as int),
                    decreases s@.len() - j,
                {
                    out.push(s[j]);
                    proof {
                        assert(out@ =~= out0 + s@.subrange(cur as int, j + 1 as int));
                    }
                    j = j + 1;
                }
                proof {
                    assert(out@ =~= out0 + suffix);
                }
                return out;
            }
        }
    }
}

} // verus!
