//! Byte-level scanning primitives shared by the track, transcript and
//! narrative parsers: substring search, splitting on a separator, and
//! ASCII-whitespace trimming, each proved equal to a specification-level
//! model.

use vstd::prelude::*;

verus! {

/// The pattern `pat` occurs in `data` at position `i`.
pub open spec fn match_at(data: Seq<u8>, i: int, pat: Seq<u8>) -> bool {
    0 <= i && i + pat.len() <= data.len() && data.subrange(i, i + pat.len()) == pat
}

/// Position of the first occurrence of `pat` in `data` at or after `from`.
pub open spec fn find_at(data: Seq<u8>, from: int, pat: Seq<u8>) -> Option<int>
    decreases data.len() - from + 1,
{
    if from > data.len() {
        None
    } else if match_at(data, from, pat) {
        Some(from)
    } else {
        find_at(data, from + 1, pat)
    }
}

/// A found position is a real match, and the first one at or after `from`.
pub proof fn lemma_find_at_props(data: Seq<u8>, from: int, pat: Seq<u8>)
    ensures
        match find_at(data, from, pat) {
            Some(i) => from <= i && match_at(data, i, pat)
                && (forall|j: int| from <= j < i ==> !match_at(data, j, pat)),
            None => forall|j: int| from <= j ==> !match_at(data, j, pat),
        },
    decreases data.len() - from + 1,
{
    if from > data.len() {
    } else if match_at(data, from, pat) {
    } else {
        lemma_find_at_props(data, from + 1, pat);
    }
}

/// The pieces of `data` from position `from` on, cut at each occurrence of
/// the (nonempty) separator `sep`, the way `str::split` cuts a string.
pub open spec fn split_at(data: Seq<u8>, from: int, sep: Seq<u8>) -> Seq<Seq<u8>>
    decreases data.len() - from + 1,
        via split_at_decreases
{
    if sep.len() == 0 || from < 0 || from > data.len() {
        Seq::empty()
    } else {
        match find_at(data, from, sep) {
            Some(i) => seq![data.subrange(from, i)] + split_at(data, i + sep.len(), sep),
            None => seq![data.subrange(from, data.len() as int)],
        }
    }
}

#[via_fn]
proof fn split_at_decreases(data: Seq<u8>, from: int, sep: Seq<u8>) {
    lemma_find_at_props(data, from, sep);
}

/// Splitting never yields an empty piece list (for valid arguments).
pub proof fn lemma_split_at_len(data: Seq<u8>, from: int, sep: Seq<u8>)
    requires
        sep.len() >= 1,
        0 <= from <= data.len(),
    ensures
        split_at(data, from, sep).len() >= 1,
{
    lemma_find_at_props(data, from, sep);
}

/// Whether `pat` occurs in `data` at position `i` (false when it would not fit).
pub fn matches_at(data: &[u8], i: usize, pat: &[u8]) -> (r: bool)
    ensures
        r == match_at(data@, i as int, pat@),
{
    if i > data.len() || data.len() - i < pat.len() {
        return false;
    }
    let mut k: usize = 0;
    while k < pat.len()
        invariant
            i + pat.len() <= data.len(),
            k <= pat.len(),
            forall|m: int| 0 <= m < k ==> data@[i + m] == pat@[m],
        decreases pat.len() - k,
    {
        if data[i + k] != pat[k] {
            return false;
        }
        k += 1;
    }
    assert(data@.subrange(i as int, i + pat@.len()) =~= pat@);
    true
}

/// First occurrence of the nonempty pattern `pat` in `data` at or after `from`.
pub fn find_from(data: &[u8], from: usize, pat: &[u8]) -> (r: Option<usize>)
    requires
        pat@.len() >= 1,
    ensures
        match r {
            Some(i) => find_at(data@, from as int, pat@) == Some(i as int),
            None => find_at(data@, from as int, pat@) is None,
        },
{
    let mut i: usize = from;
    if i > data.len() {
        proof {
            lemma_find_at_props(data@, from as int, pat@);
        }
        return None;
    }
    while data.len() - i >= pat.len()
        invariant
            from <= i <= data.len(),
            find_at(data@, from as int, pat@) == find_at(data@, i as int, pat@),
        decreases data.len() - i,
    {
        if matches_at(data, i, pat) {
            return Some(i);
        }
        i += 1;
    }
    proof {
        lemma_find_at_props(data@, i as int, pat@);
    }
    None
}

/// First occurrence of the byte `b` in `data` at or after `from`.
pub fn find_byte(data: &[u8], from: usize, b: u8) -> (r: Option<usize>)
    ensures
        match r {
            Some(i) => find_at(data@, from as int, seq![b]) == Some(i as int),
            None => find_at(data@, from as int, seq![b]) is None,
        },
{
    let mut i: usize = from;
    if i > data.len() {
        proof {
            lemma_find_at_props(data@, from as int, seq![b]);
        }
        return None;
    }
    while i < data.len()
        invariant
            from <= i <= data.len(),
            find_at(data@, from as int, seq![b]) == find_at(data@, i as int, seq![b]),
        decreases data.len() - i,
    {
        proof {
            assert(data@.subrange(i as int, i + 1)[0] == data@[i as int]);
        }
        if data[i] == b {
            proof {
                assert(data@.subrange(i as int, i + 1) =~= seq![b]);
            }
            return Some(i);
        }
        i += 1;
    }
    proof {
        lemma_find_at_props(data@, i as int, seq![b]);
    }
    None
}

/// Copy of `data[lo..hi]` as an owned vector.
pub fn subvec(data: &[u8], lo: usize, hi: usize) -> (r: Vec<u8>)
    requires
        lo <= hi <= data@.len(),
    ensures
        r@ == data@.subrange(lo as int, hi as int),
{
    vstd::slice::slice_to_vec(&data[lo..hi])
}

/// Cut `data` at each occurrence of the nonempty separator `sep`.
pub fn split_by(data: &[u8], sep: &[u8]) -> (r: Vec<Vec<u8>>)
    requires
        sep@.len() >= 1,
    ensures
        r@.len() == split_at(data@, 0, sep@).len(),
        forall|i: int|
            0 <= i < r@.len() ==> #[trigger] r@[i]@ == split_at(data@, 0, sep@)[i],
{
    let ghost pieces = split_at(data@, 0, sep@);
    let mut out: Vec<Vec<u8>> = Vec::new();
    let mut cur: usize = 0;
    let mut done = false;
    while !done
        invariant
            cur <= data.len(),
            out@.len() <= pieces.len(),
            done ==> out@.len() == pieces.len(),
            !done ==> split_at(data@, cur as int, sep@) == pieces.skip(out@.len() as int),
            forall|i: int| 0 <= i < out@.len() ==> #[trigger] out@[i]@ == pieces[i],
        decreases data.len() - cur + (if done { 0int } else { 1int }),
    {
        let ghost k = out@.len() as int;
        match find_from(data, cur, sep) {
            Some(i) => {
                proof {
                    lemma_find_at_props(data@, cur as int, sep@);
                    assert(pieces.skip(k)[0] == data@.subrange(cur as int, i as int));
                    assert(pieces.skip(k).skip(1) =~= pieces.skip(k + 1));
                }
                out.push(subvec(data, cur, i));
                cur = i + sep.len();
            }
            None => {
                proof {
                    assert(pieces.skip(k)[0] == data@.subrange(cur as int, data@.len() as int));
                    assert(pieces.skip(k).len() == 1);
                }
                out.push(subvec(data, cur, data.len()));
                done = true;
            }
        }
    }
    out
}

/// Whether two byte strings hold the same bytes.
pub fn eq_bytes(a: &[u8], b: &[u8]) -> (r: bool)
    ensures
        r == (a@ == b@),
{
    if a.len() != b.len() {
        return false;
    }
    let mut i: usize = 0;
    while i < a.len()
        invariant
            a@.len() == b@.len(),
            i <= a@.len(),
            forall|j: int| 0 <= j < i ==> a@[j] == b@[j],
        decreases a@.len() - i,
    {
        if a[i] != b[i] {
            return false;
        }
        i += 1;
    }
    proof {
        assert(a@ =~= b@);
    }
    true
}

/// A line with a trailing carriage return removed.
pub open spec fn strip_cr(l: Seq<u8>) -> Seq<u8> {
    if l.len() > 0 && l.last() == 13 {
        l.drop_last()
    } else {
        l
    }
}

/// ASCII whitespace: space, tab, line feed, carriage return.
pub open spec fn is_space(b: u8) -> bool {
    b == 32 || b == 9 || b == 10 || b == 13
}

/// `s` with ASCII whitespace removed from both ends.
pub open spec fn trimmed(s: Seq<u8>) -> Seq<u8>
    decreases s.len(),
{
    if s.len() == 0 {
        s
    } else if is_space(s[0]) {
        trimmed(s.skip(1))
    } else if is_space(s.last()) {
        trimmed(s.take(s.len() - 1))
    } else {
        s
    }
}

proof fn lemma_trimmed_skip(s: Seq<u8>, lo: int, hi: int)
    requires
        0 <= lo <= hi <= s.len(),
        forall|i: int| 0 <= i < lo ==> is_space(s[i]),
        forall|i: int| hi <= i < s.len() ==> is_space(s[i]),
        lo < hi ==> !is_space(s[lo]) && !is_space(s[hi - 1]),
    ensures
        trimmed(s) == s.subrange(lo, hi),
    decreases s.len(),
{
    if s.len() == 0 {
        assert(trimmed(s) =~= s.subrange(lo, hi));
    } else if lo == hi {
        assert(is_space(s[0]));
        if lo > 0 {
            lemma_trimmed_skip(s.skip(1), lo - 1, hi - 1);
        } else {
            lemma_trimmed_skip(s.skip(1), 0, 0);
        }
        assert(trimmed(s) =~= s.subrange(lo, hi));
    } else if is_space(s[0]) {
        lemma_trimmed_skip(s.skip(1), lo - 1, hi - 1);
        assert(s.skip(1).subrange(lo - 1, hi - 1) =~= s.subrange(lo, hi));
    } else if is_space(s.last()) {
        assert(hi < s.len());
        lemma_trimmed_skip(s.take(s.len() - 1), lo, hi);
        assert(s.take(s.len() - 1).subrange(lo, hi) =~= s.subrange(lo, hi));
    } else {
        assert(lo == 0 && hi == s.len());
        assert(trimmed(s) =~= s.subrange(lo, hi));
    }
}

/// Whether `b` is ASCII whitespace.
pub fn is_space_exec(b: u8) -> (r: bool)
    ensures
        r == is_space(b),
{
    b == 32 || b == 9 || b == 10 || b == 13
}

/// `s` with ASCII whitespace removed from both ends.
pub fn trim(s: &[u8]) -> (r: Vec<u8>)
    ensures
        r@ == trimmed(s@),
{
    let mut lo: usize = 0;
    while lo < s.len() && is_space_exec(s[lo])
        invariant
            lo <= s.len(),
            forall|i: int| 0 <= i < lo ==> is_space(s@[i]),
        decreases s.len() - lo,
    {
        lo += 1;
    }
    let mut hi: usize = s.len();
    while hi > lo && is_space_exec(s[hi - 1])
        invariant
            lo <= hi <= s.len(),
            forall|i: int| hi <= i < s.len() ==> is_space(s@[i]),
        decreases hi,
    {
        hi -= 1;
    }
    proof {
        lemma_trimmed_skip(s@, lo as int, hi as int);
    }
    subvec(s, lo, hi)
}

} // verus!
