//! Byte-search calls into the `memchr` crate, stated over sequences.
//!
//! The scanners locate line breaks and labels with these searches; each
//! wrapper states exactly the first/last-occurrence behaviour that the
//! crate documents.

use vstd::prelude::*;

verus! {

/// Relies on memchr::memchr: index of the first occurrence of `needle`
/// in `haystack`, `None` when the byte does not occur.
#[verifier::external_body]
pub fn find_byte(haystack: &[u8], needle: u8) -> (r: Option<usize>)
    ensures
        match r {
            Some(i) => i < haystack@.len() && haystack@[i as int] == needle && forall|j: int|
                0 <= j < i ==> haystack@[j] != needle,
            None => forall|j: int| 0 <= j < haystack@.len() ==> haystack@[j] != needle,
        },
{
    memchr::memchr(needle, haystack)
}

/// Index of the first occurrence of the byte string `n` in `h` at or after
/// `from` (an empty needle occurs at every position).
pub open spec fn spec_find_bytes(h: Seq<u8>, n: Seq<u8>, from: int) -> Option<int>
    decreases h.len() - from + 1,
{
    if from + n.len() > h.len() {
        None
    } else if h.subrange(from, from + n.len() as int) == n {
        Some(from)
    } else {
        spec_find_bytes(h, n, from + 1)
    }
}

pub proof fn lemma_find_bytes_props(h: Seq<u8>, n: Seq<u8>, from: int)
    ensures
        match spec_find_bytes(h, n, from) {
            Some(i) => from <= i && i + n.len() <= h.len() && h.subrange(
                i,
                i + n.len() as int,
            ) == n,
            None => true,
        },
    decreases h.len() - from + 1,
{
    if from + n.len() <= h.len() && h.subrange(from, from + n.len() as int) != n {
        lemma_find_bytes_props(h, n, from + 1);
    }
}

/// Relies on memchr::memmem::find: index of the first occurrence of the
/// byte string `needle` inside `haystack`, `None` when there is none
/// (an empty needle occurs at index 0).
#[verifier::external_body]
pub fn find_sub(haystack: &[u8], needle: &[u8]) -> (r: Option<usize>)
    ensures
        match r {
            Some(i) => spec_find_bytes(haystack@, needle@, 0) == Some(i as int),
            None => spec_find_bytes(haystack@, needle@, 0) is None,
        },
{
    memchr::memmem::find(haystack, needle)
}

/// Index of the first occurrence of `n` at or after `from` that stands at
/// a line start: at index 0 or right after a line feed. A label that is a
/// suffix of another label (`NAME=` inside `PRETTY_NAME=`) thereby never
/// matches mid-line.
pub open spec fn spec_find_field(h: Seq<u8>, n: Seq<u8>, from: int) -> Option<int>
    decreases h.len() - from + 1,
{
    if from + n.len() > h.len() {
        None
    } else if h.subrange(from, from + n.len() as int) == n && (from == 0 || h[from - 1] == 10) {
        Some(from)
    } else {
        spec_find_field(h, n, from + 1)
    }
}

pub proof fn lemma_find_field_props(h: Seq<u8>, n: Seq<u8>, from: int)
    ensures
        match spec_find_field(h, n, from) {
            Some(i) => from <= i && i + n.len() <= h.len() && h.subrange(i, i + n.len() as int)
                == n && (i == 0 || h[i - 1] == 10),
            None => true,
        },
    decreases h.len() - from + 1,
{
    if from + n.len() <= h.len() && !(h.subrange(from, from + n.len() as int) == n && (from == 0
        || h[from - 1] == 10)) {
        lemma_find_field_props(h, n, from + 1);
    }
}

proof fn lemma_find_field_skip(h: Seq<u8>, n: Seq<u8>, a: int, b: int)
    requires
        0 <= a <= b,
        forall|j: int|
            a <= j < b ==> !(j + n.len() <= h.len() && (#[trigger] h.subrange(
                j,
                j + n.len() as int,
            )) == n && (j == 0 || h[j - 1] == 10)),
    ensures
        spec_find_field(h, n, a) == spec_find_field(h, n, b),
    decreases b - a,
{
    if a < b {
        if a + n.len() > h.len() {
            assert(spec_find_field(h, n, b) is None);
        } else {
            lemma_find_field_skip(h, n, a + 1, b);
        }
    }
}

proof fn lemma_no_occurrence_no_field(h: Seq<u8>, n: Seq<u8>, from: int)
    requires
        0 <= from,
        spec_find_bytes(h, n, from) is None,
    ensures
        spec_find_field(h, n, from) is None,
    decreases h.len() - from + 1,
{
    if from + n.len() <= h.len() {
        lemma_no_occurrence_no_field(h, n, from + 1);
    }
}

proof fn lemma_find_bytes_first(h: Seq<u8>, n: Seq<u8>, from: int, i: int)
    requires
        0 <= from,
        spec_find_bytes(h, n, from) == Some(i),
    ensures
        forall|j: int|
            from <= j < i ==> !(j + n.len() <= h.len() && (#[trigger] h.subrange(
                j,
                j + n.len() as int,
            )) == n),
    decreases h.len() - from + 1,
{
    if from + n.len() <= h.len() && h.subrange(from, from + n.len() as int) != n {
        lemma_find_bytes_first(h, n, from + 1, i);
    }
}

proof fn lemma_find_bytes_suffix(h: Seq<u8>, n: Seq<u8>, from: int, k: int)
    requires
        0 <= from <= h.len(),
        0 <= k,
    ensures
        ({
            let s = h.subrange(from, h.len() as int);
            match spec_find_bytes(s, n, k) {
                Some(j) => spec_find_bytes(h, n, from + k) == Some(from + j),
                None => spec_find_bytes(h, n, from + k) is None,
            }
        }),
    decreases h.len() - from - k + 1,
{
    let s = h.subrange(from, h.len() as int);
    if k + n.len() <= s.len() {
        assert(s.subrange(k, k + n.len() as int) =~= h.subrange(
            from + k,
            from + k + n.len() as int,
        ));
        if s.subrange(k, k + n.len() as int) != n {
            lemma_find_bytes_suffix(h, n, from, k + 1);
        }
    }
}

/// First occurrence of `pat` in `data` that stands at a line start. The
/// occurrences themselves are located with memchr's substring search; the
/// line-start test is what makes a label a field key.
pub fn find_field(data: &[u8], pat: &[u8]) -> (r: Option<usize>)
    requires
        pat@.len() >= 1,
    ensures
        match r {
            Some(i) => spec_find_field(data@, pat@, 0) == Some(i as int),
            None => spec_find_field(data@, pat@, 0) is None,
        },
{
    let dlen = data.len();
    let mut from: usize = 0;
    loop
        invariant
            from <= dlen,
            dlen == data@.len(),
            pat@.len() >= 1,
            spec_find_field(data@, pat@, 0) == spec_find_field(data@, pat@, from as int),
        decreases dlen - from,
    {
        let suffix = vstd::slice::slice_subrange(data, from, dlen);
        match find_sub(suffix, pat) {
            None => {
                proof {
                    lemma_find_bytes_suffix(data@, pat@, from as int, 0);
                    lemma_no_occurrence_no_field(data@, pat@, from as int);
                }
                return None;
            },
            Some(off) => {
                proof {
                    lemma_find_bytes_suffix(data@, pat@, from as int, 0);
                    lemma_find_bytes_props(data@, pat@, from as int);
                    lemma_find_bytes_first(data@, pat@, from as int, from + off);
                }
                let i = from + off;
                if i == 0 || data[i - 1] == 10 {
                    proof {
                        lemma_find_field_skip(data@, pat@, from as int, i as int);
                    }
                    return Some(i);
                }
                proof {
                    lemma_find_field_skip(data@, pat@, from as int, i as int + 1);
                }
                from = i + 1;
            },
        }
    }
}

} // verus!
