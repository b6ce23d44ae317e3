//! Character-level text helpers: substring search, prefix tests, trimming
//! and ASCII case folding, stated over `Seq<char>`.

use vstd::prelude::*;

verus! {

/// ASCII whitespace: space, tab, line feed, carriage return.
pub open spec fn is_ws_char(c: char) -> bool {
    c == ' ' || c == '\t' || c == '\n' || c == '\r'
}

/// ASCII lower-casing of one character; anything outside `A`..`Z` is kept.
pub open spec fn to_lower_char(c: char) -> char {
    if 65 <= c as int <= 90 {
        ((c as int) + 32) as char
    } else {
        c
    }
}

/// ASCII upper-casing of one character; anything outside `a`..`z` is kept.
pub open spec fn to_upper_char(c: char) -> char {
    if 97 <= c as int <= 122 {
        ((c as int) - 32) as char
    } else {
        c
    }
}

/// The text with every character ASCII-lower-cased.
pub open spec fn spec_lowered(s: Seq<char>) -> Seq<char> {
    Seq::new(s.len(), |i: int| to_lower_char(s[i]))
}

/// Index of the first occurrence of `c` at or after `from`.
pub open spec fn spec_find_char(s: Seq<char>, c: char, from: int) -> Option<int>
    decreases s.len() - from,
{
    if from >= s.len() {
        None
    } else if s[from] == c {
        Some(from)
    } else {
        spec_find_char(s, c, from + 1)
    }
}

/// Index of the last occurrence of `c` before `till`.
pub open spec fn spec_rfind_char(s: Seq<char>, c: char, till: int) -> Option<int>
    decreases till,
{
    if till <= 0 {
        None
    } else if s[till - 1] == c {
        Some(till - 1)
    } else {
        spec_rfind_char(s, c, till - 1)
    }
}

pub proof fn lemma_rfind_char_props(s: Seq<char>, c: char, till: int)
    requires
        till <= s.len(),
    ensures
        match spec_rfind_char(s, c, till) {
            Some(i) => 0 <= i < till && s[i] == c,
            None => true,
        },
    decreases till,
{
    if till > 0 && s[till - 1] != c {
        lemma_rfind_char_props(s, c, till - 1);
    }
}

/// Index of the first occurrence of `needle` at or after `from`.
pub open spec fn spec_find_sub(h: Seq<char>, n: Seq<char>, from: int) -> Option<int>
    decreases h.len() - from + 1,
{
    if from + n.len() > h.len() {
        None
    } else if h.subrange(from, from + n.len() as int) == n {
        Some(from)
    } else {
        spec_find_sub(h, n, from + 1)
    }
}

pub proof fn lemma_find_sub_props(h: Seq<char>, n: Seq<char>, from: int)
    ensures
        match spec_find_sub(h, n, from) {
            Some(i) => from <= i && i + n.len() <= h.len() && h.subrange(
                i,
                i + n.len() as int,
            ) == n,
            None => true,
        },
    decreases h.len() - from + 1,
{
    if from + n.len() <= h.len() && h.subrange(from, from + n.len() as int) != n {
        lemma_find_sub_props(h, n, from + 1);
    }
}

/// `s` begins with `p`.
pub open spec fn spec_starts_with(s: Seq<char>, p: Seq<char>) -> bool {
    s.len() >= p.len() && s.subrange(0, p.len() as int) == p
}

/// First index at or after `from` that is not whitespace.
pub open spec fn trim_start_idx(s: Seq<char>, from: int) -> int
    decreases s.len() - from,
{
    if from < s.len() && is_ws_char(s[from]) {
        trim_start_idx(s, from + 1)
    } else {
        from
    }
}

/// Index just past the last non-whitespace character before `till`.
pub open spec fn trim_end_idx(s: Seq<char>, till: int) -> int
    decreases till,
{
    if till > 0 && is_ws_char(s[till - 1]) {
        trim_end_idx(s, till - 1)
    } else {
        till
    }
}

/// The text with leading and trailing whitespace removed.
pub open spec fn spec_trim(s: Seq<char>) -> Seq<char> {
    let a = trim_start_idx(s, 0);
    let b = trim_end_idx(s, s.len() as int);
    if a <= b {
        s.subrange(a, b)
    } else {
        Seq::empty()
    }
}

/// First index at or after `from` that is not a double quote.
pub open spec fn quote_start_idx(s: Seq<char>, from: int) -> int
    decreases s.len() - from,
{
    if from < s.len() && s[from] == '"' {
        quote_start_idx(s, from + 1)
    } else {
        from
    }
}

/// Index just past the last non-quote character before `till`.
pub open spec fn quote_end_idx(s: Seq<char>, till: int) -> int
    decreases till,
{
    if till > 0 && s[till - 1] == '"' {
        quote_end_idx(s, till - 1)
    } else {
        till
    }
}

/// The text with every leading and trailing double quote removed.
pub open spec fn spec_trim_quotes(s: Seq<char>) -> Seq<char> {
    let a = quote_start_idx(s, 0);
    let b = quote_end_idx(s, s.len() as int);
    if a <= b {
        s.subrange(a, b)
    } else {
        Seq::empty()
    }
}

/// End of the line that starts at `from`: the first line feed at or after
/// it, or the end of the text.
pub open spec fn line_end_idx(s: Seq<char>, from: int) -> int {
    match spec_find_char(s, '\n', from) {
        Some(i) => i,
        None => s.len() as int,
    }
}

/// Whether `c` is ASCII whitespace.
pub fn is_ws(c: char) -> (r: bool)
    ensures
        r == is_ws_char(c),
{
    c == ' ' || c == '\t' || c == '\n' || c == '\r'
}

/// ASCII lower-casing of one character.
pub fn lower_char(c: char) -> (r: char)
    ensures
        r == to_lower_char(c),
{
    let u: u32 = c as u32;
    if 65 <= u && u <= 90 {
        ((u + 32) as u8) as char
    } else {
        c
    }
}

/// ASCII upper-casing of one character.
pub fn upper_char(c: char) -> (r: char)
    ensures
        r == to_upper_char(c),
{
    let u: u32 = c as u32;
    if 97 <= u && u <= 122 {
        ((u - 32) as u8) as char
    } else {
        c
    }
}

/// Whether `needle` occurs in `hay` starting at character index `i`.
pub fn chars_match_at(hay: &str, needle: &str, i: usize) -> (r: bool)
    requires
        i + needle@.len() <= hay@.len(),
    ensures
        r == (hay@.subrange(i as int, i as int + needle@.len() as int) == needle@),
{
    let n = needle.unicode_len();
    let h = hay.unicode_len();
    let mut j: usize = 0;
    while j < n
        invariant
            j <= n,
            n == needle@.len(),
            h == hay@.len(),
            i + n <= hay@.len(),
            forall|k: int| 0 <= k < j ==> hay@[i + k] == needle@[k],
        decreases n - j,
    {
        if hay.get_char(i + j) != needle.get_char(j) {
            proof {
                assert(hay@.subrange(i as int, i as int + needle@.len() as int)[j as int]
                    == hay@[i + j]);
            }
            return false;
        }
        j = j + 1;
    }
    proof {
        assert(hay@.subrange(i as int, i as int + needle@.len() as int) =~= needle@);
    }
    true
}

/// Whether `needle` occurs in the lower-cased `hay` starting at `i`.
fn chars_match_at_lowered(hay: &str, needle: &str, i: usize) -> (r: bool)
    requires
        i + needle@.len() <= hay@.len(),
    ensures
        r == (spec_lowered(hay@).subrange(i as int, i as int + needle@.len() as int) == needle@),
{
    let n = needle.unicode_len();
    let h = hay.unicode_len();
    let mut j: usize = 0;
    while j < n
        invariant
            j <= n,
            n == needle@.len(),
            h == hay@.len(),
            i + n <= hay@.len(),
            forall|k: int| 0 <= k < j ==> spec_lowered(hay@)[i + k] == needle@[k],
        decreases n - j,
    {
        if lower_char(hay.get_char(i + j)) != needle.get_char(j) {
            proof {
                assert(spec_lowered(hay@).subrange(i as int, i as int + needle@.len() as int)[j
                    as int] == spec_lowered(hay@)[i + j]);
            }
            return false;
        }
        j = j + 1;
    }
    proof {
        assert(spec_lowered(hay@).subrange(i as int, i as int + needle@.len() as int) =~= needle@);
    }
    true
}

/// Whether two pieces of text are equal character for character.
pub fn eq_strs(a: &str, b: &str) -> (r: bool)
    ensures
        r == (a@ == b@),
{
    let la = a.unicode_len();
    let lb = b.unicode_len();
    if la != lb {
        return false;
    }
    let r = chars_match_at(a, b, 0);
    proof {
        assert(a@.subrange(0, b@.len() as int) =~= a@);
    }
    r
}

/// Whether `s` begins with `p`.
pub fn starts_with_str(s: &str, p: &str) -> (r: bool)
    ensures
        r == spec_starts_with(s@, p@),
{
    if p.unicode_len() > s.unicode_len() {
        return false;
    }
    chars_match_at(s, p, 0)
}

/// First occurrence of character `c` in `s`.
pub fn find_char(s: &str, c: char) -> (r: Option<usize>)
    ensures
        match r {
            Some(i) => spec_find_char(s@, c, 0) == Some(i as int),
            None => spec_find_char(s@, c, 0) is None,
        },
{
    let n = s.unicode_len();
    let mut i: usize = 0;
    while i < n
        invariant
            i <= n,
            n == s@.len(),
            spec_find_char(s@, c, 0) == spec_find_char(s@, c, i as int),
        decreases n - i,
    {
        if s.get_char(i) == c {
            return Some(i);
        }
        i = i + 1;
    }
    None
}

/// First occurrence of character `c` in `s` at or after `from`.
pub fn find_char_from(s: &str, c: char, from: usize) -> (r: Option<usize>)
    ensures
        match r {
            Some(i) => spec_find_char(s@, c, from as int) == Some(i as int),
            None => spec_find_char(s@, c, from as int) is None,
        },
{
    let n = s.unicode_len();
    if from >= n {
        return None;
    }
    let mut i: usize = from;
    while i < n
        invariant
            from <= i <= n,
            n == s@.len(),
            spec_find_char(s@, c, from as int) == spec_find_char(s@, c, i as int),
        decreases n - i,
    {
        if s.get_char(i) == c {
            return Some(i);
        }
        i = i + 1;
    }
    None
}

/// Last occurrence of character `c` in `s`.
pub fn rfind_char(s: &str, c: char) -> (r: Option<usize>)
    ensures
        match r {
            Some(i) => spec_rfind_char(s@, c, s@.len() as int) == Some(i as int),
            None => spec_rfind_char(s@, c, s@.len() as int) is None,
        },
{
    let n = s.unicode_len();
    let mut i: usize = n;
    while i > 0
        invariant
            i <= n,
            n == s@.len(),
            spec_rfind_char(s@, c, n as int) == spec_rfind_char(s@, c, i as int),
        decreases i,
    {
        if s.get_char(i - 1) == c {
            return Some(i - 1);
        }
        i = i - 1;
    }
    None
}

/// First occurrence of `needle` in `hay`.
pub fn find_sub_str(hay: &str, needle: &str) -> (r: Option<usize>)
    ensures
        match r {
            Some(i) => spec_find_sub(hay@, needle@, 0) == Some(i as int),
            None => spec_find_sub(hay@, needle@, 0) is None,
        },
{
    find_sub_from(hay, needle, 0)
}

/// First occurrence of `needle` in `hay` at or after `from`.
pub fn find_sub_from(hay: &str, needle: &str, from: usize) -> (r: Option<usize>)
    ensures
        match r {
            Some(i) => spec_find_sub(hay@, needle@, from as int) == Some(i as int),
            None => spec_find_sub(hay@, needle@, from as int) is None,
        },
{
    let h = hay.unicode_len();
    let n = needle.unicode_len();
    if n > h || from > h - n {
        return None;
    }
    let mut i: usize = from;
    loop
        invariant
            from <= i <= h - n,
            n <= h,
            h == hay@.len(),
            n == needle@.len(),
            spec_find_sub(hay@, needle@, from as int) == spec_find_sub(hay@, needle@, i as int),
        ensures
            spec_find_sub(hay@, needle@, from as int) is None,
        decreases h - n - i,
    {
        if chars_match_at(hay, needle, i) {
            return Some(i);
        }
        if i == h - n {
            proof {
                assert(spec_find_sub(hay@, needle@, i as int) == spec_find_sub(
                    hay@,
                    needle@,
                    i as int + 1,
                ));
                assert(spec_find_sub(hay@, needle@, i as int + 1) is None);
            }
            break ;
        }
        i = i + 1;
    }
    None
}

/// Whether `needle` occurs in `hay`.
pub fn contains_sub(hay: &str, needle: &str) -> (r: bool)
    ensures
        r == (spec_find_sub(hay@, needle@, 0) is Some),
{
    match find_sub_str(hay, needle) {
        Some(_) => true,
        None => false,
    }
}

/// Whether `needle` occurs in the ASCII-lower-cased `hay`.
pub fn contains_lowered(hay: &str, needle: &str) -> (r: bool)
    ensures
        r == (spec_find_sub(spec_lowered(hay@), needle@, 0) is Some),
{
    let h = hay.unicode_len();
    let n = needle.unicode_len();
    if n > h {
        return false;
    }
    let mut i: usize = 0;
    loop
        invariant
            i <= h - n,
            n <= h,
            h == hay@.len(),
            n == needle@.len(),
            spec_find_sub(spec_lowered(hay@), needle@, 0) == spec_find_sub(
                spec_lowered(hay@),
                needle@,
                i as int,
            ),
        ensures
            spec_find_sub(spec_lowered(hay@), needle@, 0) is None,
        decreases h - n - i,
    {
        if chars_match_at_lowered(hay, needle, i) {
            return true;
        }
        if i == h - n {
            proof {
                assert(spec_find_sub(spec_lowered(hay@), needle@, i as int) == spec_find_sub(
                    spec_lowered(hay@),
                    needle@,
                    i as int + 1,
                ));
                assert(spec_find_sub(spec_lowered(hay@), needle@, i as int + 1) is None);
            }
            break ;
        }
        i = i + 1;
    }
    false
}

/// The text with leading and trailing ASCII whitespace removed.
pub fn trim_str<'a>(s: &'a str) -> (r: &'a str)
    ensures
        r@ == spec_trim(s@),
{
    let n = s.unicode_len();
    let mut a: usize = 0;
    while a < n && is_ws(s.get_char(a))
        invariant
            a <= n,
            n == s@.len(),
            trim_start_idx(s@, 0) == trim_start_idx(s@, a as int),
        decreases n - a,
    {
        a = a + 1;
    }
    let mut b: usize = n;
    while b > 0 && is_ws(s.get_char(b - 1))
        invariant
            b <= n,
            n == s@.len(),
            trim_end_idx(s@, n as int) == trim_end_idx(s@, b as int),
        decreases b,
    {
        b = b - 1;
    }
    if a <= b {
        s.substring_char(a, b)
    } else {
        let r = s.substring_char(0, 0);
        proof {
            assert(r@ =~= Seq::<char>::empty());
        }
        r
    }
}

/// The text with every leading and trailing double quote removed.
pub fn trim_quotes<'a>(s: &'a str) -> (r: &'a str)
    ensures
        r@ == spec_trim_quotes(s@),
{
    let n = s.unicode_len();
    let mut a: usize = 0;
    while a < n && s.get_char(a) == '"'
        invariant
            a <= n,
            n == s@.len(),
            quote_start_idx(s@, 0) == quote_start_idx(s@, a as int),
        decreases n - a,
    {
        a = a + 1;
    }
    let mut b: usize = n;
    while b > 0 && s.get_char(b - 1) == '"'
        invariant
            b <= n,
            n == s@.len(),
            quote_end_idx(s@, n as int) == quote_end_idx(s@, b as int),
        decreases b,
    {
        b = b - 1;
    }
    if a <= b {
        s.substring_char(a, b)
    } else {
        let r = s.substring_char(0, 0);
        proof {
            assert(r@ =~= Seq::<char>::empty());
        }
        r
    }
}

} // verus!
