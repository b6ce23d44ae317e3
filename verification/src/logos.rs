//! The art registry: an immutable table of named art entries sorted by
//! name with wildcard entries at the end, exact binary-search lookup, and
//! wildcard prefix fallback.

use vstd::prelude::*;
use crate::text::{starts_with_str, spec_starts_with};
use crate::compose::{spec_visible_len, visible_length, spec_split_lines, split_lines};

verus! {

/// One art asset: an identifier, whether the identifier matches as a
/// prefix pattern, the colorized multi-line art, and the precomputed
/// visible width of its widest line.
pub struct ArtEntry {
    pub name: String,
    pub is_wildcard: bool,
    pub ascii_art: String,
    pub max_line_length: usize,
}

/// Lexicographic order on text by character code points.
pub open spec fn chars_le(a: Seq<char>, b: Seq<char>) -> bool
    decreases a.len(),
{
    if a.len() == 0 {
        true
    } else if b.len() == 0 {
        false
    } else if (a[0] as int) < (b[0] as int) {
        true
    } else if (a[0] as int) > (b[0] as int) {
        false
    } else {
        chars_le(a.drop_first(), b.drop_first())
    }
}

proof fn lemma_chars_le_antisym(a: Seq<char>, b: Seq<char>)
    requires
        chars_le(a, b),
        chars_le(b, a),
    ensures
        a == b,
    decreases a.len(),
{
    if a.len() == 0 {
        assert(b.len() == 0);
        assert(a =~= b);
    } else {
        lemma_chars_le_antisym(a.drop_first(), b.drop_first());
        assert(a =~= seq![a[0]] + a.drop_first());
        assert(b =~= seq![b[0]] + b.drop_first());
    }
}

proof fn lemma_chars_lt_at(a: Seq<char>, b: Seq<char>, i: int)
    requires
        0 <= i < a.len(),
        i < b.len(),
        forall|k: int| 0 <= k < i ==> a[k] == b[k],
        (a[i] as int) < (b[i] as int),
    ensures
        chars_le(a, b),
        a != b,
    decreases i,
{
    if i == 0 {
        assert(a[0] != b[0]);
    } else {
        assert(forall|k: int| 0 <= k < i - 1 ==> a.drop_first()[k] == b.drop_first()[k]);
        assert(a.drop_first()[i - 1] == a[i]);
        assert(b.drop_first()[i - 1] == b[i]);
        lemma_chars_lt_at(a.drop_first(), b.drop_first(), i - 1);
        assert(a[i] != b[i]);
    }
}

proof fn lemma_chars_prefix_le(a: Seq<char>, b: Seq<char>)
    requires
        a.len() <= b.len(),
        forall|k: int| 0 <= k < a.len() ==> a[k] == b[k],
    ensures
        chars_le(a, b),
    decreases a.len(),
{
    if a.len() > 0 {
        assert(forall|k: int| 0 <= k < a.drop_first().len() ==> a.drop_first()[k]
            == b.drop_first()[k]);
        lemma_chars_prefix_le(a.drop_first(), b.drop_first());
    }
}

/// Three-way comparison of two pieces of text in the order `chars_le`:
/// negative for smaller, zero for equal, positive for greater.
pub fn str_cmp(a: &str, b: &str) -> (r: i8)
    ensures
        r == 0 ==> a@ == b@,
        r < 0 ==> chars_le(a@, b@) && a@ != b@,
        r > 0 ==> !chars_le(a@, b@),
{
    let la = a.unicode_len();
    let lb = b.unicode_len();
    let mut i: usize = 0;
    while i < la && i < lb
        invariant
            i <= la,
            i <= lb,
            la == a@.len(),
            lb == b@.len(),
            forall|k: int| 0 <= k < i ==> a@[k] == b@[k],
        decreases la - i,
    {
        let ca: u32 = a.get_char(i) as u32;
        let cb: u32 = b.get_char(i) as u32;
        if ca < cb {
            proof {
                lemma_chars_lt_at(a@, b@, i as int);
            }
            return -1;
        }
        if ca > cb {
            proof {
                lemma_chars_lt_at(b@, a@, i as int);
                if chars_le(a@, b@) {
                    lemma_chars_le_antisym(a@, b@);
                }
            }
            return 1;
        }
        proof {
            assert(a@[i as int] == b@[i as int]);
        }
        i = i + 1;
    }
    if la == lb {
        proof {
            assert(a@ =~= b@);
        }
        0
    } else if la < lb {
        proof {
            lemma_chars_prefix_le(a@, b@);
        }
        -1
    } else {
        proof {
            lemma_chars_prefix_le(b@, a@);
            if chars_le(a@, b@) {
                lemma_chars_le_antisym(a@, b@);
            }
        }
        1
    }
}

/// Wildcard entries stand after every exact entry.
pub open spec fn wildcards_last(t: Seq<ArtEntry>) -> bool {
    forall|i: int, j: int|
        0 <= i < j < t.len() && (#[trigger] t[i].is_wildcard) ==> #[trigger] t[j].is_wildcard
}

/// The exact (non-wildcard) entries are sorted by name ascending.
pub open spec fn names_sorted(t: Seq<ArtEntry>) -> bool {
    forall|i: int, j: int|
        0 <= i <= j < t.len() && !t[i].is_wildcard && !t[j].is_wildcard ==> chars_le(
            #[trigger] t[i].name@,
            #[trigger] t[j].name@,
        )
}

/// The registry invariant: a stable sort by name with the wildcard entries
/// last, so binary search runs over the exact entries only.
pub open spec fn table_wf(t: Seq<ArtEntry>) -> bool {
    wildcards_last(t) && names_sorted(t)
}

/// Some exact entry bears this very name.
pub open spec fn has_exact(t: Seq<ArtEntry>, id: Seq<char>) -> bool {
    exists|i: int| 0 <= i < t.len() && !(#[trigger] t[i].is_wildcard) && t[i].name@ == id
}

/// Entry `i` is a wildcard whose name is a prefix of the identifier.
pub open spec fn wildcard_prefix_at(t: Seq<ArtEntry>, id: Seq<char>, i: int) -> bool {
    0 <= i < t.len() && t[i].is_wildcard && spec_starts_with(id, t[i].name@)
}

/// Looks an identifier up in the registry: first a binary search for an
/// exact non-wildcard name match (wildcard entries compare greater than
/// any name, so the search never lands on one); failing that, a linear
/// scan for the first wildcard entry whose name is a prefix of the
/// identifier. An exact match always wins over any wildcard, wherever the
/// entries stand.
pub fn find_logo(table: &Vec<ArtEntry>, name: &str) -> (r: Option<usize>)
    requires
        table_wf(table@),
    ensures
        match r {
            Some(k) => {
                if has_exact(table@, name@) {
                    &&& 0 <= k < table@.len()
                    &&& !table@[k as int].is_wildcard
                    &&& table@[k as int].name@ == name@
                } else {
                    &&& wildcard_prefix_at(table@, name@, k as int)
                    &&& forall|j: int| 0 <= j < k ==> !wildcard_prefix_at(table@, name@, j)
                }
            },
            None => !has_exact(table@, name@) && forall|j: int|
                !wildcard_prefix_at(table@, name@, j),
        },
{
    let mut lo: usize = 0;
    let mut hi: usize = table.len();
    while lo < hi
        invariant
            lo <= hi <= table@.len(),
            table_wf(table@),
            forall|j: int|
                0 <= j < table@.len() && !(lo <= j < hi) && !(#[trigger] table@[j].is_wildcard)
                    ==> table@[j].name@ != name@,
        decreases hi - lo,
    {
        let mid = lo + (hi - lo) / 2;
        if table[mid].is_wildcard {
            proof {
                assert(forall|j: int|
                    mid <= j < hi ==> #[trigger] table@[j].is_wildcard) by {
                    assert(forall|j: int|
                        mid < j < table@.len() ==> #[trigger] table@[j].is_wildcard);
                }
            }
            hi = mid;
        } else {
            let c = str_cmp(table[mid].name.as_str(), name);
            if c == 0 {
                return Some(mid);
            } else if c < 0 {
                proof {
                    assert forall|j: int|
                        lo <= j <= mid && !(#[trigger] table@[j].is_wildcard) implies table@[j].name@
                        != name@ by {
                        if table@[j].name@ == name@ {
                            assert(chars_le(table@[j].name@, table@[mid as int].name@));
                            lemma_chars_le_antisym(table@[mid as int].name@, name@);
                        }
                    }
                }
                lo = mid + 1;
            } else {
                proof {
                    assert forall|j: int|
                        mid <= j < hi && !(#[trigger] table@[j].is_wildcard) implies table@[j].name@
                        != name@ by {
                        if table@[j].name@ == name@ {
                            assert(chars_le(table@[mid as int].name@, table@[j].name@));
                        }
                    }
                }
                hi = mid;
            }
        }
    }
    proof {
        assert(!has_exact(table@, name@));
    }
    let mut i: usize = 0;
    while i < table.len()
        invariant
            i <= table@.len(),
            !has_exact(table@, name@),
            forall|j: int| 0 <= j < i ==> !wildcard_prefix_at(table@, name@, j),
        decreases table@.len() - i,
    {
        if table[i].is_wildcard && starts_with_str(name, table[i].name.as_str()) {
            return Some(i);
        }
        i = i + 1;
    }
    None
}

/// The widest visible line across a list of lines.
pub open spec fn max_visible_of(lines: Seq<Seq<char>>) -> int
    decreases lines.len(),
{
    if lines.len() == 0 {
        0
    } else {
        let rest = max_visible_of(lines.drop_last());
        let v = spec_visible_len(lines.last());
        if v > rest {
            v
        } else {
            rest
        }
    }
}

/// The visible width of an art block: the widest of its lines, measured
/// with every escape sequence excluded.
pub open spec fn spec_max_visible(art: Seq<char>) -> int {
    max_visible_of(spec_split_lines(art))
}

/// Builds one registry entry, computing the widest visible line of the
/// art once, with escape markup excluded entirely.
pub fn art_entry(name: &str, is_wildcard: bool, ascii_art: &str) -> (r: ArtEntry)
    ensures
        r.name@ == name@,
        r.is_wildcard == is_wildcard,
        r.ascii_art@ == ascii_art@,
        r.max_line_length as int == spec_max_visible(ascii_art@),
{
    let lines = split_lines(ascii_art);
    let ghost ls = lines.deep_view();
    let mut m: usize = 0;
    let mut i: usize = 0;
    while i < lines.len()
        invariant
            i <= ls.len(),
            ls == lines.deep_view(),
            m as int == max_visible_of(ls.subrange(0, i as int)),
        decreases ls.len() - i,
    {
        proof {
            assert(ls[i as int] == lines@[i as int]@);
            assert(ls.subrange(0, i + 1).drop_last() =~= ls.subrange(0, i as int));
            assert(ls.subrange(0, i + 1).last() == ls[i as int]);
            crate::compose::lemma_visible_nonneg(ls[i as int], false);
        }
        let v = visible_length(lines[i].as_str());
        if v > m {
            m = v;
        }
        i = i + 1;
    }
    proof {
        assert(ls.subrange(0, ls.len() as int) =~= ls);
    }
    ArtEntry { name: String::from_str(name), is_wildcard, ascii_art: String::from_str(ascii_art), max_line_length: m }
}

} // verus!
