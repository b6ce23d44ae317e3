//! Byte-level scanning primitives shared by the pseudo-file parsers:
//! prefix matching and in-place decimal parsing.

use vstd::prelude::*;
use vstd::wrapping::u64_specs;

verus! {

/// One byte of horizontal whitespace: space or tab.
pub open spec fn is_space_or_tab(b: u8) -> bool {
    b == 32 || b == 9
}

/// An ASCII decimal digit.
pub open spec fn is_ascii_digit(b: u8) -> bool {
    48 <= b && b <= 57
}

/// `data` begins with `pattern`.
pub open spec fn spec_matches_at(data: Seq<u8>, pattern: Seq<u8>) -> bool {
    data.len() >= pattern.len() && data.subrange(0, pattern.len() as int) == pattern
}

/// Index of the first byte at or after `from` that is not a space or tab
/// (the length of the buffer if every remaining byte is one).
pub open spec fn skip_ws(data: Seq<u8>, from: int) -> int
    decreases data.len() - from,
{
    if from < data.len() && is_space_or_tab(data[from]) {
        skip_ws(data, from + 1)
    } else {
        from
    }
}

/// Index of the first byte at or after `from` that is not an ASCII digit
/// (the length of the buffer if every remaining byte is one).
pub open spec fn digits_end(data: Seq<u8>, from: int) -> int
    decreases data.len() - from,
{
    if from < data.len() && is_ascii_digit(data[from]) {
        digits_end(data, from + 1)
    } else {
        from
    }
}

/// Mathematical value of a run of ASCII digits read as a decimal number.
pub open spec fn dec_value(digits: Seq<u8>) -> nat
    decreases digits.len(),
{
    if digits.len() == 0 {
        0
    } else {
        dec_value(digits.drop_last()) * 10 + (digits.last() - 48) as nat
    }
}

/// Decimal value of a digit run as the scanner accumulates it in a `u64`:
/// each step multiplies by ten and adds the digit, wrapping modulo `2^64`.
pub open spec fn dec_value_wrapped(digits: Seq<u8>) -> u64
    decreases digits.len(),
{
    if digits.len() == 0 {
        0u64
    } else {
        u64_specs::wrapping_add(
            u64_specs::wrapping_mul(dec_value_wrapped(digits.drop_last()), 10u64),
            (digits.last() - 48) as u64,
        )
    }
}

/// While the accumulated value stays below `2^64` no step wraps, so the
/// wrapped accumulation agrees with the mathematical decimal value.
pub proof fn lemma_dec_value_small(digits: Seq<u8>)
    requires
        dec_value(digits) < 0x1_0000_0000_0000_0000,
        forall|j: int| 0 <= j < digits.len() ==> is_ascii_digit(#[trigger] digits[j]),
    ensures
        dec_value_wrapped(digits) == dec_value(digits),
    decreases digits.len(),
{
    if digits.len() > 0 {
        assert(dec_value(digits.drop_last()) * 10 <= dec_value(digits));
        lemma_dec_value_small(digits.drop_last());
    }
}

/// The decimal digit bytes of a number, most significant first.
pub open spec fn dec_bytes(n: nat) -> Seq<u8>
    decreases n,
{
    if n < 10 {
        seq![(48 + n) as u8]
    } else {
        dec_bytes(n / 10).push((48 + n % 10) as u8)
    }
}

/// The decimal rendering of a number is a nonempty digit run whose
/// decimal value is the number itself.
pub proof fn lemma_dec_bytes_props(n: nat)
    ensures
        dec_bytes(n).len() >= 1,
        forall|j: int| 0 <= j < dec_bytes(n).len() ==> is_ascii_digit(#[trigger] dec_bytes(n)[j]),
        dec_value(dec_bytes(n)) == n,
    decreases n,
{
    assert(dec_bytes(n).len() >= 1);
    assert(dec_value(dec_bytes(n)) == dec_value(dec_bytes(n).drop_last()) * 10 + (dec_bytes(
        n,
    ).last() - 48) as nat);
    if n >= 10 {
        lemma_dec_bytes_props(n / 10);
        assert(dec_bytes(n).drop_last() =~= dec_bytes(n / 10));
        assert(dec_bytes(n).last() == (48 + n % 10) as u8);
        assert((dec_bytes(n).last() - 48) as nat == n % 10);
        assert(n / 10 * 10 + n % 10 == n);
    } else {
        assert(dec_bytes(n).drop_last() =~= Seq::<u8>::empty());
        assert(dec_value(Seq::<u8>::empty()) == 0);
        assert(dec_bytes(n).last() == (48 + n) as u8);
    }
}

/// Index of the first line-feed byte at or after `from` (the buffer length
/// when none follows).
pub open spec fn newline_from(data: Seq<u8>, from: int) -> int
    decreases data.len() - from,
{
    if from < data.len() {
        if data[from] == 10 {
            from
        } else {
            newline_from(data, from + 1)
        }
    } else {
        from
    }
}

proof fn lemma_skip_ws_bounds(data: Seq<u8>, from: int)
    requires
        0 <= from <= data.len(),
    ensures
        from <= skip_ws(data, from) <= data.len(),
    decreases data.len() - from,
{
    if from < data.len() && is_space_or_tab(data[from]) {
        lemma_skip_ws_bounds(data, from + 1);
    }
}

proof fn lemma_digits_end_bounds(data: Seq<u8>, from: int)
    requires
        0 <= from <= data.len(),
    ensures
        from <= digits_end(data, from) <= data.len(),
    decreases data.len() - from,
{
    if from < data.len() && is_ascii_digit(data[from]) {
        lemma_digits_end_bounds(data, from + 1);
    }
}

proof fn lemma_newline_from(data: Seq<u8>, from: int)
    requires
        0 <= from <= data.len(),
    ensures
        from <= newline_from(data, from) <= data.len(),
        forall|j: int| from <= j < newline_from(data, from) ==> data[j] != 10,
        newline_from(data, from) == data.len() || data[newline_from(data, from)] == 10,
    decreases data.len() - from,
{
    if from < data.len() && data[from] != 10 {
        lemma_newline_from(data, from + 1);
    }
}

/// A whitespace run from `a` to `b` ends the skip exactly at `b`.
pub proof fn lemma_skip_ws_run(data: Seq<u8>, a: int, b: int)
    requires
        0 <= a <= b <= data.len(),
        forall|j: int| a <= j < b ==> is_space_or_tab(#[trigger] data[j]),
        b == data.len() || !is_space_or_tab(data[b]),
    ensures
        skip_ws(data, a) == b,
    decreases b - a,
{
    if a < b {
        lemma_skip_ws_run(data, a + 1, b);
    }
}

/// A digit run from `a` to `b` ends the digit scan exactly at `b`.
pub proof fn lemma_digits_end_run(data: Seq<u8>, a: int, b: int)
    requires
        0 <= a <= b <= data.len(),
        forall|j: int| a <= j < b ==> is_ascii_digit(#[trigger] data[j]),
        b == data.len() || !is_ascii_digit(data[b]),
    ensures
        digits_end(data, a) == b,
    decreases b - a,
{
    if a < b {
        lemma_digits_end_run(data, a + 1, b);
    }
}

/// The line feed at `nl`, with none before it, is the one the skip finds.
pub proof fn lemma_newline_at(data: Seq<u8>, a: int, nl: int)
    requires
        0 <= a <= nl < data.len(),
        forall|j: int| a <= j < nl ==> (#[trigger] data[j]) != 10,
        data[nl] == 10,
    ensures
        newline_from(data, a) == nl,
    decreases nl - a,
{
    if a < nl {
        lemma_newline_at(data, a + 1, nl);
    }
}

/// Lowest pattern index at or after `k` whose field is still unset (zero)
/// and whose pattern occurs at position `pos` of the buffer.
pub open spec fn first_pending_match(
    data: Seq<u8>,
    pats: Seq<Seq<u8>>,
    fields: Seq<u64>,
    pos: int,
    k: int,
) -> Option<int>
    decreases pats.len() - k,
{
    if k >= pats.len() {
        None
    } else if fields[k] == 0 && spec_matches_at(data.subrange(pos, data.len() as int), pats[k]) {
        Some(k)
    } else {
        first_pending_match(data, pats, fields, pos, k + 1)
    }
}

pub proof fn lemma_first_pending_props(
    data: Seq<u8>,
    pats: Seq<Seq<u8>>,
    fields: Seq<u64>,
    pos: int,
    k: int,
    j: int,
)
    requires
        0 <= k,
        first_pending_match(data, pats, fields, pos, k) == Some(j),
    ensures
        k <= j < pats.len(),
        fields[j] == 0,
        spec_matches_at(data.subrange(pos, data.len() as int), pats[j]),
    decreases pats.len() - k,
{
    if k < pats.len() && !(fields[k] == 0 && spec_matches_at(
        data.subrange(pos, data.len() as int),
        pats[k],
    )) {
        lemma_first_pending_props(data, pats, fields, pos, k + 1, j);
    }
}

/// The search skips over patterns whose fields are already set.
pub proof fn lemma_first_pending_skip(
    data: Seq<u8>,
    pats: Seq<Seq<u8>>,
    fields: Seq<u64>,
    pos: int,
    k: int,
    i: int,
)
    requires
        0 <= k <= i <= pats.len(),
        forall|j: int| k <= j < i ==> (#[trigger] fields[j]) != 0,
    ensures
        first_pending_match(data, pats, fields, pos, k) == first_pending_match(
            data,
            pats,
            fields,
            pos,
            i,
        ),
    decreases i - k,
{
    if k < i {
        lemma_first_pending_skip(data, pats, fields, pos, k + 1, i);
    }
}

/// With every remaining pattern either filled or absent at `pos`, the
/// search finds nothing.
pub proof fn lemma_first_pending_none(
    data: Seq<u8>,
    pats: Seq<Seq<u8>>,
    fields: Seq<u64>,
    pos: int,
    k: int,
)
    requires
        0 <= k,
        forall|j: int|
            k <= j < pats.len() ==> (#[trigger] fields[j]) != 0 || !spec_matches_at(
                data.subrange(pos, data.len() as int),
                pats[j],
            ),
    ensures
        first_pending_match(data, pats, fields, pos, k) is None,
    decreases pats.len() - k,
{
    if k < pats.len() {
        lemma_first_pending_none(data, pats, fields, pos, k + 1);
    }
}

/// What one scan step at `pos` yields: the index of the field that is
/// filled, the parsed value, and the position just past its digits — or
/// `None` when no pending pattern matches here, the pattern demands a line
/// start that `pos` is not, or no digits follow the matched label.
pub open spec fn scan_action(
    data: Seq<u8>,
    pats: Seq<Seq<u8>>,
    line_start: Seq<bool>,
    fields: Seq<u64>,
    pos: int,
) -> Option<(int, u64, int)> {
    match first_pending_match(data, pats, fields, pos, 0) {
        None => None,
        Some(k) => {
            if line_start[k] && !(pos == 0 || data[pos - 1] == 10) {
                None
            } else {
                let start = skip_ws(data, pos + pats[k].len());
                let end = digits_end(data, start);
                if end > start {
                    Some((k, dec_value_wrapped(data.subrange(start, end)), end))
                } else {
                    None
                }
            }
        },
    }
}

/// The single pass from `pos` with the fields gathered so far: each step
/// either fills a field and resumes just past its digits, or advances past
/// the next line feed; the pass ends at the end of the buffer, when every
/// field has been filled once, or when no line feed remains.
pub open spec fn scan_from(
    data: Seq<u8>,
    pats: Seq<Seq<u8>>,
    line_start: Seq<bool>,
    pos: int,
    fields: Seq<u64>,
    found: int,
) -> Seq<u64>
    decreases data.len() - pos,
{
    if pos >= data.len() || found >= pats.len() {
        fields
    } else {
        match scan_action(data, pats, line_start, fields, pos) {
            Some(act) => {
                if pos < act.2 <= data.len() {
                    scan_from(data, pats, line_start, act.2, fields.update(act.0, act.1), found + 1)
                } else {
                    fields
                }
            },
            None => {
                let nf = newline_from(data, pos);
                if pos <= nf < data.len() {
                    scan_from(data, pats, line_start, nf + 1, fields, found)
                } else {
                    fields
                }
            },
        }
    }
}

/// Result of scanning a whole buffer with all fields initially unset.
pub open spec fn spec_scan_fields(data: Seq<u8>, pats: Seq<Seq<u8>>, line_start: Seq<bool>) -> Seq<
    u64,
> {
    scan_from(data, pats, line_start, 0, Seq::new(pats.len(), |i: int| 0u64), 0)
}

/// Whether a byte sequence starts with a given byte pattern.
pub fn matches_at(data: &[u8], pattern: &[u8]) -> (r: bool)
    ensures
        r == spec_matches_at(data@, pattern@),
{
    if data.len() < pattern.len() {
        return false;
    }
    let mut i: usize = 0;
    while i < pattern.len()
        invariant
            i <= pattern.len() <= data.len(),
            forall|j: int| 0 <= j < i ==> data@[j] == pattern@[j],
        decreases pattern.len() - i,
    {
        if data[i] != pattern[i] {
            proof {
                assert(data@.subrange(0, pattern@.len() as int)[i as int] == data@[i as int]);
            }
            return false;
        }
        i = i + 1;
    }
    proof {
        assert(data@.subrange(0, pattern@.len() as int) =~= pattern@);
    }
    true
}

/// Parses a decimal number that follows `offset` in `data`: skips spaces and
/// tabs, then accumulates ASCII digits into a `u64` (wrapping modulo `2^64`
/// on overflow, as the accumulation loop does). Returns the value and the
/// index just past the digits, or `None` when no digit follows.
pub fn parse_number_after(data: &[u8], offset: usize) -> (r: Option<(u64, usize)>)
    ensures
        ({
            let start = skip_ws(data@, offset as int);
            let end = digits_end(data@, start);
            &&& (end > start ==> r == Some::<(u64, usize)>((
                dec_value_wrapped(data@.subrange(start, end)),
                end as usize,
            )))
            &&& (end <= start ==> r is None)
        }),
{
    if data.len() < offset {
        return None;
    }
    let mut pos: usize = offset;
    while pos < data.len() && (data[pos] == 32 || data[pos] == 9)
        invariant
            offset <= pos <= data.len(),
            skip_ws(data@, offset as int) == skip_ws(data@, pos as int),
        decreases data.len() - pos,
    {
        pos = pos + 1;
    }
    let start: usize = pos;
    let mut value: u64 = 0;
    while pos < data.len() && data[pos] >= 48 && data[pos] <= 57
        invariant
            start <= pos <= data.len(),
            digits_end(data@, start as int) == digits_end(data@, pos as int),
            value == dec_value_wrapped(data@.subrange(start as int, pos as int)),
        decreases data.len() - pos,
    {
        let d: u8 = data[pos] - 48;
        value = value.wrapping_mul(10).wrapping_add(d as u64);
        pos = pos + 1;
        proof {
            assert(data@.subrange(start as int, pos as int).drop_last() =~= data@.subrange(
                start as int,
                pos as int - 1,
            ));
        }
    }
    if pos > start {
        Some((value, pos))
    } else {
        None
    }
}

/// Lowest pattern index whose field is still unset and whose pattern
/// occurs at `pos`.
fn first_pending(data: &[u8], pos: usize, patterns: &[&[u8]], fields: &[u64]) -> (r: Option<usize>)
    requires
        pos <= data@.len(),
        fields@.len() == patterns@.len(),
    ensures
        ({
            let m = first_pending_match(data@, patterns.deep_view(), fields@, pos as int, 0);
            match r {
                Some(k) => k < patterns@.len() && m == Some(k as int),
                None => m is None,
            }
        }),
{
    let ghost pats: Seq<Seq<u8>> = patterns.deep_view();
    let n = patterns.len();
    let mut k: usize = 0;
    while k < n
        invariant
            k <= n,
            n == patterns@.len(),
            fields@.len() == patterns@.len(),
            pos <= data@.len(),
            pats == patterns.deep_view(),
            first_pending_match(data@, pats, fields@, pos as int, 0) == first_pending_match(
                data@,
                pats,
                fields@,
                pos as int,
                k as int,
            ),
        decreases n - k,
    {
        proof {
            assert(pats[k as int] == patterns@[k as int]@);
        }
        if fields[k] == 0 && matches_at(
            vstd::slice::slice_subrange(data, pos, data.len()),
            patterns[k],
        ) {
            return Some(k);
        }
        k = k + 1;
    }
    None
}

/// One linear pass over `data` filling one `u64` per pattern into the
/// caller's buffer, each field initially zero; nothing is allocated. A
/// pattern whose `line_start` flag is set is only honoured at the start of
/// the buffer or right after a line feed; every pattern is filled at most
/// once; the pass stops early once all fields are filled.
pub fn scan_fields_into(
    data: &[u8],
    patterns: &[&[u8]],
    line_start: &[bool],
    fields: &mut [u64],
)
    requires
        patterns@.len() == line_start@.len(),
        old(fields)@.len() == patterns@.len(),
        forall|j: int| 0 <= j < old(fields)@.len() ==> old(fields)@[j] == 0u64,
    ensures
        final(fields)@ == spec_scan_fields(data@, patterns.deep_view(), line_start@),
{
    let ghost pats: Seq<Seq<u8>> = patterns.deep_view();
    let n: usize = patterns.len();
    proof {
        assert(old(fields)@ =~= Seq::new(pats.len(), |q: int| 0u64));
    }
    let mut pos: usize = 0;
    let mut found: usize = 0;
    while pos < data.len() && found < n
        invariant
            pos <= data@.len(),
            found <= n,
            n == patterns@.len(),
            n == line_start@.len(),
            fields@.len() == n,
            pats == patterns.deep_view(),
            scan_from(data@, pats, line_start@, 0, Seq::new(pats.len(), |q: int| 0u64), 0)
                == scan_from(data@, pats, line_start@, pos as int, fields@, found as int),
        ensures
            scan_from(data@, pats, line_start@, 0, Seq::new(pats.len(), |q: int| 0u64), 0)
                == fields@,
        decreases data@.len() - pos,
    {
        let m = first_pending(data, pos, patterns, fields);
        if let Some(k) = m {
            proof {
                assert(pats[k as int] == patterns@[k as int]@);
            }
            if !line_start[k] || pos == 0 || data[pos - 1] == 10 {
                let patlen: usize = patterns[k].len();
                proof {
                    lemma_first_pending_props(data@, pats, fields@, pos as int, 0, k as int);
                    assert(pos + patlen <= data@.len());
                }
                if let Some(vp) = parse_number_after(data, pos + patlen) {
                    proof {
                        lemma_skip_ws_bounds(data@, pos as int + patlen as int);
                        lemma_digits_end_bounds(
                            data@,
                            skip_ws(data@, pos as int + patlen as int),
                        );
                        assert(scan_action(data@, pats, line_start@, fields@, pos as int)
                            == Some((k as int, vp.0, vp.1 as int)));
                    }
                    fields[k] = vp.0;
                    found = found + 1;
                    pos = vp.1;
                    continue ;
                }
            }
        }
        proof {
            assert(scan_action(data@, pats, line_start@, fields@, pos as int) is None);
            lemma_newline_from(data@, pos as int);
        }
        match find_newline(data, pos) {
            Some(nl) => {
                pos = pos + nl + 1;
            },
            None => {
                proof {
                    assert(newline_from(data@, pos as int) == data@.len());
                }
                break ;
            },
        }
    }
}

/// The scanner over growable pattern lists: one `u64` per pattern, as
/// `scan_fields_into` fills them.
pub fn scan_fields(data: &[u8], patterns: &Vec<Vec<u8>>, line_start: &Vec<bool>) -> (r: Vec<u64>)
    requires
        patterns@.len() == line_start@.len(),
    ensures
        r@ == spec_scan_fields(data@, patterns.deep_view(), line_start@),
{
    let n: usize = patterns.len();
    let mut refs: Vec<&[u8]> = Vec::new();
    let mut fields: Vec<u64> = Vec::new();
    let mut i: usize = 0;
    while i < n
        invariant
            i <= n,
            n == patterns@.len(),
            refs@.len() == i,
            fields@.len() == i,
            forall|j: int| 0 <= j < i ==> fields@[j] == 0u64,
            forall|j: int| 0 <= j < i ==> refs@[j]@ == patterns@[j]@,
        decreases n - i,
    {
        refs.push(patterns[i].as_slice());
        fields.push(0);
        i = i + 1;
    }
    proof {
        assert(refs.deep_view() =~~= patterns.deep_view());
    }
    scan_fields_into(data, refs.as_slice(), line_start.as_slice(), fields.as_mut_slice());
    fields
}

/// First line feed at or after `pos`, as an offset from `pos`.
pub fn find_newline(data: &[u8], pos: usize) -> (r: Option<usize>)
    requires
        pos <= data@.len(),
    ensures
        match r {
            Some(i) => pos + i < data@.len() && newline_from(data@, pos as int) == pos + i,
            None => newline_from(data@, pos as int) == data@.len(),
        },
{
    let rest = vstd::slice::slice_subrange(data, pos, data.len());
    let r = crate::search::find_byte(rest, 10);
    proof {
        lemma_newline_from(data@, pos as int);
        if let Some(i) = r {
            assert(rest@[i as int] == data@[pos + i]);
            assert(forall|j: int| pos <= j < pos + i ==> data@[j] == rest@[j - pos]);
        } else {
            assert(forall|j: int| pos <= j < data@.len() ==> data@[j] == rest@[j - pos]);
        }
    }
    r
}

} // verus!

