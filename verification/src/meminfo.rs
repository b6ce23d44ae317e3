//! Memory statistics from a `/proc/meminfo`-shaped buffer: one scanner
//! pass for the six labels, then the used-memory formula
//! `used = total - free - buffers - cached - reclaimable (clamped at zero) + shared`,
//! in kB, converted to bytes.

use vstd::prelude::*;
use vstd::wrapping::u64_specs;
use crate::scan::{
    spec_scan_fields, scan_fields_into, scan_from, scan_action, first_pending_match, newline_from,
    spec_matches_at, dec_bytes, dec_value_wrapped, lemma_dec_bytes_props, lemma_dec_value_small,
    lemma_skip_ws_run, lemma_digits_end_run, lemma_newline_at, lemma_first_pending_skip,
    lemma_first_pending_none, is_ascii_digit,
};

verus! {

pub open spec fn pat_mem_total() -> Seq<u8> {
    seq![
        'M' as u8,
        'e' as u8,
        'm' as u8,
        'T' as u8,
        'o' as u8,
        't' as u8,
        'a' as u8,
        'l' as u8,
        ':' as u8,
    ]
}

pub open spec fn pat_mem_free() -> Seq<u8> {
    seq!['M' as u8, 'e' as u8, 'm' as u8, 'F' as u8, 'r' as u8, 'e' as u8, 'e' as u8, ':' as u8]
}

pub open spec fn pat_buffers() -> Seq<u8> {
    seq!['B' as u8, 'u' as u8, 'f' as u8, 'f' as u8, 'e' as u8, 'r' as u8, 's' as u8, ':' as u8]
}

pub open spec fn pat_cached() -> Seq<u8> {
    seq!['C' as u8, 'a' as u8, 'c' as u8, 'h' as u8, 'e' as u8, 'd' as u8, ':' as u8]
}

pub open spec fn pat_sreclaimable() -> Seq<u8> {
    seq![
        'S' as u8,
        'R' as u8,
        'e' as u8,
        'c' as u8,
        'l' as u8,
        'a' as u8,
        'i' as u8,
        'm' as u8,
        'a' as u8,
        'b' as u8,
        'l' as u8,
        'e' as u8,
        ':' as u8,
    ]
}

pub open spec fn pat_shmem() -> Seq<u8> {
    seq!['S' as u8, 'h' as u8, 'm' as u8, 'e' as u8, 'm' as u8, ':' as u8]
}

/// The six labels of the memory scan, in the order the scanner tries them.
pub open spec fn meminfo_patterns() -> Seq<Seq<u8>> {
    seq![
        pat_mem_total(),
        pat_mem_free(),
        pat_buffers(),
        pat_cached(),
        pat_sreclaimable(),
        pat_shmem(),
    ]
}

/// Only `Cached:` must stand at a line start: it is a suffix of
/// `SwapCached:`, which must not feed it.
pub open spec fn meminfo_line_start() -> Seq<bool> {
    seq![false, false, false, true, false, false]
}

/// The six field values (total, free, buffers, cached, reclaimable, shared,
/// in kB) that one scanner pass extracts; a missing label stays zero.
pub open spec fn spec_meminfo_fields(data: Seq<u8>) -> Seq<u64> {
    spec_scan_fields(data, meminfo_patterns(), meminfo_line_start())
}

/// Used memory in kB, as the accumulation computes it: the sum of the
/// non-used fields wraps modulo `2^64`, the difference is clamped at zero,
/// and the shared pages are added back (wrapping).
pub open spec fn spec_used_kb(
    total: u64,
    free: u64,
    buffers: u64,
    cached: u64,
    sreclaimable: u64,
    shmem: u64,
) -> u64 {
    if total > 0 {
        let non_used = u64_specs::wrapping_add(
            u64_specs::wrapping_add(u64_specs::wrapping_add(free, buffers), cached),
            sreclaimable,
        );
        let base = if total > non_used {
            (total - non_used) as u64
        } else {
            0u64
        };
        u64_specs::wrapping_add(base, shmem)
    } else {
        0u64
    }
}

/// What the memory parse returns for a buffer: (used bytes, total bytes).
pub open spec fn spec_meminfo_result(data: Seq<u8>) -> (u64, u64) {
    let f = spec_meminfo_fields(data);
    (
        u64_specs::wrapping_mul(spec_used_kb(f[0], f[1], f[2], f[3], f[4], f[5]), 1024),
        u64_specs::wrapping_mul(f[0], 1024),
    )
}

proof fn lemma_scan_from_len(
    data: Seq<u8>,
    pats: Seq<Seq<u8>>,
    line_start: Seq<bool>,
    pos: int,
    fields: Seq<u64>,
    found: int,
)
    requires
        fields.len() == pats.len(),
    ensures
        scan_from(data, pats, line_start, pos, fields, found).len() == fields.len(),
    decreases data.len() - pos,
{
    if !(pos >= data.len() || found >= pats.len()) {
        match scan_action(data, pats, line_start, fields, pos) {
            Some(act) => {
                match first_pending_match(data, pats, fields, pos, 0) {
                    Some(k) => crate::scan::lemma_first_pending_props(
                        data,
                        pats,
                        fields,
                        pos,
                        0,
                        k,
                    ),
                    None => (),
                }
                if pos < act.2 <= data.len() {
                    lemma_scan_from_len(
                        data,
                        pats,
                        line_start,
                        act.2,
                        fields.update(act.0, act.1),
                        found + 1,
                    );
                }
            },
            None => {
                let nf = newline_from(data, pos);
                if pos <= nf < data.len() {
                    lemma_scan_from_len(data, pats, line_start, nf + 1, fields, found);
                }
            },
        }
    }
}

/// The scanner's result is a function of the buffer contents alone: equal
/// buffers yield equal field values, so a second pass over the same input
/// repeats the first — there is no cross-call state.
pub proof fn lemma_scanner_stateless(d1: Seq<u8>, d2: Seq<u8>)
    requires
        d1 == d2,
    ensures
        spec_meminfo_fields(d1) == spec_meminfo_fields(d2),
        spec_meminfo_result(d1) == spec_meminfo_result(d2),
{
}

/// One canonical meminfo line: the label, one space, the value's decimal
/// digits, then ` kB` and a line feed.
pub open spec fn mem_line(pat: Seq<u8>, v: u64) -> Seq<u8> {
    pat + seq![32u8] + dec_bytes(v as nat) + seq![32u8, 107u8, 66u8, 10u8]
}

/// A canonical six-field meminfo buffer, one line per label in scan order.
pub open spec fn mem_buffer(
    total: u64,
    free: u64,
    buffers: u64,
    cached: u64,
    sreclaimable: u64,
    shmem: u64,
) -> Seq<u8> {
    mem_line(pat_mem_total(), total) + mem_line(pat_mem_free(), free) + mem_line(
        pat_buffers(),
        buffers,
    ) + mem_line(pat_cached(), cached) + mem_line(pat_sreclaimable(), sreclaimable) + mem_line(
        pat_shmem(),
        shmem,
    )
}

proof fn lemma_split_concat(data: Seq<u8>, x: Seq<u8>, y: Seq<u8>, off: int)
    requires
        0 <= off,
        off + x.len() + y.len() <= data.len(),
        data.subrange(off, off + x.len() + y.len()) == x + y,
    ensures
        data.subrange(off, off + x.len() as int) == x,
        data.subrange(off + x.len(), off + x.len() + y.len()) == y,
{
    assert forall|q: int|
        0 <= q < x.len() implies data.subrange(off, off + x.len() as int)[q] == x[q] by {
        assert(data.subrange(off, off + x.len() + y.len())[q] == (x + y)[q]);
    }
    assert(data.subrange(off, off + x.len() as int) =~= x);
    assert forall|q: int|
        0 <= q < y.len() implies data.subrange(off + x.len(), off + x.len() + y.len())[q] == y[q] by {
        assert(data.subrange(off, off + x.len() + y.len())[x.len() + q] == data[off + x.len()
            + q]);
        assert((x + y)[x.len() + q] == y[q]);
        assert(data.subrange(off + x.len(), off + x.len() + y.len())[q] == data[off + x.len()
            + q]);
    }
    assert(data.subrange(off + x.len(), off + x.len() + y.len()) =~= y);
}

proof fn lemma_mem_line_last(pat: Seq<u8>, v: u64)
    ensures
        mem_line(pat, v).len() == pat.len() + dec_bytes(v as nat).len() + 5,
        mem_line(pat, v)[mem_line(pat, v).len() - 1] == 10,
{
    lemma_dec_bytes_props(v as nat);
}

proof fn lemma_scan_canonical_step(data: Seq<u8>, pos: int, fields: Seq<u64>, i: int, v: u64)
    requires
        fields.len() == 6,
        0 <= i < 6,
        v > 0,
        forall|j: int| 0 <= j < i ==> (#[trigger] fields[j]) != 0,
        forall|j: int| i <= j < 6 ==> (#[trigger] fields[j]) == 0,
        0 <= pos,
        pos + mem_line(meminfo_patterns()[i], v).len() <= data.len(),
        data.subrange(pos, pos + mem_line(meminfo_patterns()[i], v).len() as int) == mem_line(
            meminfo_patterns()[i],
            v,
        ),
        pos == 0 || data[pos - 1] == 10,
    ensures
        scan_from(data, meminfo_patterns(), meminfo_line_start(), pos, fields, i) == scan_from(
            data,
            meminfo_patterns(),
            meminfo_line_start(),
            pos + mem_line(meminfo_patterns()[i], v).len() as int,
            fields.update(i, v),
            i + 1,
        ),
{
    let pats = meminfo_patterns();
    let ls = meminfo_line_start();
    let pat = pats[i];
    let plen = pat.len() as int;
    lemma_dec_bytes_props(v as nat);
    let digits = dec_bytes(v as nat);
    let dlen = digits.len() as int;
    let line = mem_line(pat, v);
    let llen = line.len() as int;
    assert(llen == plen + dlen + 5);
    assert forall|q: int| 0 <= q < llen implies data[pos + q] == line[q] by {
        assert(data.subrange(pos, pos + llen)[q] == data[pos + q]);
    }
    // the label occurs at pos
    assert(spec_matches_at(data.subrange(pos, data.len() as int), pat)) by {
        assert forall|q: int| 0 <= q < plen implies data.subrange(pos, data.len() as int)[q]
            == pat[q] by {
            assert(line[q] == pat[q]);
        }
        assert(data.subrange(pos, data.len() as int).subrange(0, plen) =~= pat);
    }
    // the search lands on pattern i: every earlier field is set
    lemma_first_pending_skip(data, pats, fields, pos, 0, i);
    assert(first_pending_match(data, pats, fields, pos, i) == Some(i));
    // one space, then the digits, then a space again
    assert(data[pos + plen] == 32) by {
        assert(line[plen] == 32);
    }
    assert forall|q: int| 0 <= q < dlen implies data[pos + plen + 1 + q] == digits[q] by {
        assert(line[plen + 1 + q] == digits[q]);
    }
    assert(data[pos + plen + 1 + dlen] == 32) by {
        assert(line[plen + 1 + dlen] == 32);
    }
    let ds = pos + plen + 1;
    let de = ds + dlen;
    assert forall|j: int| ds <= j < de implies is_ascii_digit(#[trigger] data[j]) by {
        assert(data[pos + plen + 1 + (j - ds)] == digits[j - ds]);
        assert(is_ascii_digit(digits[j - ds]));
    }
    assert(is_ascii_digit(data[ds]));
    lemma_skip_ws_run(data, pos + plen, ds);
    lemma_digits_end_run(data, ds, de);
    assert(data.subrange(ds, de) =~= digits);
    lemma_dec_value_small(digits);
    assert(dec_value_wrapped(data.subrange(ds, de)) == v);
    assert(scan_action(data, pats, ls, fields, pos) == Some((i, v, de)));
    let updated = fields.update(i, v);
    assert(scan_from(data, pats, ls, pos, fields, i) == scan_from(data, pats, ls, de, updated, i + 1));
    // past the digits the line reads ` kB` and ends; nothing matches there
    if i + 1 < 6 {
        assert forall|j: int|
            0 <= j < pats.len() implies (#[trigger] updated[j]) != 0 || !spec_matches_at(
            data.subrange(de, data.len() as int),
            pats[j],
        ) by {
            if j > i {
                assert(pats[j].len() >= 1);
                assert(pats[j][0] != 32);
                if spec_matches_at(data.subrange(de, data.len() as int), pats[j]) {
                    assert(data.subrange(de, data.len() as int).subrange(0, pats[j].len() as int)[0]
                        == data[de]);
                }
            }
        }
        lemma_first_pending_none(data, pats, updated, de, 0);
        assert(scan_action(data, pats, ls, updated, de) is None);
        assert(data[de + 1] == 107) by {
            assert(line[plen + 2 + dlen] == 107);
        }
        assert(data[de + 2] == 66) by {
            assert(line[plen + 3 + dlen] == 66);
        }
        assert(data[de + 3] == 10) by {
            assert(line[plen + 4 + dlen] == 10);
        }
        lemma_newline_at(data, de, de + 3);
        assert(scan_from(data, pats, ls, de, updated, i + 1) == scan_from(
            data,
            pats,
            ls,
            de + 4,
            updated,
            i + 1,
        ));
        assert(de + 4 == pos + llen);
    } else {
        assert(scan_from(data, pats, ls, de, updated, i + 1) == updated);
        assert(scan_from(data, pats, ls, pos + llen, updated, i + 1) == updated);
    }
}

#[verifier::rlimit(100)]
proof fn lemma_buffer_layout(
    total: u64,
    free: u64,
    buffers: u64,
    cached: u64,
    sreclaimable: u64,
    shmem: u64,
)
    ensures
        ({
            let l0 = mem_line(pat_mem_total(), total);
            let l1 = mem_line(pat_mem_free(), free);
            let l2 = mem_line(pat_buffers(), buffers);
            let l3 = mem_line(pat_cached(), cached);
            let l4 = mem_line(pat_sreclaimable(), sreclaimable);
            let l5 = mem_line(pat_shmem(), shmem);
            let data = mem_buffer(total, free, buffers, cached, sreclaimable, shmem);
            let p1 = l0.len() as int;
            let p2 = p1 + l1.len();
            let p3 = p2 + l2.len();
            let p4 = p3 + l3.len();
            let p5 = p4 + l4.len();
            let p6 = p5 + l5.len();
            &&& data.len() == p6
            &&& data.subrange(0, p1) == l0
            &&& data.subrange(p1, p2) == l1
            &&& data.subrange(p2, p3) == l2
            &&& data.subrange(p3, p4) == l3
            &&& data.subrange(p4, p5) == l4
            &&& data.subrange(p5, p6) == l5
            &&& data[p1 - 1] == 10
            &&& data[p2 - 1] == 10
            &&& data[p3 - 1] == 10
            &&& data[p4 - 1] == 10
            &&& data[p5 - 1] == 10
        }),
{
    let l0 = mem_line(pat_mem_total(), total);
    let l1 = mem_line(pat_mem_free(), free);
    let l2 = mem_line(pat_buffers(), buffers);
    let l3 = mem_line(pat_cached(), cached);
    let l4 = mem_line(pat_sreclaimable(), sreclaimable);
    let l5 = mem_line(pat_shmem(), shmem);
    let data = mem_buffer(total, free, buffers, cached, sreclaimable, shmem);
    let p1 = l0.len() as int;
    let p2 = p1 + l1.len();
    let p3 = p2 + l2.len();
    let p4 = p3 + l3.len();
    let p5 = p4 + l4.len();
    let p6 = p5 + l5.len();
    assert(data == l0 + l1 + l2 + l3 + l4 + l5);
    assert(data.subrange(0, p6) =~= data);
    lemma_split_concat(data, l0 + l1 + l2 + l3 + l4, l5, 0);
    lemma_split_concat(data, l0 + l1 + l2 + l3, l4, 0);
    lemma_split_concat(data, l0 + l1 + l2, l3, 0);
    lemma_split_concat(data, l0 + l1, l2, 0);
    lemma_split_concat(data, l0, l1, 0);
    lemma_mem_line_last(pat_mem_total(), total);
    lemma_mem_line_last(pat_mem_free(), free);
    lemma_mem_line_last(pat_buffers(), buffers);
    lemma_mem_line_last(pat_cached(), cached);
    lemma_mem_line_last(pat_sreclaimable(), sreclaimable);
    assert(data[p1 - 1] == 10) by {
        assert(data.subrange(0, p1)[p1 - 1] == l0[l0.len() - 1]);
    }
    assert(data[p2 - 1] == 10) by {
        assert(data.subrange(p1, p2)[p2 - 1 - p1] == l1[l1.len() - 1]);
    }
    assert(data[p3 - 1] == 10) by {
        assert(data.subrange(p2, p3)[p3 - 1 - p2] == l2[l2.len() - 1]);
    }
    assert(data[p4 - 1] == 10) by {
        assert(data.subrange(p3, p4)[p4 - 1 - p3] == l3[l3.len() - 1]);
    }
    assert(data[p5 - 1] == 10) by {
        assert(data.subrange(p4, p5)[p5 - 1 - p4] == l4[l4.len() - 1]);
    }
}

#[verifier::rlimit(100)]
proof fn lemma_canonical_front(
    total: u64,
    free: u64,
    buffers: u64,
    cached: u64,
    sreclaimable: u64,
    shmem: u64,
)
    requires
        total > 0,
        free > 0,
        buffers > 0,
    ensures
        ({
            let data = mem_buffer(total, free, buffers, cached, sreclaimable, shmem);
            let p3 = mem_line(pat_mem_total(), total).len() + mem_line(pat_mem_free(), free).len()
                + mem_line(pat_buffers(), buffers).len();
            let f3 = Seq::new(6, |q: int| 0u64).update(0, total).update(1, free).update(2, buffers);
            scan_from(
                data,
                meminfo_patterns(),
                meminfo_line_start(),
                0,
                Seq::new(6, |q: int| 0u64),
                0,
            ) == scan_from(data, meminfo_patterns(), meminfo_line_start(), p3 as int, f3, 3)
        }),
{
    let pats = meminfo_patterns();
    let l0 = mem_line(pat_mem_total(), total);
    let l1 = mem_line(pat_mem_free(), free);
    let l2 = mem_line(pat_buffers(), buffers);
    let data = mem_buffer(total, free, buffers, cached, sreclaimable, shmem);
    let p0: int = 0;
    let p1 = p0 + l0.len();
    let p2 = p1 + l1.len();
    let p3 = p2 + l2.len();
    lemma_buffer_layout(total, free, buffers, cached, sreclaimable, shmem);
    let f0 = Seq::new(6, |q: int| 0u64);
    assert(pats[0] == pat_mem_total());
    assert(pats[1] == pat_mem_free());
    assert(pats[2] == pat_buffers());
    lemma_scan_canonical_step(data, p0, f0, 0, total);
    let f1 = f0.update(0, total);
    lemma_scan_canonical_step(data, p1, f1, 1, free);
    let f2 = f1.update(1, free);
    lemma_scan_canonical_step(data, p2, f2, 2, buffers);
}

#[verifier::rlimit(100)]
proof fn lemma_canonical_back(
    total: u64,
    free: u64,
    buffers: u64,
    cached: u64,
    sreclaimable: u64,
    shmem: u64,
)
    requires
        total > 0,
        free > 0,
        buffers > 0,
        cached > 0,
        sreclaimable > 0,
        shmem > 0,
    ensures
        ({
            let data = mem_buffer(total, free, buffers, cached, sreclaimable, shmem);
            let p3 = mem_line(pat_mem_total(), total).len() + mem_line(pat_mem_free(), free).len()
                + mem_line(pat_buffers(), buffers).len();
            let f3 = Seq::new(6, |q: int| 0u64).update(0, total).update(1, free).update(2, buffers);
            scan_from(data, meminfo_patterns(), meminfo_line_start(), p3 as int, f3, 3) == seq![
                total,
                free,
                buffers,
                cached,
                sreclaimable,
                shmem,
            ]
        }),
{
    let pats = meminfo_patterns();
    let ls = meminfo_line_start();
    let l0 = mem_line(pat_mem_total(), total);
    let l1 = mem_line(pat_mem_free(), free);
    let l2 = mem_line(pat_buffers(), buffers);
    let l3 = mem_line(pat_cached(), cached);
    let l4 = mem_line(pat_sreclaimable(), sreclaimable);
    let l5 = mem_line(pat_shmem(), shmem);
    let data = mem_buffer(total, free, buffers, cached, sreclaimable, shmem);
    let p3 = l0.len() as int + l1.len() + l2.len();
    let p4 = p3 + l3.len();
    let p5 = p4 + l4.len();
    let p6 = p5 + l5.len();
    lemma_buffer_layout(total, free, buffers, cached, sreclaimable, shmem);
    let f3 = Seq::new(6, |q: int| 0u64).update(0, total).update(1, free).update(2, buffers);
    assert(pats[3] == pat_cached());
    assert(pats[4] == pat_sreclaimable());
    assert(pats[5] == pat_shmem());
    lemma_scan_canonical_step(data, p3, f3, 3, cached);
    let f4 = f3.update(3, cached);
    lemma_scan_canonical_step(data, p4, f4, 4, sreclaimable);
    let f5 = f4.update(4, sreclaimable);
    lemma_scan_canonical_step(data, p5, f5, 5, shmem);
    let f6 = f5.update(5, shmem);
    assert(scan_from(data, pats, ls, p6, f6, 6) == f6);
    assert(f6 =~= seq![total, free, buffers, cached, sreclaimable, shmem]);
}

/// Scanning a canonical six-field buffer extracts exactly the six values.
/// This is the buffer-level form of the extraction: a buffer that holds
/// the six labels as line-start fields, in scan order, yields their
/// values. Zero values are excluded: zero is the scanner's not-yet-found
/// sentinel, so a zero field would stay open for a later match.
pub proof fn lemma_meminfo_canonical(
    total: u64,
    free: u64,
    buffers: u64,
    cached: u64,
    sreclaimable: u64,
    shmem: u64,
)
    requires
        total > 0,
        free > 0,
        buffers > 0,
        cached > 0,
        sreclaimable > 0,
        shmem > 0,
    ensures
        spec_meminfo_fields(mem_buffer(total, free, buffers, cached, sreclaimable, shmem))
            == seq![total, free, buffers, cached, sreclaimable, shmem],
{
    let pats = meminfo_patterns();
    lemma_canonical_front(total, free, buffers, cached, sreclaimable, shmem);
    lemma_canonical_back(total, free, buffers, cached, sreclaimable, shmem);
    assert(Seq::new(6, |q: int| 0u64) =~= Seq::new(pats.len(), |q: int| 0u64));
}

/// The buffer-level memory law: parsing a canonical six-field buffer
/// yields exactly the documented formula — used bytes are total minus
/// free, buffers, cached and reclaimable (clamped at zero) plus shared,
/// times 1024, and total bytes are the total times 1024 — provided no
/// step overflows a `u64`.
pub proof fn lemma_meminfo_buffer_values(
    total: u64,
    free: u64,
    buffers: u64,
    cached: u64,
    sreclaimable: u64,
    shmem: u64,
)
    requires
        total > 0,
        free > 0,
        buffers > 0,
        cached > 0,
        sreclaimable > 0,
        shmem > 0,
        free + buffers + cached + sreclaimable < 0x1_0000_0000_0000_0000,
        ({
            let non_used = free + buffers + cached + sreclaimable;
            let base: int = if total > non_used {
                total - non_used
            } else {
                0
            };
            (base + shmem) * 1024 < 0x1_0000_0000_0000_0000
        }),
        total * 1024 < 0x1_0000_0000_0000_0000,
    ensures
        ({
            let non_used = free + buffers + cached + sreclaimable;
            let base: int = if total > non_used {
                total - non_used
            } else {
                0
            };
            spec_meminfo_result(mem_buffer(total, free, buffers, cached, sreclaimable, shmem)) == (
                ((base + shmem) * 1024) as u64,
                (total * 1024) as u64,
            )
        }),
{
    lemma_meminfo_canonical(total, free, buffers, cached, sreclaimable, shmem);
    lemma_mem_formula(total, free, buffers, cached, sreclaimable, shmem);
}

/// Scans a `/proc/meminfo`-shaped buffer and returns
/// `(used bytes, total bytes)`. A buffer without a `MemTotal:` line yields
/// `(0, 0)`, which callers read as a failed parse. Everything lives on the
/// stack: no heap allocation beyond the caller's input buffer.
pub fn fast_parse_meminfo(data: &[u8]) -> (r: (u64, u64))
    ensures
        r == spec_meminfo_result(data@),
{
    let pat_total: [u8; 9] = [
        'M' as u8,
        'e' as u8,
        'm' as u8,
        'T' as u8,
        'o' as u8,
        't' as u8,
        'a' as u8,
        'l' as u8,
        ':' as u8,
    ];
    let pat_free: [u8; 8] = [
        'M' as u8,
        'e' as u8,
        'm' as u8,
        'F' as u8,
        'r' as u8,
        'e' as u8,
        'e' as u8,
        ':' as u8,
    ];
    let pat_buffers: [u8; 8] = [
        'B' as u8,
        'u' as u8,
        'f' as u8,
        'f' as u8,
        'e' as u8,
        'r' as u8,
        's' as u8,
        ':' as u8,
    ];
    let pat_cached: [u8; 7] = ['C' as u8, 'a' as u8, 'c' as u8, 'h' as u8, 'e' as u8, 'd' as u8, ':' as u8];
    let pat_sreclaimable: [u8; 13] = [
        'S' as u8,
        'R' as u8,
        'e' as u8,
        'c' as u8,
        'l' as u8,
        'a' as u8,
        'i' as u8,
        'm' as u8,
        'a' as u8,
        'b' as u8,
        'l' as u8,
        'e' as u8,
        ':' as u8,
    ];
    let pat_shmem: [u8; 6] = ['S' as u8, 'h' as u8, 'm' as u8, 'e' as u8, 'm' as u8, ':' as u8];
    let patterns: [&[u8]; 6] = [
        pat_total.as_slice(),
        pat_free.as_slice(),
        pat_buffers.as_slice(),
        pat_cached.as_slice(),
        pat_sreclaimable.as_slice(),
        pat_shmem.as_slice(),
    ];
    let line_start: [bool; 6] = [false, false, false, true, false, false];
    let mut fields: [u64; 6] = [0, 0, 0, 0, 0, 0];
    let pslice: &[&[u8]] = patterns.as_slice();
    let lslice: &[bool] = line_start.as_slice();
    proof {
        assert(pslice.deep_view() =~~= meminfo_patterns());
        assert(lslice@ =~= meminfo_line_start());
    }
    scan_fields_into(
        data,
        pslice,
        lslice,
        vstd::array::ref_mut_array_unsizing_coercion(&mut fields),
    );
    proof {
        lemma_scan_from_len(
            data@,
            meminfo_patterns(),
            meminfo_line_start(),
            0,
            Seq::new(meminfo_patterns().len(), |i: int| 0u64),
            0,
        );
    }
    let total: u64 = fields[0];

    let free: u64 = fields[1];
    let buffers: u64 = fields[2];
    let cached: u64 = fields[3];
    let sreclaimable: u64 = fields[4];
    let shmem: u64 = fields[5];

    let total_bytes: u64 = total.wrapping_mul(1024);
    let used_kb: u64 = if total > 0 {
        let non_used: u64 = free.wrapping_add(buffers).wrapping_add(cached).wrapping_add(
            sreclaimable,
        );
        let base: u64 = if total > non_used {
            total - non_used
        } else {
            0
        };
        base.wrapping_add(shmem)
    } else {
        0
    };
    let used_bytes: u64 = used_kb.wrapping_mul(1024);
    (used_bytes, total_bytes)
}

/// In the range where no step wraps, the used-memory computation is exactly
/// the documented formula: used kB is total minus free, buffers, cached and
/// reclaimable (clamped at zero), plus shared, and the byte count is the kB
/// count times 1024.
pub proof fn lemma_mem_formula(
    total: u64,
    free: u64,
    buffers: u64,
    cached: u64,
    sreclaimable: u64,
    shmem: u64,
)
    requires
        total > 0,
        free + buffers + cached + sreclaimable < 0x1_0000_0000_0000_0000,
        ({
            let non_used = free + buffers + cached + sreclaimable;
            let base: int = if total > non_used {
                total - non_used
            } else {
                0
            };
            (base + shmem) * 1024 < 0x1_0000_0000_0000_0000
        }),
    ensures
        ({
            let non_used = free + buffers + cached + sreclaimable;
            let base: int = if total > non_used {
                total - non_used
            } else {
                0
            };
            &&& spec_used_kb(total, free, buffers, cached, sreclaimable, shmem) == base + shmem
            &&& u64_specs::wrapping_mul(
                spec_used_kb(total, free, buffers, cached, sreclaimable, shmem),
                1024,
            ) == (base + shmem) * 1024
        }),
{
}

/// The fallback memory figures from raw sysinfo counters: total and free
/// RAM are the page counts times the unit size, used is their difference;
/// every step wraps modulo `2^64` as the machine arithmetic does.
pub fn memory_from_sysinfo(totalram: u64, freeram: u64, mem_unit: u32) -> (r: (u64, u64))
    ensures
        r.1 == u64_specs::wrapping_mul(totalram, mem_unit as u64),
        r.0 == u64_specs::wrapping_sub(
            u64_specs::wrapping_mul(totalram, mem_unit as u64),
            u64_specs::wrapping_mul(freeram, mem_unit as u64),
        ),
{
    let total: u64 = totalram.wrapping_mul(mem_unit as u64);
    let free: u64 = freeram.wrapping_mul(mem_unit as u64);
    (total.wrapping_sub(free), total)
}

} // verus!
