//! Fixed-layout display-descriptor decoding: header validation, the split
//! high/low-nibble resolution fields, and the joined multi-display label.
//!
//! The nibble convention followed here: byte 56 holds the low eight bits of
//! the horizontal count and the high nibble of byte 58 its upper four;
//! byte 57 holds the low eight bits of the vertical count and the low
//! nibble of byte 58 its upper four.

use vstd::prelude::*;
use crate::fmt::{spec_dec_digits, u64_to_string};

verus! {

/// A buffer long enough for one descriptor whose first eight bytes are the
/// fixed magic header `00 FF FF FF FF FF FF 00`.
pub open spec fn spec_edid_valid(d: Seq<u8>) -> bool {
    &&& d.len() >= 128
    &&& d[0] == 0x00
    &&& d[1] == 0xFF
    &&& d[2] == 0xFF
    &&& d[3] == 0xFF
    &&& d[4] == 0xFF
    &&& d[5] == 0xFF
    &&& d[6] == 0xFF
    &&& d[7] == 0x00
}

/// Horizontal pixel count: byte 56 plus the high nibble of byte 58 shifted
/// into the upper bits.
pub open spec fn spec_h_res(d: Seq<u8>) -> int {
    (d[58] / 16) * 256 + d[56]
}

/// Vertical pixel count: byte 57 plus the low nibble of byte 58 shifted
/// into the upper bits.
pub open spec fn spec_v_res(d: Seq<u8>) -> int {
    (d[58] % 16) * 256 + d[57]
}

/// What decoding a buffer yields: the two pixel counts when the descriptor
/// is valid and both are nonzero, else nothing — absent data, not an error.
pub open spec fn spec_decode(d: Seq<u8>) -> Option<(int, int)> {
    if spec_edid_valid(d) && spec_h_res(d) > 0 && spec_v_res(d) > 0 {
        Some((spec_h_res(d), spec_v_res(d)))
    } else {
        None
    }
}

/// The canonical descriptor bytes for a resolution pair: the magic header,
/// the split resolution bytes, and zeros elsewhere.
pub open spec fn spec_encode(h: int, v: int) -> Seq<u8> {
    Seq::new(
        128,
        |i: int|
            if 1 <= i <= 6 {
                0xFFu8
            } else if i == 56 {
                (h % 256) as u8
            } else if i == 57 {
                (v % 256) as u8
            } else if i == 58 {
                ((h / 256) * 16 + (v / 256)) as u8
            } else {
                0u8
            },
    )
}

/// Decoding the canonical descriptor of any resolution pair in range
/// reproduces that pair exactly.
pub proof fn lemma_edid_round_trip(h: int, v: int)
    requires
        1 <= h <= 4095,
        1 <= v <= 4095,
    ensures
        spec_decode(spec_encode(h, v)) == Some((h, v)),
{
    let d = spec_encode(h, v);
    assert(d[58] == (h / 256) * 16 + (v / 256));
    assert(0 <= v / 256 < 16);
    assert(d[58] / 16 == h / 256);
    assert(d[58] % 16 == v / 256);
    assert(spec_h_res(d) == (h / 256) * 256 + h % 256);
    assert(spec_v_res(d) == (v / 256) * 256 + v % 256);
}

/// Decodes one descriptor to its resolution pair, or `None` when the
/// buffer is short, the header does not match, or a count is zero.
pub fn decode_edid(edid: &[u8]) -> (r: Option<(u16, u16)>)
    ensures
        match r {
            Some(hv) => spec_decode(edid@) == Some((hv.0 as int, hv.1 as int)),
            None => spec_decode(edid@) is None,
        },
{
    if edid.len() < 128 {
        return None;
    }
    if edid[0] != 0x00 || edid[1] != 0xFF || edid[2] != 0xFF || edid[3] != 0xFF || edid[4] != 0xFF
        || edid[5] != 0xFF || edid[6] != 0xFF || edid[7] != 0x00 {
        return None;
    }
    let b58: u8 = edid[58];
    proof {
        assert((((b58 & 0xF0) as u16) << 4) == (b58 / 16) as u16 * 256) by (bit_vector);
        assert((((b58 & 0x0F) as u16) << 8) == (b58 % 16) as u16 * 256) by (bit_vector);
    }
    let h: u16 = (((b58 & 0xF0) as u16) << 4) + (edid[56] as u16);
    let v: u16 = (((b58 & 0x0F) as u16) << 8) + (edid[57] as u16);
    if h > 0 && v > 0 {
        Some((h, v))
    } else {
        None
    }
}

/// The display label of one resolution pair, `<h>x<v>`.
pub open spec fn spec_res_label(h: nat, v: nat) -> Seq<char> {
    spec_dec_digits(h) + "x"@ + spec_dec_digits(v)
}

/// Decodes one descriptor to its `<h>x<v>` label, or `None` when the
/// buffer is short, the header does not match, or a count is zero.
pub fn parse_edid_resolution(edid: &[u8]) -> (r: Option<String>)
    ensures
        match r {
            Some(s) => spec_decode(edid@) is Some && s@ == spec_res_label(
                spec_h_res(edid@) as nat,
                spec_v_res(edid@) as nat,
            ),
            None => spec_decode(edid@) is None,
        },
{
    match decode_edid(edid) {
        Some(hv) => {
            let mut s = u64_to_string(hv.0 as u64);
            s.append("x");
            let vs = u64_to_string(hv.1 as u64);
            s.append(vs.as_str());
            Some(s)
        },
        None => None,
    }
}

/// Builds the canonical descriptor of a resolution pair as real bytes.
pub fn encode_edid(h: u16, v: u16) -> (r: Vec<u8>)
    requires
        h <= 4095,
        v <= 4095,
    ensures
        r@ == spec_encode(h as int, v as int),
{
    let mut d: Vec<u8> = Vec::new();
    d.push(0x00);
    let mut i: usize = 1;
    while i <= 6
        invariant
            1 <= i <= 7,
            d@.len() == i,
            d@[0] == 0x00u8,
            forall|j: int| 1 <= j < i ==> d@[j] == 0xFFu8,
        decreases 7 - i,
    {
        d.push(0xFF);
        i = i + 1;
    }
    d.push(0x00);
    let mut i: usize = 8;
    while i < 128
        invariant
            8 <= i <= 128,
            d@.len() == i,
            d@[0] == 0x00u8,
            forall|j: int| 1 <= j < 8 ==> (j <= 6 ==> d@[j] == 0xFFu8) && (j == 7 ==> d@[j]
                == 0x00u8),
            forall|j: int| 8 <= j < i ==> d@[j] == 0u8,
        decreases 128 - i,
    {
        d.push(0x00);
        i = i + 1;
    }
    proof {
        assert((h & 0xFF) as int == h as int % 256) by (bit_vector);
        assert((v & 0xFF) as int == v as int % 256) by (bit_vector);
        assert(h <= 4095 ==> ((((h >> 8) as u8) << 4) | ((v >> 8) as u8)) as int == (h as int
            / 256) * 16 + (v as int / 256) || v > 4095) by (bit_vector);
        assert(v <= 4095 ==> ((((h >> 8) as u8) << 4) | ((v >> 8) as u8)) as int == (h as int
            / 256) * 16 + (v as int / 256) || h > 4095) by (bit_vector);
    }
    let b56: u8 = (h & 0xFF) as u8;
    let b57: u8 = (v & 0xFF) as u8;
    let b58: u8 = (((h >> 8) as u8) << 4) | ((v >> 8) as u8);
    d[56] = b56;
    d[57] = b57;
    d[58] = b58;
    proof {
        assert(d@ =~= spec_encode(h as int, v as int));
    }
    d
}

/// Labels of the descriptors that decode, in the order given.
pub open spec fn spec_labels(bs: Seq<Seq<u8>>) -> Seq<Seq<char>>
    decreases bs.len(),
{
    if bs.len() == 0 {
        seq![]
    } else {
        spec_labels(bs.drop_last()) + (if spec_decode(bs.last()) is Some {
            seq![spec_res_label(spec_h_res(bs.last()) as nat, spec_v_res(bs.last()) as nat)]
        } else {
            seq![]
        })
    }
}

/// The given pieces joined with `", "` between them.
pub open spec fn spec_join(ls: Seq<Seq<char>>) -> Seq<char>
    decreases ls.len(),
{
    if ls.len() == 0 {
        Seq::empty()
    } else if ls.len() == 1 {
        ls[0]
    } else {
        spec_join(ls.drop_last()) + ", "@ + ls.last()
    }
}

/// What the resolution summary of a list of descriptor blobs reads: the
/// labels of those that decode, joined with `", "`; `Unknown` when none
/// decodes.
pub open spec fn spec_resolution_summary(bs: Seq<Seq<u8>>) -> Seq<char> {
    if spec_labels(bs).len() == 0 {
        "Unknown"@
    } else {
        spec_join(spec_labels(bs))
    }
}

/// One connected display bearing the canonical descriptor of an in-range
/// resolution pair reads as exactly that pair's label: the buffer-level
/// form of the resolution summary for a single display.
pub proof fn lemma_resolution_single(h: int, v: int)
    requires
        1 <= h <= 4095,
        1 <= v <= 4095,
    ensures
        spec_resolution_summary(seq![spec_encode(h, v)]) == spec_res_label(h as nat, v as nat),
{
    lemma_edid_round_trip(h, v);
    let bs = seq![spec_encode(h, v)];
    assert(bs.drop_last() =~= Seq::<Seq<u8>>::empty());
    assert(bs.last() == spec_encode(h, v));
    assert(spec_labels(Seq::<Seq<u8>>::empty()) =~= Seq::<Seq<char>>::empty());
    assert(spec_labels(bs) =~= seq![spec_res_label(h as nat, v as nat)]);
    assert(spec_join(spec_labels(bs)) == spec_labels(bs)[0]);
}

/// The screen-resolution label across the given descriptor blobs, one per
/// connected display: each is decoded independently, a failed decode blocks
/// none of the others, and the successful labels are joined with `", "`.
pub fn get_screen_resolution(blobs: &Vec<Vec<u8>>) -> (r: String)
    ensures
        r@ == spec_resolution_summary(blobs.deep_view()),
{
    let ghost bs: Seq<Seq<u8>> = blobs.deep_view();
    let mut s = String::new();
    let mut count: usize = 0;
    let mut i: usize = 0;
    while i < blobs.len()
        invariant
            i <= blobs@.len(),
            count <= i,
            bs == blobs.deep_view(),
            count as int == spec_labels(bs.subrange(0, i as int)).len(),
            count == 0 ==> s@ =~= Seq::<char>::empty(),
            count > 0 ==> s@ == spec_join(spec_labels(bs.subrange(0, i as int))),
        decreases blobs@.len() - i,
    {
        let ghost prefix = bs.subrange(0, i as int);
        proof {
            assert(bs[i as int] == blobs@[i as int]@);
            assert(bs.subrange(0, i + 1).drop_last() =~= prefix);
            assert(bs.subrange(0, i + 1).last() == bs[i as int]);
        }
        match parse_edid_resolution(blobs[i].as_slice()) {
            Some(label) => {
                if count > 0 {
                    s.append(", ");
                }
                s.append(label.as_str());
                count = count + 1;
                proof {
                    let nl = spec_labels(bs.subrange(0, i + 1));
                    assert(nl.drop_last() =~= spec_labels(prefix));
                    if count > 1 {
                        assert(s@ == spec_join(nl));
                    } else {
                        assert(nl.len() == 1);
                        assert(s@ =~= nl[0]);
                    }
                }
            },
            None => {
                proof {
                    assert(spec_labels(bs.subrange(0, i + 1)) =~= spec_labels(prefix));
                }
            },
        }
        i = i + 1;
    }
    proof {
        assert(bs.subrange(0, bs.len() as int) =~= bs);
    }
    if count == 0 {
        String::from_str("Unknown")
    } else {
        s
    }
}

} // verus!
