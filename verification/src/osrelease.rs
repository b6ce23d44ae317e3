//! The distribution name from an `os-release`-shaped buffer: a quoted
//! `NAME=` value when one stands in the buffer, else an `ID=` value
//! capitalized with ` Linux` appended, else nothing — the caller then
//! falls back to the well-known marker files.

use vstd::prelude::*;
use crate::search::{find_field, spec_find_field, lemma_find_field_props};
use crate::scan::{find_newline, newline_from};
use crate::strconv::{bytes_to_str, push_char};
use crate::text::{trim_str, trim_quotes, spec_trim, spec_trim_quotes, to_upper_char, upper_char};
use vstd::utf8::{valid_utf8, decode_utf8};

verus! {

pub open spec fn name_pat() -> Seq<u8> {
    seq!['N' as u8, 'A' as u8, 'M' as u8, 'E' as u8, '=' as u8]
}

pub open spec fn id_pat() -> Seq<u8> {
    seq!['I' as u8, 'D' as u8, '=' as u8]
}

/// The distribution name a buffer yields. Field keys only count at a line
/// start — at the buffer's start or right after a line feed — so `NAME=`
/// never matches inside `PRETTY_NAME=`, nor `ID=` inside `VERSION_ID=`.
/// A `NAME=` field wins: its value, one surrounding quote pair stripped,
/// decoded and trimmed. Otherwise an `ID=` field: its value trimmed and
/// fully unquoted, first character upper-cased, with ` Linux` appended
/// (`Linux` alone for an empty value). `None` when neither field is
/// usable: no field, no line feed after it, or bytes that are not UTF-8.
pub open spec fn spec_distro_name(data: Seq<u8>) -> Option<Seq<char>> {
    match spec_find_field(data, name_pat(), 0) {
        Some(p) => {
            let start = p + name_pat().len();
            let nl = newline_from(data, start);
            if nl >= data.len() {
                None
            } else {
                let raw = data.subrange(start, nl);
                let unq = if raw.len() >= 2 && raw[0] == 34 && raw[raw.len() - 1] == 34 {
                    raw.subrange(1, raw.len() - 1)
                } else {
                    raw
                };
                if valid_utf8(unq) {
                    Some(spec_trim(decode_utf8(unq)))
                } else {
                    None
                }
            }
        },
        None => match spec_find_field(data, id_pat(), 0) {
            Some(p) => {
                let start = p + id_pat().len();
                let nl = newline_from(data, start);
                if nl >= data.len() {
                    None
                } else {
                    let raw = data.subrange(start, nl);
                    if valid_utf8(raw) {
                        let id = spec_trim_quotes(spec_trim(decode_utf8(raw)));
                        if id.len() == 0 {
                            Some("Linux"@)
                        } else {
                            Some(seq![to_upper_char(id[0])] + id.drop_first() + " Linux"@)
                        }
                    } else {
                        None
                    }
                }
            },
            None => None,
        },
    }
}

/// Extracts the distribution name from an `os-release`-shaped buffer.
pub fn distribution_name_from(data: &[u8]) -> (r: Option<String>)
    ensures
        match r {
            Some(s) => spec_distro_name(data@) == Some(s@),
            None => spec_distro_name(data@) is None,
        },
{
    let dlen = data.len();
    proof {
        assert(dlen == data@.len());
    }
    let name_needle: Vec<u8> = vec!['N' as u8, 'A' as u8, 'M' as u8, 'E' as u8, '=' as u8];
    let id_needle: Vec<u8> = vec!['I' as u8, 'D' as u8, '=' as u8];
    proof {
        assert(name_needle@ =~= name_pat());
        assert(id_needle@ =~= id_pat());
    }
    match find_field(data, name_needle.as_slice()) {
        Some(p) => {
            proof {
                lemma_find_field_props(data@, name_pat(), 0);
                assert(name_pat().len() == 5);
            }
            let start = p + 5;
            match find_newline(data, start) {
                None => None,
                Some(off) => {
                    let end = start + off;
                    let raw = vstd::slice::slice_subrange(data, start, end);
                    let rl = raw.len();
                    let unq: &[u8] = if rl >= 2 && raw[0] == 34 && raw[rl - 1] == 34 {
                        vstd::slice::slice_subrange(raw, 1, rl - 1)
                    } else {
                        raw
                    };
                    match bytes_to_str(unq) {
                        None => None,
                        Some(s) => Some(String::from_str(trim_str(s))),
                    }
                },
            }
        },
        None => {
            match find_field(data, id_needle.as_slice()) {
                Some(p) => {
                    proof {
                        lemma_find_field_props(data@, id_pat(), 0);
                        assert(id_pat().len() == 3);
                    }
                    let start = p + 3;
                    match find_newline(data, start) {
                        None => None,
                        Some(off) => {
                            let end = start + off;
                            let raw = vstd::slice::slice_subrange(data, start, end);
                            match bytes_to_str(raw) {
                                None => None,
                                Some(s) => {
                                    let t = trim_quotes(trim_str(s));
                                    let tl = t.unicode_len();
                                    if tl == 0 {
                                        Some(String::from_str("Linux"))
                                    } else {
                                        let mut out = String::new();
                                        push_char(&mut out, upper_char(t.get_char(0)));
                                        let rest = t.substring_char(1, tl);
                                        out.append(rest);
                                        out.append(" Linux");
                                        proof {
                                            let id = spec_trim_quotes(
                                                spec_trim(decode_utf8(raw@)),
                                            );
                                            assert(Seq::<char>::empty().push(to_upper_char(id[0]))
                                                =~= seq![to_upper_char(id[0])]);
                                            assert(rest@ =~= id.drop_first());
                                        }
                                        Some(out)
                                    }
                                },
                            }
                        },
                    }
                },
                None => None,
            }
        },
    }
}

/// The distribution label when no release file is usable, decided by
/// which well-known marker file exists: Arch, then Debian, then Red Hat,
/// else the bare `Linux`.
pub open spec fn spec_distro_fallback(arch: bool, debian: bool, redhat: bool) -> Seq<char> {
    if arch {
        "Arch Linux"@
    } else if debian {
        "Debian Linux"@
    } else if redhat {
        "Red Hat Linux"@
    } else {
        "Linux"@
    }
}

/// Picks the fallback distribution label from the marker files present.
pub fn distribution_fallback(arch: bool, debian: bool, redhat: bool) -> (r: String)
    ensures
        r@ == spec_distro_fallback(arch, debian, redhat),
{
    if arch {
        String::from_str("Arch Linux")
    } else if debian {
        String::from_str("Debian Linux")
    } else if redhat {
        String::from_str("Red Hat Linux")
    } else {
        String::from_str("Linux")
    }
}

} // verus!
