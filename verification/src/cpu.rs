//! The CPU label: the model name scanned out of a `/proc/cpuinfo`-shaped
//! buffer, a best-effort strip of the trailing core-count marker, the
//! online-CPU count in parentheses, and the maximum frequency in GHz to
//! three decimal places (rounded to nearest, halves up).

use vstd::prelude::*;
use crate::search::{find_sub, spec_find_bytes, lemma_find_bytes_props};
use crate::scan::{find_newline, newline_from};
use crate::strconv::bytes_to_str;
use crate::text::{
    trim_str, spec_trim, spec_find_sub, spec_rfind_char, find_sub_str, rfind_char,
};
use crate::fmt::{spec_dec_digits, u64_to_string};
use vstd::utf8::{valid_utf8, decode_utf8};

verus! {

/// The label that introduces the model name, `model name\t: `.
pub open spec fn model_tag() -> Seq<u8> {
    seq![
        'm' as u8,
        'o' as u8,
        'd' as u8,
        'e' as u8,
        'l' as u8,
        ' ' as u8,
        'n' as u8,
        'a' as u8,
        'm' as u8,
        'e' as u8,
        9u8,
        ':' as u8,
        ' ' as u8,
    ]
}

/// Decimal digit characters only.
pub open spec fn all_digit_chars(s: Seq<char>) -> bool {
    forall|j: int| 0 <= j < s.len() ==> 48 <= (#[trigger] s[j]) as int <= 57
}

/// The core-count marker stripped off a model name: before the first
/// `-Core`, also dropping a preceding all-numeric token when a space
/// precedes it (`... 8-Core` loses the ` 8` too); a name without the
/// marker is kept whole.
pub open spec fn strip_core(m: Seq<char>) -> Seq<char> {
    match spec_find_sub(m, "-Core"@, 0) {
        None => m,
        Some(ci) => {
            let prefix = m.subrange(0, ci);
            match spec_rfind_char(prefix, ' ', prefix.len() as int) {
                None => prefix,
                Some(sp) => {
                    let potential = m.subrange(sp + 1, ci);
                    if potential.len() > 0 && all_digit_chars(potential) {
                        m.subrange(0, sp)
                    } else {
                        prefix
                    }
                },
            }
        },
    }
}

/// The model name a cpuinfo buffer yields: the text between the first
/// model tag and the next line feed, decoded, trimmed, and with the
/// core-count marker stripped. `None` when the tag is missing, no line
/// feed follows, or the bytes are not UTF-8.
pub open spec fn spec_cpu_model(buf: Seq<u8>) -> Option<Seq<char>> {
    match spec_find_bytes(buf, model_tag(), 0) {
        None => None,
        Some(p) => {
            let start = p + model_tag().len();
            let nl = newline_from(buf, start);
            if nl >= buf.len() {
                None
            } else {
                let raw = buf.subrange(start, nl);
                if valid_utf8(raw) {
                    Some(strip_core(spec_trim(decode_utf8(raw))))
                } else {
                    None
                }
            }
        },
    }
}

/// Scans the model name out of a cpuinfo buffer.
pub fn cpu_model(buf: &[u8]) -> (r: Option<String>)
    ensures
        match r {
            Some(s) => spec_cpu_model(buf@) == Some(s@),
            None => spec_cpu_model(buf@) is None,
        },
{
    let blen = buf.len();
    proof {
        assert(blen == buf@.len());
    }
    let tag: Vec<u8> = vec![
        'm' as u8,
        'o' as u8,
        'd' as u8,
        'e' as u8,
        'l' as u8,
        ' ' as u8,
        'n' as u8,
        'a' as u8,
        'm' as u8,
        'e' as u8,
        9u8,
        ':' as u8,
        ' ' as u8,
    ];
    proof {
        assert(tag@ =~= model_tag());
    }
    match find_sub(buf, tag.as_slice()) {
        None => None,
        Some(p) => {
            proof {
                lemma_find_bytes_props(buf@, model_tag(), 0);
                assert(model_tag().len() == 13);
            }
            let start = p + 13;
            match find_newline(buf, start) {
                None => None,
                Some(off) => {
                    let raw = vstd::slice::slice_subrange(buf, start, start + off);
                    match bytes_to_str(raw) {
                        None => None,
                        Some(s) => {
                            let t = trim_str(s);
                            match find_sub_str(t, "-Core") {
                                None => Some(String::from_str(t)),
                                Some(ci) => {
                                    proof {
                                        crate::text::lemma_find_sub_props(t@, "-Core"@, 0);
                                    }
                                    let prefix = t.substring_char(0, ci);
                                    match rfind_char(prefix, ' ') {
                                        None => Some(String::from_str(prefix)),
                                        Some(sp) => {
                                            proof {
                                                crate::text::lemma_rfind_char_props(
                                                    prefix@,
                                                    ' ',
                                                    prefix@.len() as int,
                                                );
                                            }
                                            let potential = t.substring_char(sp + 1, ci);
                                            if potential.unicode_len() > 0 && is_all_digits(
                                                potential,
                                            ) {
                                                Some(String::from_str(t.substring_char(0, sp)))
                                            } else {
                                                Some(String::from_str(prefix))
                                            }
                                        },
                                    }
                                },
                            }
                        },
                    }
                },
            }
        },
    }
}

/// Whether every character of the text is a decimal digit.
pub fn is_all_digits(s: &str) -> (r: bool)
    ensures
        r == all_digit_chars(s@),
{
    let n = s.unicode_len();
    let mut i: usize = 0;
    while i < n
        invariant
            i <= n,
            n == s@.len(),
            forall|j: int| 0 <= j < i ==> 48 <= (#[trigger] s@[j]) as int <= 57,
        decreases n - i,
    {
        let u: u32 = s.get_char(i) as u32;
        if u < 48 || u > 57 {
            return false;
        }
        i = i + 1;
    }
    true
}

/// Mathematical value of a run of decimal digit characters.
pub open spec fn chars_dec_value(s: Seq<char>) -> nat
    decreases s.len(),
{
    if s.len() == 0 {
        0
    } else {
        chars_dec_value(s.drop_last()) * 10 + (s.last() as int - 48) as nat
    }
}

proof fn lemma_chars_dec_grows(s: Seq<char>, i: int, j: int)
    requires
        0 <= i <= j <= s.len(),
    ensures
        chars_dec_value(s.subrange(0, i)) <= chars_dec_value(s.subrange(0, j)),
    decreases j - i,
{
    if i < j {
        lemma_chars_dec_grows(s, i, j - 1);
        assert(s.subrange(0, j).drop_last() =~= s.subrange(0, j - 1));
    }
}

/// What parsing a digit string as a `u64` yields: its value when the text
/// is nonempty, all digits, and the value fits; nothing otherwise.
pub open spec fn spec_parse_u64(s: Seq<char>) -> Option<u64> {
    if s.len() > 0 && all_digit_chars(s) && chars_dec_value(s) < 0x1_0000_0000_0000_0000 {
        Some(chars_dec_value(s) as u64)
    } else {
        None
    }
}

/// Parses the trimmed content of a frequency pseudo-file as a kHz count:
/// a plain run of decimal digits whose value fits a `u64`.
pub fn parse_freq_khz(content: &str) -> (r: Option<u64>)
    ensures
        match r {
            Some(v) => spec_parse_u64(spec_trim(content@)) == Some(v),
            None => spec_parse_u64(spec_trim(content@)) is None,
        },
{
    let t = trim_str(content);
    let n = t.unicode_len();
    if n == 0 {
        return None;
    }
    let mut value: u64 = 0;
    let mut i: usize = 0;
    while i < n
        invariant
            i <= n,
            n == t@.len(),
            n > 0,
            t@ == spec_trim(content@),
            forall|j: int| 0 <= j < i ==> 48 <= (#[trigger] t@[j]) as int <= 57,
            value == chars_dec_value(t@.subrange(0, i as int)),
        decreases n - i,
    {
        let u: u32 = t.get_char(i) as u32;
        if u < 48 || u > 57 {
            return None;
        }
        let d: u64 = (u - 48) as u64;
        if value > (u64::MAX - d) / 10 {
            proof {
                assert(t@.subrange(0, i as int + 1).drop_last() =~= t@.subrange(0, i as int));
                assert(t@.subrange(0, i as int + 1).last() == t@[i as int]);
                assert(chars_dec_value(t@.subrange(0, i as int + 1)) > u64::MAX);
                lemma_chars_dec_grows(t@, i as int + 1, n as int);
                assert(t@.subrange(0, n as int) =~= t@);
            }
            return None;
        }
        value = value * 10 + d;
        i = i + 1;
        proof {
            assert(t@.subrange(0, i as int).drop_last() =~= t@.subrange(0, i as int - 1));
            assert(t@.subrange(0, i as int).last() == t@[i as int - 1]);
        }
    }
    proof {
        assert(t@.subrange(0, n as int) =~= t@);
    }
    Some(value)
}

/// Three decimal places with leading zeros.
pub open spec fn spec_pad3(n: int) -> Seq<char> {
    if n < 10 {
        "00"@ + spec_dec_digits(n as nat)
    } else if n < 100 {
        "0"@ + spec_dec_digits(n as nat)
    } else {
        spec_dec_digits(n as nat)
    }
}

/// The frequency suffix for a nonzero kHz count: ` @ X.YYYGHz`, the kHz
/// value divided by a million and shown to three decimal places, rounded
/// to nearest with halves up.
pub open spec fn spec_freq_label(khz: u64) -> Seq<char> {
    let milli = khz as int / 1000 + (if khz as int % 1000 >= 500 {
        1int
    } else {
        0int
    });
    " @ "@ + spec_dec_digits((milli / 1000) as nat) + "."@ + spec_pad3(milli % 1000) + "GHz"@
}

/// The label when no model name could be read.
pub open spec fn spec_unknown_cpu(cpu_online: u64) -> Seq<char> {
    "Unknown CPU ("@ + spec_dec_digits(cpu_online as nat) + " cores)"@
}

/// The CPU label for a model, a core count, and an optional maximum
/// frequency: `model (count)` with the frequency suffix when one is known
/// and nonzero, or the unknown-CPU label when no model was read.
pub open spec fn spec_cpu_label(
    model: Option<Seq<char>>,
    cpu_online: u64,
    freq_khz: Option<u64>,
) -> Seq<char> {
    match model {
        Some(m) => {
            if m.len() > 0 {
                m + " ("@ + spec_dec_digits(cpu_online as nat) + ")"@ + (match freq_khz {
                    Some(k) => if k > 0 {
                        spec_freq_label(k)
                    } else {
                        Seq::<char>::empty()
                    },
                    None => Seq::<char>::empty(),
                })
            } else {
                spec_unknown_cpu(cpu_online)
            }
        },
        None => spec_unknown_cpu(cpu_online),
    }
}

fn pad3(n: u64) -> (r: String)
    requires
        n < 1000,
    ensures
        r@ == spec_pad3(n as int),
{
    if n < 10 {
        let mut s = String::from_str("00");
        let d = u64_to_string(n);
        s.append(d.as_str());
        s
    } else if n < 100 {
        let mut s = String::from_str("0");
        let d = u64_to_string(n);
        s.append(d.as_str());
        s
    } else {
        u64_to_string(n)
    }
}

fn freq_label(khz: u64) -> (r: String)
    requires
        khz > 0,
    ensures
        r@ == spec_freq_label(khz),
{
    let mut milli: u64 = khz / 1000;
    if khz % 1000 >= 500 {
        milli = milli + 1;
    }
    let mut s = String::from_str(" @ ");
    let whole = u64_to_string(milli / 1000);
    s.append(whole.as_str());
    s.append(".");
    let frac = pad3(milli % 1000);
    s.append(frac.as_str());
    s.append("GHz");
    s
}

/// Assembles the CPU label from the raw cpuinfo buffer, the online-CPU
/// count, and the frequency pseudo-file's content where it was readable.
pub fn get_cpu_info(cpuinfo: &[u8], cpu_online: u64, freq_content: Option<&str>) -> (r: String)
    ensures
        r@ == spec_cpu_label(
            spec_cpu_model(cpuinfo@),
            cpu_online,
            match freq_content {
                Some(f) => spec_parse_u64(spec_trim(f@)),
                None => None,
            },
        ),
{
    let model = cpu_model(cpuinfo);
    let freq: Option<u64> = match freq_content {
        Some(f) => parse_freq_khz(f),
        None => None,
    };
    match model {
        Some(m) => {
            if m.as_str().unicode_len() > 0 {
                let mut s = String::from_str(m.as_str());
                s.append(" (");
                let c = u64_to_string(cpu_online);
                s.append(c.as_str());
                s.append(")");
                match freq {
                    Some(k) => {
                        if k > 0 {
                            let fl = freq_label(k);
                            s.append(fl.as_str());
                        }
                    },
                    None => (),
                }
                s
            } else {
                unknown_cpu_label(cpu_online)
            }
        },
        None => unknown_cpu_label(cpu_online),
    }
}

fn unknown_cpu_label(cpu_online: u64) -> (r: String)
    ensures
        r@ == spec_unknown_cpu(cpu_online),
{
    let mut s = String::from_str("Unknown CPU (");
    let c = u64_to_string(cpu_online);
    s.append(c.as_str());
    s.append(" cores)");
    s
}

} // verus!
