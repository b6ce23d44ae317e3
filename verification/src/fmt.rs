//! Decimal rendering of counters: plain numbers, the MiB memory label and
//! the `d/h/m` uptime label.

use vstd::prelude::*;

verus! {

/// The character for one decimal digit value.
pub open spec fn digit_char(d: nat) -> char {
    (48 + d) as char
}

/// Decimal representation of a number, most significant digit first, with
/// no leading zeros (the number zero is the single digit `0`).
pub open spec fn spec_dec_digits(n: nat) -> Seq<char>
    decreases n,
{
    if n < 10 {
        seq![digit_char(n)]
    } else {
        spec_dec_digits(n / 10).push(digit_char(n % 10))
    }
}

/// The digit characters of `ds` (digit values, least significant first)
/// in display order.
pub open spec fn digits_rev_chars(ds: Seq<u8>) -> Seq<char> {
    Seq::new(ds.len(), |j: int| digit_char(ds[ds.len() - 1 - j] as nat))
}

/// Appends the character of one digit value.
fn push_digit(s: &mut String, d: u8)
    requires
        d < 10,
    ensures
        final(s)@ == old(s)@ + seq![digit_char(d as nat)],
{
    proof {
        reveal_strlit("0");
        reveal_strlit("1");
        reveal_strlit("2");
        reveal_strlit("3");
        reveal_strlit("4");
        reveal_strlit("5");
        reveal_strlit("6");
        reveal_strlit("7");
        reveal_strlit("8");
        reveal_strlit("9");
    }
    if d == 0 {
        s.append("0");
    } else if d == 1 {
        s.append("1");
    } else if d == 2 {
        s.append("2");
    } else if d == 3 {
        s.append("3");
    } else if d == 4 {
        s.append("4");
    } else if d == 5 {
        s.append("5");
    } else if d == 6 {
        s.append("6");
    } else if d == 7 {
        s.append("7");
    } else if d == 8 {
        s.append("8");
    } else {
        s.append("9");
    }
    proof {
        assert(final(s)@ =~= old(s)@ + seq![digit_char(d as nat)]);
    }
}

/// The decimal text of a `u64`.
pub fn u64_to_string(n: u64) -> (r: String)
    ensures
        r@ == spec_dec_digits(n as nat),
{
    let mut rev: Vec<u8> = Vec::new();
    let mut m: u64 = n;
    loop
        invariant_except_break
            spec_dec_digits(n as nat) =~= spec_dec_digits(m as nat) + digits_rev_chars(rev@),
        invariant
            forall|j: int| 0 <= j < rev@.len() ==> rev@[j] < 10,
        ensures
            spec_dec_digits(n as nat) =~= digits_rev_chars(rev@),
            forall|j: int| 0 <= j < rev@.len() ==> rev@[j] < 10,
        decreases m,
    {
        let ghost old_m = m;
        let ghost old_rev = rev@;
        let d: u8 = (m % 10) as u8;
        rev.push(d);
        m = m / 10;
        proof {
            assert(digits_rev_chars(rev@) =~= seq![digit_char(d as nat)] + digits_rev_chars(
                old_rev,
            ));
            if old_m >= 10 {
                assert(spec_dec_digits(old_m as nat) == spec_dec_digits((old_m / 10) as nat).push(
                    digit_char((old_m % 10) as nat),
                ));
                assert(spec_dec_digits(old_m as nat) + digits_rev_chars(old_rev)
                    =~= spec_dec_digits(m as nat) + digits_rev_chars(rev@));
            } else {
                assert(spec_dec_digits(old_m as nat) =~= seq![digit_char(d as nat)]);
            }
        }
        if m == 0 {
            proof {
                assert(spec_dec_digits(n as nat) =~= digits_rev_chars(rev@));
            }
            break ;
        }
    }
    let mut s: String = String::new();
    let mut i: usize = rev.len();
    while i > 0
        invariant
            i <= rev@.len(),
            forall|j: int| 0 <= j < rev@.len() ==> rev@[j] < 10,
            s@ =~= digits_rev_chars(rev@).subrange(0, rev@.len() - i),
        decreases i,
    {
        i = i - 1;
        push_digit(&mut s, rev[i]);
        proof {
            assert(s@ =~= digits_rev_chars(rev@).subrange(0, rev@.len() - i));
        }
    }
    proof {
        assert(s@ =~= digits_rev_chars(rev@));
    }
    s
}

/// The memory label for a byte count: whole mebibytes, then ` MiB`.
pub open spec fn spec_memory_label(bytes: u64) -> Seq<char> {
    spec_dec_digits((bytes / 0x100000) as nat) + " MiB"@
}

/// Formats a byte count as whole mebibytes.
pub fn format_memory(bytes: u64) -> (r: String)
    ensures
        r@ == spec_memory_label(bytes),
{
    proof {
        assert(bytes >> 20u64 == bytes / 0x100000) by (bit_vector);
    }
    let mut s = u64_to_string(bytes >> 20);
    s.append(" MiB");
    s
}

/// The uptime label for a second count: minutes alone under an hour,
/// hours and minutes under a day, else days, hours and minutes.
pub open spec fn spec_uptime_label(seconds: u64) -> Seq<char> {
    let mins = seconds as int / 60;
    if mins < 60 {
        spec_dec_digits(mins as nat) + " mins"@
    } else {
        let hours = mins / 60;
        let m = mins % 60;
        if hours < 24 {
            spec_dec_digits(hours as nat) + "h "@ + spec_dec_digits(m as nat) + "m"@
        } else {
            let days = hours / 24;
            let h = hours % 24;
            spec_dec_digits(days as nat) + "d "@ + spec_dec_digits(h as nat) + "h "@
                + spec_dec_digits(m as nat) + "m"@
        }
    }
}

/// Formats a second count as a human-readable uptime.
pub fn format_uptime(seconds: u64) -> (r: String)
    ensures
        r@ == spec_uptime_label(seconds),
{
    let mins: u64 = seconds / 60;
    if mins < 60 {
        let mut s = u64_to_string(mins);
        s.append(" mins");
        return s;
    }
    let hours: u64 = mins / 60;
    let mins: u64 = mins % 60;
    if hours < 24 {
        let mut s = u64_to_string(hours);
        s.append("h ");
        let mstr = u64_to_string(mins);
        s.append(mstr.as_str());
        s.append("m");
        return s;
    }
    let days: u64 = hours / 24;
    let hours: u64 = hours % 24;
    let mut s = u64_to_string(days);
    s.append("d ");
    let hstr = u64_to_string(hours);
    s.append(hstr.as_str());
    s.append("h ");
    let mstr = u64_to_string(mins);
    s.append(mstr.as_str());
    s.append("m");
    s
}

} // verus!
