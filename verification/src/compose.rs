//! The escape-sequence-aware compositor: visible width of a colored line,
//! the active-color state carried across lines, and the side-by-side
//! layout of art and info columns.

use vstd::prelude::*;
use crate::text::{
    spec_find_char, spec_find_sub, line_end_idx, find_char_from, find_sub_from, eq_strs,
};

verus! {

/// The escape introducer character.
pub open spec fn esc_char() -> char {
    '\x1b'
}

/// The escape-state transition for one character: the introducer enters a
/// sequence, `m` ends one.
pub open spec fn next_esc_state(inside: bool, c: char) -> bool {
    if c == esc_char() {
        true
    } else if inside && c == 'm' {
        false
    } else {
        inside
    }
}

/// Whether a character is counted: only outside a sequence, and the
/// introducer itself is never counted.
pub open spec fn counts_visible(inside: bool, c: char) -> bool {
    !inside && c != esc_char()
}

/// Number of visible characters of `s` when scanning starts in the given
/// escape state.
pub open spec fn visible_from(s: Seq<char>, inside: bool) -> int
    decreases s.len(),
{
    if s.len() == 0 {
        0
    } else {
        (if counts_visible(inside, s[0]) {
            1int
        } else {
            0int
        }) + visible_from(s.drop_first(), next_esc_state(inside, s[0]))
    }
}

/// The escape state after scanning all of `s` from the given state.
pub open spec fn esc_state_after(s: Seq<char>, inside: bool) -> bool
    decreases s.len(),
{
    if s.len() == 0 {
        inside
    } else {
        esc_state_after(s.drop_first(), next_esc_state(inside, s[0]))
    }
}

/// Visible length of a line: characters outside escape sequences.
pub open spec fn spec_visible_len(s: Seq<char>) -> int {
    visible_from(s, false)
}

pub proof fn lemma_visible_nonneg(s: Seq<char>, inside: bool)
    ensures
        0 <= visible_from(s, inside) <= s.len(),
    decreases s.len(),
{
    if s.len() > 0 {
        lemma_visible_nonneg(s.drop_first(), next_esc_state(inside, s[0]));
    }
}

/// Scanning a concatenation scans the first part, then the second from the
/// state the first left behind.
pub proof fn lemma_visible_concat(a: Seq<char>, b: Seq<char>, inside: bool)
    ensures
        visible_from(a + b, inside) == visible_from(a, inside) + visible_from(
            b,
            esc_state_after(a, inside),
        ),
        esc_state_after(a + b, inside) == esc_state_after(b, esc_state_after(a, inside)),
    decreases a.len(),
{
    if a.len() == 0 {
        assert(a + b =~= b);
    } else {
        assert((a + b).drop_first() =~= a.drop_first() + b);
        lemma_visible_concat(a.drop_first(), b, next_esc_state(inside, a[0]));
    }
}

/// Text without the escape introducer.
pub open spec fn plain_text(s: Seq<char>) -> bool {
    forall|j: int| 0 <= j < s.len() ==> s[j] != esc_char()
}

/// Every character of plain text is visible, and it leaves the scanner
/// outside a sequence.
pub proof fn lemma_plain_visible(s: Seq<char>)
    requires
        plain_text(s),
    ensures
        visible_from(s, false) == s.len(),
        esc_state_after(s, false) == false,
    decreases s.len(),
{
    if s.len() > 0 {
        assert(forall|j: int| 0 <= j < s.drop_first().len() ==> s.drop_first()[j] == s[j + 1]);
        lemma_plain_visible(s.drop_first());
    }
}

/// One complete escape sequence: the introducer, a body free of `m`, and
/// the closing `m`.
pub open spec fn well_formed_escape(e: Seq<char>) -> bool {
    &&& e.len() >= 2
    &&& e[0] == esc_char()
    &&& e[e.len() - 1] == 'm'
    &&& forall|j: int| 1 <= j < e.len() - 1 ==> e[j] != 'm'
}

proof fn lemma_escape_tail(s: Seq<char>)
    requires
        s.len() >= 1,
        s[s.len() - 1] == 'm',
        forall|j: int| 0 <= j < s.len() - 1 ==> s[j] != 'm',
    ensures
        visible_from(s, true) == 0,
        esc_state_after(s, true) == false,
    decreases s.len(),
{
    if s.len() > 1 {
        assert(forall|j: int| 0 <= j < s.drop_first().len() ==> s.drop_first()[j] == s[j + 1]);
        lemma_escape_tail(s.drop_first());
    } else {
        assert(visible_from(s.drop_first(), next_esc_state(true, s[0])) == 0);
        assert(esc_state_after(s.drop_first(), next_esc_state(true, s[0])) == next_esc_state(
            true,
            s[0],
        ));
    }
}

/// A whole escape sequence contributes no visible characters and leaves
/// the scanner outside a sequence.
pub proof fn lemma_escape_zero(e: Seq<char>)
    requires
        well_formed_escape(e),
    ensures
        visible_from(e, false) == 0,
        esc_state_after(e, false) == false,
{
    assert(forall|j: int| 0 <= j < e.drop_first().len() ==> e.drop_first()[j] == e[j + 1]);
    lemma_escape_tail(e.drop_first());
}

/// A line of plain text with one embedded escape sequence measures only
/// the text: its visible length is the total length minus the sequence's
/// length, so escape bytes are never counted. Lines with several sequences
/// follow by applying this to each in turn.
pub proof fn lemma_escape_invisible(x: Seq<char>, e: Seq<char>, y: Seq<char>)
    requires
        plain_text(x),
        well_formed_escape(e),
        plain_text(y),
    ensures
        spec_visible_len(x + e + y) == x.len() + y.len(),
        spec_visible_len(x + e + y) == (x + e + y).len() - e.len(),
{
    lemma_plain_visible(x);
    lemma_escape_zero(e);
    lemma_plain_visible(y);
    assert(x + e + y =~= x + (e + y));
    lemma_visible_concat(x, e + y, false);
    lemma_visible_concat(e, y, false);
}

/// Counts the characters of a line that stand outside escape sequences,
/// toggling on the introducer and closing on the terminator.
pub fn visible_length(line: &str) -> (r: usize)
    ensures
        r == spec_visible_len(line@),
{
    let n = line.unicode_len();
    let mut count: usize = 0;
    let mut inside: bool = false;
    let mut i: usize = 0;
    proof {
        assert(line@.skip(0) =~= line@);
    }
    while i < n
        invariant
            i <= n,
            count <= i,
            n == line@.len(),
            spec_visible_len(line@) == count + visible_from(line@.skip(i as int), inside),
        decreases n - i,
    {
        let c = line.get_char(i);
        proof {
            assert(line@.skip(i as int)[0] == line@[i as int]);
            assert(line@.skip(i as int).drop_first() =~= line@.skip(i as int + 1));
        }
        if c == '\x1b' {
            inside = true;
        } else if inside && c == 'm' {
            inside = false;
        } else if !inside {
            count = count + 1;
        }
        i = i + 1;
        proof {
            lemma_visible_nonneg(line@.skip(i as int), inside);
        }
    }
    proof {
        assert(line@.skip(n as int) =~= Seq::<char>::empty());
    }
    count
}

/// The lines of a text, split at line feeds, without a trailing empty
/// line (as the art blocks are stored).
pub open spec fn split_lines_from(s: Seq<char>, from: int) -> Seq<Seq<char>>
    decreases s.len() - from,
{
    if from >= s.len() {
        seq![]
    } else {
        let e = line_end_idx(s, from);
        if from <= e < s.len() {
            seq![s.subrange(from, e)] + split_lines_from(s, e + 1)
        } else {
            seq![s.subrange(from, s.len() as int)]
        }
    }
}

pub open spec fn spec_split_lines(s: Seq<char>) -> Seq<Seq<char>> {
    split_lines_from(s, 0)
}

pub proof fn lemma_find_char_props(s: Seq<char>, c: char, from: int)
    requires
        0 <= from,
    ensures
        match spec_find_char(s, c, from) {
            Some(i) => from <= i < s.len() && s[i] == c && forall|j: int|
                from <= j < i ==> s[j] != c,
            None => forall|j: int| from <= j < s.len() ==> s[j] != c,
        },
    decreases s.len() - from,
{
    if from < s.len() && s[from] != c {
        lemma_find_char_props(s, c, from + 1);
    }
}

/// Splits a text into its lines.
pub fn split_lines(s: &str) -> (r: Vec<String>)
    ensures
        r.deep_view() == spec_split_lines(s@),
{
    let n = s.unicode_len();
    let mut out: Vec<String> = Vec::new();
    let mut pos: usize = 0;
    while pos < n
        invariant
            pos <= n,
            n == s@.len(),
            spec_split_lines(s@) == out.deep_view() + split_lines_from(s@, pos as int),
        decreases n - pos,
    {
        proof {
            lemma_find_char_props(s@, '\n', pos as int);
        }
        let line_end: usize;
        let next: usize;
        match find_char_from(s, '\n', pos) {
            Some(e) => {
                line_end = e;
                next = e + 1;
            },
            None => {
                line_end = n;
                next = n;
            },
        }
        let ghost prev = out.deep_view();
        let piece = s.substring_char(pos, line_end);
        out.push(String::from_str(piece));
        let ghost oldpos = pos as int;
        pos = next;
        proof {
            assert(out.deep_view() =~= prev + seq![piece@]);
            assert(prev + split_lines_from(s@, oldpos) =~= out.deep_view() + split_lines_from(
                s@,
                pos as int,
            ));
        }
    }
    proof {
        assert(out.deep_view() + split_lines_from(s@, pos as int) =~= out.deep_view());
    }
    out
}

/// The color-reset escape sequence.
pub open spec fn reset_seq() -> Seq<char> {
    "\x1b[0m"@
}

/// The two characters that open a color escape sequence.
pub open spec fn esc_intro() -> Seq<char> {
    "\x1b["@
}

/// The active color after scanning a line from `from` with current color
/// `cur`: each complete `ESC[...m` sequence becomes the color, a reset
/// sequence clears it, and an unterminated introducer changes nothing.
pub open spec fn spec_color_scan(line: Seq<char>, from: int, cur: Seq<char>) -> Seq<char>
    decreases line.len() - from,
{
    match spec_find_sub(line, esc_intro(), from) {
        None => cur,
        Some(i) => match spec_find_char(line, 'm', i) {
            None => cur,
            Some(m) => {
                if from <= i <= m < line.len() {
                    let sq = line.subrange(i, m + 1);
                    let nc = if sq == reset_seq() {
                        Seq::<char>::empty()
                    } else {
                        sq
                    };
                    spec_color_scan(line, m + 1, nc)
                } else {
                    cur
                }
            },
        },
    }
}

/// Tracks the active color across one line, starting from the color the
/// previous lines left behind.
pub fn scan_color(line: &str, cur: &str) -> (r: String)
    ensures
        r@ == spec_color_scan(line@, 0, cur@),
{
    let ghost cur0 = cur@;
    let mut col = String::from_str(cur);
    let mut from: usize = 0;
    let n = line.unicode_len();
    loop
        invariant
            from <= n,
            n == line@.len(),
            cur0 == cur@,
            spec_color_scan(line@, 0, cur0) == spec_color_scan(line@, from as int, col@),
        decreases n - from,
    {
        match find_sub_from(line, "\x1b[", from) {
            None => {
                proof {
                    assert(spec_color_scan(line@, from as int, col@) == col@);
                }
                return col;
            },
            Some(i) => {
                proof {
                    crate::text::lemma_find_sub_props(line@, esc_intro(), from as int);
                }
                match find_char_from(line, 'm', i) {
                    None => {
                        proof {
                            assert(spec_color_scan(line@, from as int, col@) == col@);
                        }
                        return col;
                    },
                    Some(m) => {
                        proof {
                            lemma_find_char_props(line@, 'm', i as int);
                        }
                        let sq = line.substring_char(i, m + 1);
                        if eq_strs(sq, "\x1b[0m") {
                            col = String::new();
                        } else {
                            col = String::from_str(sq);
                        }
                        from = m + 1;
                    },
                }
            },
        }
    }
}

/// A run of spaces.
pub open spec fn spec_spaces(k: int) -> Seq<char> {
    Seq::new(k as nat, |i: int| ' ')
}

/// Builds a run of `k` spaces.
pub fn spaces(k: usize) -> (r: String)
    ensures
        r@ == spec_spaces(k as int),
{
    let mut s = String::new();
    let mut i: usize = 0;
    while i < k
        invariant
            i <= k,
            s@ =~= spec_spaces(i as int),
        decreases k - i,
    {
        s.append(" ");
        i = i + 1;
        proof {
            reveal_strlit(" ");
            assert(s@ =~= spec_spaces(i as int));
        }
    }
    s
}

/// How the info text of one row is colored: the identity row is colored
/// around its `@` separator, the divider row is kept as it is, and later
/// rows take the active color up to their embedded reset.
pub open spec fn spec_styled_info(info: Seq<char>, color: Seq<char>, row: int) -> Seq<char> {
    if row == 0 {
        if color.len() > 0 {
            match spec_find_char(info, '@', 0) {
                Some(a) => color + info.subrange(0, a) + reset_seq() + "@"@ + color + info.subrange(
                    a + 1,
                    info.len() as int,
                ) + reset_seq(),
                None => info,
            }
        } else {
            info
        }
    } else if row == 1 {
        info
    } else if color.len() > 0 {
        match spec_find_sub(info, reset_seq(), 0) {
            Some(ri) => color + info.subrange(0, ri) + reset_seq() + info.subrange(
                ri + reset_seq().len(),
                info.len() as int,
            ),
            None => info,
        }
    } else {
        info
    }
}

/// Colors one info line for its row.
pub fn styled_info(info: &str, color: &str, row: usize) -> (r: String)
    ensures
        r@ == spec_styled_info(info@, color@, row as int),
{
    let n = info.unicode_len();
    if row == 0 {
        if color.unicode_len() > 0 {
            match find_char_from(info, '@', 0) {
                Some(a) => {
                    proof {
                        lemma_find_char_props(info@, '@', 0);
                    }
                    let mut s = String::from_str(color);
                    let p0 = info.substring_char(0, a);
                    s.append(p0);
                    s.append("\x1b[0m");
                    s.append("@");
                    s.append(color);
                    let p1 = info.substring_char(a + 1, n);
                    s.append(p1);
                    s.append("\x1b[0m");
                    s
                },
                None => String::from_str(info),
            }
        } else {
            String::from_str(info)
        }
    } else if row == 1 {
        String::from_str(info)
    } else if color.unicode_len() > 0 {
        match find_sub_from(info, "\x1b[0m", 0) {
            Some(ri) => {
                proof {
                    crate::text::lemma_find_sub_props(info@, reset_seq(), 0);
                    reveal_strlit("\x1b[0m");
                }
                let mut s = String::from_str(color);
                let p0 = info.substring_char(0, ri);
                s.append(p0);
                s.append("\x1b[0m");
                let p1 = info.substring_char(ri + 4, n);
                s.append(p1);
                s
            },
            None => String::from_str(info),
        }
    } else {
        String::from_str(info)
    }
}

/// The larger of two counts.
pub open spec fn spec_max(a: int, b: int) -> int {
    if a >= b {
        a
    } else {
        b
    }
}

/// The text of one composited row: the art line; then, when an info line
/// is present, a reset, padding that aligns the info column at the art
/// block's width plus the gap, the colored info text, and — when more art
/// follows — the active color restored for the next row.
pub open spec fn spec_row_text(
    art: Seq<char>,
    info: Seq<char>,
    color_after: Seq<char>,
    more_art: bool,
    maxlen: int,
    padding: int,
    row: int,
) -> Seq<char> {
    if info.len() > 0 {
        let vis = spec_visible_len(art);
        let pad = if vis < maxlen {
            maxlen - vis + padding
        } else {
            padding
        };
        art + reset_seq() + spec_spaces(pad) + spec_styled_info(info, color_after, row) + (if more_art
            && color_after.len() > 0 {
            color_after
        } else {
            Seq::<char>::empty()
        })
    } else {
        art
    }
}

/// The composited rows from row `i` on, with `color` the active color the
/// earlier rows left behind.
pub open spec fn spec_rows(
    arts: Seq<Seq<char>>,
    infos: Seq<Seq<char>>,
    maxlen: int,
    padding: int,
    i: int,
    color: Seq<char>,
) -> Seq<Seq<char>>
    decreases spec_max(arts.len() as int, infos.len() as int) - i,
{
    let total = spec_max(arts.len() as int, infos.len() as int);
    if i >= total {
        seq![]
    } else {
        let art = if i < arts.len() {
            arts[i]
        } else {
            Seq::<char>::empty()
        };
        let info = if i < infos.len() {
            infos[i]
        } else {
            Seq::<char>::empty()
        };
        let c2 = spec_color_scan(art, 0, color);
        let row = spec_row_text(art, info, c2, i + 1 < arts.len(), maxlen, padding, i);
        seq![row] + spec_rows(arts, infos, maxlen, padding, i + 1, c2)
    }
}

/// What the compositor emits for an art block and a list of info lines.
pub open spec fn spec_compose(
    art: Seq<char>,
    infos: Seq<Seq<char>>,
    maxlen: int,
    padding: int,
) -> Seq<Seq<char>> {
    spec_rows(spec_split_lines(art), infos, maxlen, padding, 0, Seq::<char>::empty())
}

/// One labeled info line: the label, a reset so the value keeps the
/// terminal's default color, then `": "` and the value.
pub open spec fn spec_labeled(label: Seq<char>, value: Seq<char>) -> Seq<char> {
    label + reset_seq() + ": "@ + value
}

fn labeled_line(label: &str, value: &str) -> (r: String)
    ensures
        r@ == spec_labeled(label@, value@),
{
    let mut s = String::from_str(label);
    s.append("\x1b[0m");
    s.append(": ");
    s.append(value);
    s
}

/// The ordered info column of a snapshot: the identity header, a divider,
/// then one labeled line per field in fixed order.
pub fn build_info_lines(info: &crate::sysinfo::SysInfo, user: &str) -> (r: Vec<String>)
    ensures
        r@.len() == 14,
        r.deep_view()[0] == user@ + "@"@ + info.hostname@,
        r.deep_view()[1] == "-----------------"@,
        r.deep_view()[2] == spec_labeled("OS"@, info.os_name@),
        r.deep_view()[3] == spec_labeled("Kernel"@, info.kernel@),
        r.deep_view()[4] == spec_labeled("Uptime"@, crate::fmt::spec_uptime_label(info.uptime)),
        r.deep_view()[5] == spec_labeled("Shell"@, info.shell@),
        r.deep_view()[6] == spec_labeled("Resolution"@, info.resolution@),
        r.deep_view()[7] == spec_labeled("DE"@, info.de@),
        r.deep_view()[8] == spec_labeled("WM"@, info.wm@),
        r.deep_view()[9] == spec_labeled("Theme"@, info.theme@),
        r.deep_view()[10] == spec_labeled("Icons"@, info.icons@),
        r.deep_view()[11] == spec_labeled("Terminal"@, info.terminal@),
        r.deep_view()[12] == spec_labeled("CPU"@, info.cpu_info@),
        r.deep_view()[13] == spec_labeled(
            "Memory"@,
            crate::fmt::spec_memory_label(info.memory_used) + " / "@ + crate::fmt::spec_memory_label(
                info.memory_total,
            ),
        ),
{
    let mut lines: Vec<String> = Vec::new();
    let mut ident = String::from_str(user);
    ident.append("@");
    ident.append(info.hostname.as_str());
    lines.push(ident);
    lines.push(String::from_str("-----------------"));
    lines.push(labeled_line("OS", info.os_name.as_str()));
    lines.push(labeled_line("Kernel", info.kernel.as_str()));
    let uptime = crate::fmt::format_uptime(info.uptime);
    lines.push(labeled_line("Uptime", uptime.as_str()));
    lines.push(labeled_line("Shell", info.shell.as_str()));
    lines.push(labeled_line("Resolution", info.resolution.as_str()));
    lines.push(labeled_line("DE", info.de.as_str()));
    lines.push(labeled_line("WM", info.wm.as_str()));
    lines.push(labeled_line("Theme", info.theme.as_str()));
    lines.push(labeled_line("Icons", info.icons.as_str()));
    lines.push(labeled_line("Terminal", info.terminal.as_str()));
    lines.push(labeled_line("CPU", info.cpu_info.as_str()));
    let mut mem = crate::fmt::format_memory(info.memory_used);
    mem.append(" / ");
    let mem_total = crate::fmt::format_memory(info.memory_total);
    mem.append(mem_total.as_str());
    lines.push(labeled_line("Memory", mem.as_str()));
    lines
}

/// Lays the art block and the info lines out side by side: one output row
/// per line of the longer column, the info column aligned at
/// `max_line_length + padding` visible columns, colors carried across rows.
pub fn compose_rows(
    art: &str,
    info_lines: &Vec<String>,
    max_line_length: usize,
    padding: usize,
) -> (r: Vec<String>)
    requires
        max_line_length + padding <= usize::MAX,
    ensures
        r.deep_view() == spec_compose(art@, info_lines.deep_view(), max_line_length as int, padding as int),
{
    let art_lines = split_lines(art);
    let ghost arts = art_lines.deep_view();
    let ghost infos = info_lines.deep_view();
    let na = art_lines.len();
    let ni = info_lines.len();
    let total: usize = if na >= ni {
        na
    } else {
        ni
    };
    let mut out: Vec<String> = Vec::new();
    let mut color: String = String::new();
    let mut i: usize = 0;
    while i < total
        invariant
            i <= total,
            na == arts.len(),
            ni == infos.len(),
            arts == art_lines.deep_view(),
            infos == info_lines.deep_view(),
            total as int == spec_max(arts.len() as int, infos.len() as int),
            max_line_length + padding <= usize::MAX,
            spec_rows(arts, infos, max_line_length as int, padding as int, 0, Seq::<char>::empty())
                == out.deep_view() + spec_rows(
                arts,
                infos,
                max_line_length as int,
                padding as int,
                i as int,
                color@,
            ),
        decreases total - i,
    {
        let ghost prev = out.deep_view();
        let art_line: &str = if i < na {
            proof {
                assert(arts[i as int] == art_lines@[i as int]@);
            }
            art_lines[i].as_str()
        } else {
            ""
        };
        proof {
            if i >= na {
                reveal_strlit("");
                assert(art_line@ =~= Seq::<char>::empty());
            }
        }
        let info_line: &str = if i < ni {
            proof {
                assert(infos[i as int] == info_lines@[i as int]@);
            }
            info_lines[i].as_str()
        } else {
            ""
        };
        proof {
            if i >= ni {
                reveal_strlit("");
                assert(info_line@ =~= Seq::<char>::empty());
            }
        }
        let next_color = scan_color(art_line, color.as_str());
        color = next_color;
        let mut row = String::from_str(art_line);
        if !info_line.is_empty() {
            let vis = visible_length(art_line);
            proof {
                lemma_visible_nonneg(art_line@, false);
            }
            let pad: usize = if vis < max_line_length {
                max_line_length - vis + padding
            } else {
                padding
            };
            row.append("\x1b[0m");
            let sp = spaces(pad);
            row.append(sp.as_str());
            let st = styled_info(info_line, color.as_str(), i);
            row.append(st.as_str());
            if i + 1 < na && color.unicode_len() > 0 {
                row.append(color.as_str());
            }
        }
        proof {
            assert(row@ == spec_row_text(
                art_line@,
                info_line@,
                color@,
                i + 1 < arts.len(),
                max_line_length as int,
                padding as int,
                i as int,
            ));
        }
        out.push(row);
        i = i + 1;
        proof {
            assert(out.deep_view() =~= prev + seq![
                spec_row_text(
                    art_line@,
                    info_line@,
                    color@,
                    (i as int) < arts.len(),
                    max_line_length as int,
                    padding as int,
                    i as int - 1,
                ),
            ]);
            assert(spec_rows(
                arts,
                infos,
                max_line_length as int,
                padding as int,
                0,
                Seq::<char>::empty(),
            ) =~= out.deep_view() + spec_rows(
                arts,
                infos,
                max_line_length as int,
                padding as int,
                i as int,
                color@,
            ));
        }
    }
    proof {
        assert(out.deep_view() + spec_rows(
            arts,
            infos,
            max_line_length as int,
            padding as int,
            i as int,
            color@,
        ) =~= out.deep_view());
    }
    out
}

} // verus!
