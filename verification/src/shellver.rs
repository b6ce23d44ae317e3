//! Shell version labels: the shell's base name from its path, and the
//! per-shell parse of the first line of `--version` output. Each parser
//! takes what the version query printed (or nothing, when it failed) and
//! always yields a label, falling back to the bare shell name.

use vstd::prelude::*;
use crate::text::{
    spec_find_char, spec_rfind_char, spec_find_sub, spec_trim, trim_start_idx, is_ws_char,
    line_end_idx, find_char_from, find_sub_str, rfind_char, trim_str, is_ws, eq_strs,
    lemma_find_sub_props, lemma_rfind_char_props,
};

verus! {

/// The first line of a piece of text.
pub open spec fn spec_first_line(s: Seq<char>) -> Seq<char> {
    s.subrange(0, line_end_idx(s, 0))
}

/// The text after the last slash, or all of it when there is none.
pub open spec fn spec_shell_name(path: Seq<char>) -> Seq<char> {
    match spec_rfind_char(path, '/', path.len() as int) {
        Some(i) => path.subrange(i + 1, path.len() as int),
        None => path,
    }
}

/// The shell's base name: what follows the last `/` of its path.
pub fn shell_name_of<'a>(path: &'a str) -> (r: &'a str)
    ensures
        r@ == spec_shell_name(path@),
{
    let n = path.unicode_len();
    match rfind_char(path, '/') {
        Some(i) => {
            proof {
                lemma_rfind_char_props(path@, '/', path@.len() as int);
            }
            path.substring_char(i + 1, n)
        },
        None => path,
    }
}

/// The shells with a version parser of their own; any other shell shows
/// its bare name.
#[derive(PartialEq, Eq, Structural, Clone, Copy, Debug)]
pub enum ShellKind {
    Zsh,
    Bash,
    Fish,
    Other,
}

/// Which version parser a shell's base name selects.
pub open spec fn spec_shell_kind(name: Seq<char>) -> ShellKind {
    if name == "zsh"@ {
        ShellKind::Zsh
    } else if name == "bash"@ {
        ShellKind::Bash
    } else if name == "fish"@ {
        ShellKind::Fish
    } else {
        ShellKind::Other
    }
}

/// Picks the version parser for a shell's base name.
pub fn shell_kind(name: &str) -> (r: ShellKind)
    ensures
        r == spec_shell_kind(name@),
{
    if eq_strs(name, "zsh") {
        ShellKind::Zsh
    } else if eq_strs(name, "bash") {
        ShellKind::Bash
    } else if eq_strs(name, "fish") {
        ShellKind::Fish
    } else {
        ShellKind::Other
    }
}

/// Extracts the first line of a version output.
fn first_line<'a>(s: &'a str) -> (r: &'a str)
    ensures
        r@ == spec_first_line(s@),
{
    let n = s.unicode_len();
    match find_char_from(s, '\n', 0) {
        Some(e) => {
            proof {
                crate::compose::lemma_find_char_props(s@, '\n', 0);
            }
            s.substring_char(0, e)
        },
        None => {
            proof {
                assert(s@.subrange(0, s@.len() as int) =~= s@);
            }
            s
        },
    }
}

/// The zsh label from a version output: `zsh ` plus the space-delimited
/// token that follows the first `zsh ` of the first line, or the bare
/// `zsh` when the output is missing or shaped otherwise.
pub open spec fn spec_zsh_label(out: Option<Seq<char>>) -> Seq<char> {
    match out {
        None => "zsh"@,
        Some(o) => {
            let fl = spec_first_line(o);
            match spec_find_sub(fl, "zsh "@, 0) {
                None => "zsh"@,
                Some(p) => {
                    let vs = p + 4;
                    match spec_find_char(fl, ' ', vs) {
                        Some(sp) => "zsh "@ + fl.subrange(vs, sp),
                        None => "zsh"@,
                    }
                },
            }
        },
    }
}

/// Builds the zsh label from the version query's output.
pub fn detect_zsh_version(output: Option<&str>) -> (r: String)
    ensures
        match output {
            Some(o) => r@ == spec_zsh_label(Some(o@)),
            None => r@ == spec_zsh_label(None),
        },
{
    match output {
        None => String::from_str("zsh"),
        Some(o) => {
            let fl = first_line(o);
            let n = fl.unicode_len();
            match find_sub_str(fl, "zsh ") {
                None => String::from_str("zsh"),
                Some(p) => {
                    proof {
                        lemma_find_sub_props(fl@, "zsh "@, 0);
                        reveal_strlit("zsh ");
                    }
                    let vs = p + 4;
                    match find_char_from(fl, ' ', vs) {
                        Some(sp) => {
                            proof {
                                crate::compose::lemma_find_char_props(fl@, ' ', vs as int);
                            }
                            let mut s = String::from_str("zsh ");
                            let v = fl.substring_char(vs, sp);
                            s.append(v);
                            s
                        },
                        None => String::from_str("zsh"),
                    }
                },
            }
        },
    }
}

/// First index at or after `from` that is whitespace.
pub open spec fn token_end_idx(s: Seq<char>, from: int) -> int
    decreases s.len() - from,
{
    if from < s.len() && !is_ws_char(s[from]) {
        token_end_idx(s, from + 1)
    } else {
        from
    }
}

/// The first whitespace-delimited token of the text.
pub open spec fn spec_first_token(s: Seq<char>) -> Seq<char> {
    let a = trim_start_idx(s, 0);
    if a >= s.len() {
        Seq::empty()
    } else {
        s.subrange(a, token_end_idx(s, a))
    }
}

/// Extracts the first whitespace-delimited token (used both for version
/// output and for the identifier that selects an art entry: the first
/// token of the detected OS name).
pub fn first_token<'a>(s: &'a str) -> (r: &'a str)
    ensures
        r@ == spec_first_token(s@),
{
    let n = s.unicode_len();
    let mut a: usize = 0;
    while a < n && is_ws(s.get_char(a))
        invariant
            a <= n,
            n == s@.len(),
            trim_start_idx(s@, 0) == trim_start_idx(s@, a as int),
        decreases n - a,
    {
        a = a + 1;
    }
    if a >= n {
        let r = s.substring_char(0, 0);
        proof {
            assert(r@ =~= Seq::<char>::empty());
        }
        return r;
    }
    let mut b: usize = a;
    while b < n && !is_ws(s.get_char(b))
        invariant
            a <= b <= n,
            n == s@.len(),
            token_end_idx(s@, a as int) == token_end_idx(s@, b as int),
        decreases n - b,
    {
        b = b + 1;
    }
    s.substring_char(a, b)
}

/// The bash label from a version output: `bash ` plus what follows the
/// first `version ` of the first line, cut at the first `-` or `(` and
/// trimmed, or the first whitespace token after `version ` when neither
/// occurs; the bare `bash` when the output is missing or shaped
/// otherwise.
pub open spec fn spec_bash_label(out: Option<Seq<char>>) -> Seq<char> {
    match out {
        None => "bash"@,
        Some(o) => {
            let fl = spec_first_line(o);
            match spec_find_sub(fl, "version "@, 0) {
                None => "bash"@,
                Some(p) => {
                    let vs = p + 8;
                    let dash = spec_find_char(fl, '-', vs);
                    let paren = spec_find_char(fl, '(', vs);
                    let cut: Option<int> = match (dash, paren) {
                        (Some(d), Some(q)) => if d <= q {
                            Some(d)
                        } else {
                            Some(q)
                        },
                        (Some(d), None) => Some(d),
                        (None, Some(q)) => Some(q),
                        (None, None) => None,
                    };
                    match cut {
                        Some(c) => "bash "@ + spec_trim(fl.subrange(vs, c)),
                        None => {
                            let tok = spec_first_token(fl.subrange(vs, fl.len() as int));
                            if tok.len() > 0 {
                                "bash "@ + tok
                            } else {
                                "bash"@
                            }
                        },
                    }
                },
            }
        },
    }
}

/// Builds the bash label from the version query's output.
pub fn detect_bash_version(output: Option<&str>) -> (r: String)
    ensures
        match output {
            Some(o) => r@ == spec_bash_label(Some(o@)),
            None => r@ == spec_bash_label(None),
        },
{
    match output {
        None => String::from_str("bash"),
        Some(o) => {
            let fl = first_line(o);
            let n = fl.unicode_len();
            match find_sub_str(fl, "version ") {
                None => String::from_str("bash"),
                Some(p) => {
                    proof {
                        lemma_find_sub_props(fl@, "version "@, 0);
                        reveal_strlit("version ");
                    }
                    let vs = p + 8;
                    let dash = find_char_from(fl, '-', vs);
                    let paren = find_char_from(fl, '(', vs);
                    let cut: Option<usize> = match (dash, paren) {
                        (Some(d), Some(q)) => if d <= q {
                            Some(d)
                        } else {
                            Some(q)
                        },
                        (Some(d), None) => Some(d),
                        (None, Some(q)) => Some(q),
                        (None, None) => None,
                    };
                    match cut {
                        Some(c) => {
                            proof {
                                crate::compose::lemma_find_char_props(fl@, '-', vs as int);
                                crate::compose::lemma_find_char_props(fl@, '(', vs as int);
                            }
                            let mut s = String::from_str("bash ");
                            let v = trim_str(fl.substring_char(vs, c));
                            s.append(v);
                            s
                        },
                        None => {
                            let rest = fl.substring_char(vs, n);
                            let tok = first_token(rest);
                            if tok.unicode_len() > 0 {
                                let mut s = String::from_str("bash ");
                                s.append(tok);
                                s
                            } else {
                                String::from_str("bash")
                            }
                        },
                    }
                },
            }
        },
    }
}

/// The fish label from a version output: `fish ` plus what follows the
/// first `version ` of the first line, trimmed; the bare `fish` when the
/// output is missing, shaped otherwise, or trims to nothing.
pub open spec fn spec_fish_label(out: Option<Seq<char>>) -> Seq<char> {
    match out {
        None => "fish"@,
        Some(o) => {
            let fl = spec_first_line(o);
            match spec_find_sub(fl, "version "@, 0) {
                None => "fish"@,
                Some(p) => {
                    let v = spec_trim(fl.subrange(p + 8, fl.len() as int));
                    if v.len() > 0 {
                        "fish "@ + v
                    } else {
                        "fish"@
                    }
                },
            }
        },
    }
}

/// Builds the fish label from the version query's output.
pub fn detect_fish_version(output: Option<&str>) -> (r: String)
    ensures
        match output {
            Some(o) => r@ == spec_fish_label(Some(o@)),
            None => r@ == spec_fish_label(None),
        },
{
    match output {
        None => String::from_str("fish"),
        Some(o) => {
            let fl = first_line(o);
            let n = fl.unicode_len();
            match find_sub_str(fl, "version ") {
                None => String::from_str("fish"),
                Some(p) => {
                    proof {
                        lemma_find_sub_props(fl@, "version "@, 0);
                        reveal_strlit("version ");
                    }
                    let v = trim_str(fl.substring_char(p + 8, n));
                    if v.unicode_len() > 0 {
                        let mut s = String::from_str("fish ");
                        s.append(v);
                        s
                    } else {
                        String::from_str("fish")
                    }
                },
            }
        },
    }
}

} // verus!
